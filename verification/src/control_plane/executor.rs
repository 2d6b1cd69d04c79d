//! The serving side of the control plane: one forwarded delegation becomes one
//! result.
//!
//! Admission never executes: a delegation over capacity or under an id that is
//! in flight is answered without touching a session. Every admitted delegation
//! has a session key of its own and ends in exactly one result.

use crate::adapter::ChannelRef;
use crate::adapter::ChannelView;
use crate::digest::sha256_lower_hex;
use crate::digest::sha256_of;
use crate::encoding::byte_len;
use crate::encoding::utf8_len;
use crate::json::escaped_len;
use crate::json::json_escaped_char_len;
use crate::json::json_escaped_len_within;
use crate::json::json_string;
use crate::json::lemma_escaped_len_add;
use crate::json::lemma_escaped_len_one;
use crate::json::quoted;
use crate::proto::AdmissionToken;
use crate::proto::DelegateForward;
use crate::proto::DelegateResultParams;
use crate::proto::DelegateResultView;
use crate::proto::DelegationStatus;
use crate::proto::Timestamp;
use crate::table::Table;
use crate::text::chars_of;
use crate::text::decimal;
use crate::text::decimal_text;
use crate::text::holds;
use crate::text::joined;
use crate::text::law_joined_text_holds_its_parts;
use crate::text::lemma_holds_between;
use crate::text::string_of;
use vstd::prelude::*;
use vstd::string::*;
use vstd::utf8::*;

verus! {

/// The platform label of delegated turns.
pub const CP_PLATFORM: &'static str = "control-plane";

/// How long the teardown of one session may take, in milliseconds.
pub const TEARDOWN_BOUND_MS: u64 = 5000;

/// Ceiling on the result text of a delegation, in bytes of its JSON literal.
pub const MAX_RESULT_BYTES: usize = 524288;

/// Ceiling on the error text of a delegation, in bytes of its JSON literal.
pub const MAX_ERROR_BYTES: usize = 65536;

/// `n` as eight bytes, the most significant first.
pub open spec fn be_bytes(n: u64) -> Seq<u8> {
    seq![
        (n >> 56) as u8,
        (n >> 48) as u8,
        (n >> 40) as u8,
        (n >> 32) as u8,
        (n >> 24) as u8,
        (n >> 16) as u8,
        (n >> 8) as u8,
        n as u8,
    ]
}

/// The byte between two ids. No character's UTF-8 form holds it.
pub const ID_SEPARATOR: u8 = 0xff;

/// The bytes from which a session key is derived: the two ids with a separator
/// between them, and the admission in eight bytes.
pub open spec fn session_input(
    instance_id: Seq<char>,
    delegation_id: Seq<char>,
    admission: AdmissionToken,
) -> Seq<u8> {
    encode_utf8(instance_id) + seq![ID_SEPARATOR] + encode_utf8(delegation_id) + be_bytes(
        admission,
    )
}

/// The session key of one admission.
pub open spec fn session_key(
    instance_id: Seq<char>,
    delegation_id: Seq<char>,
    admission: AdmissionToken,
) -> Seq<char> {
    "control-plane:"@ + sha256_of(session_input(instance_id, delegation_id, admission))
}

fn push_bytes(out: &mut Vec<u8>, bytes: &[u8])
    ensures
        final(out)@ == old(out)@ + bytes@,
{
    let ghost before = out@;
    let mut i: usize = 0;
    while i < bytes.len()
        invariant
            i <= bytes@.len(),
            out@ == before + bytes@.take(i as int),
        decreases bytes@.len() - i,
    {
        out.push(bytes[i]);
        assert(out@ =~= before + bytes@.take(i + 1));
        i += 1;
    }
    assert(bytes@.take(bytes@.len() as int) =~= bytes@);
}

/// The session-pool key of one admission of one delegation. It is namespaced
/// and of a fixed length whatever the initiator sent.
pub fn delegation_session_key(
    instance_id: &str,
    delegation_id: &str,
    admission: AdmissionToken,
) -> (r: String)
    ensures
        r@ == session_key(instance_id@, delegation_id@, admission),
        r@.len() == "control-plane:"@.len() + 64,
        "control-plane:"@.is_prefix_of(r@),
{
    let mut input: Vec<u8> = Vec::new();
    push_bytes(&mut input, instance_id.as_bytes());
    input.push(ID_SEPARATOR);
    push_bytes(&mut input, delegation_id.as_bytes());
    input.push((admission >> 56) as u8);
    input.push((admission >> 48) as u8);
    input.push((admission >> 40) as u8);
    input.push((admission >> 32) as u8);
    input.push((admission >> 24) as u8);
    input.push((admission >> 16) as u8);
    input.push((admission >> 8) as u8);
    input.push(admission as u8);
    assert(input@ =~= session_input(instance_id@, delegation_id@, admission));
    let hex = sha256_lower_hex(input.as_slice());
    let mut out = "control-plane:".to_owned();
    out.append(hex.as_str());
    assert(out@.subrange(0, "control-plane:"@.len() as int) =~= "control-plane:"@);
    out
}

/// No two admissions share a session, whatever the ids: their keys are derived
/// from different bytes, so two keys are equal only where the digests of two
/// different inputs are.
pub proof fn law_admissions_have_distinct_sessions(
    i1: Seq<char>,
    d1: Seq<char>,
    a1: AdmissionToken,
    i2: Seq<char>,
    d2: Seq<char>,
    a2: AdmissionToken,
)
    requires
        (i1, d1, a1) != (i2, d2, a2),
    ensures
        session_input(i1, d1, a1) != session_input(i2, d2, a2),
        session_key(i1, d1, a1) == session_key(i2, d2, a2) ==> sha256_of(
            session_input(i1, d1, a1),
        ) == sha256_of(session_input(i2, d2, a2)),
{
    let x = session_input(i1, d1, a1);
    let y = session_input(i2, d2, a2);
    if x == y {
        lemma_session_input_injective(i1, d1, a1, i2, d2, a2);
    }
    if session_key(i1, d1, a1) == session_key(i2, d2, a2) {
        let n = "control-plane:"@.len() as int;
        assert(session_key(i1, d1, a1).skip(n) =~= sha256_of(x));
        assert(session_key(i2, d2, a2).skip(n) =~= sha256_of(y));
    }
}

/// The input of a session key tells which admission it is of.
proof fn lemma_session_input_injective(
    i1: Seq<char>,
    d1: Seq<char>,
    a1: AdmissionToken,
    i2: Seq<char>,
    d2: Seq<char>,
    a2: AdmissionToken,
)
    requires
        session_input(i1, d1, a1) == session_input(i2, d2, a2),
    ensures
        i1 == i2,
        d1 == d2,
        a1 == a2,
{
    let x = session_input(i1, d1, a1);
    let y = session_input(i2, d2, a2);
    let e1 = encode_utf8(i1);
    let e2 = encode_utf8(i2);
    let f1 = encode_utf8(d1);
    let f2 = encode_utf8(d2);
    let n = x.len() - 8;
    assert forall|k: int| 0 <= k < 8 implies be_bytes(a1)[k] == be_bytes(a2)[k] by {
        assert(x[n + k] == be_bytes(a1)[k]);
        assert(y[n + k] == be_bytes(a2)[k]);
    }
    lemma_be_bytes_injective(a1, a2);
    lemma_text_has_no_separator(i1);
    lemma_text_has_no_separator(i2);
    assert(x[e1.len() as int] == ID_SEPARATOR);
    assert(y[e2.len() as int] == ID_SEPARATOR);
    if e1.len() < e2.len() {
        assert(y[e1.len() as int] == e2[e1.len() as int]);
    }
    if e2.len() < e1.len() {
        assert(x[e2.len() as int] == e1[e2.len() as int]);
    }
    assert(x.take(e1.len() as int) =~= e1);
    assert(y.take(e2.len() as int) =~= e2);
    assert(x.subrange(e1.len() as int + 1, n) =~= f1);
    assert(y.subrange(e2.len() as int + 1, n) =~= f2);
    encode_utf8_decode_utf8(i1);
    encode_utf8_decode_utf8(i2);
    encode_utf8_decode_utf8(d1);
    encode_utf8_decode_utf8(d2);
}

/// No byte of a text is the separator.
proof fn lemma_text_has_no_separator(text: Seq<char>)
    ensures
        forall|k: int| 0 <= k < encode_utf8(text).len() ==> encode_utf8(text)[k] != ID_SEPARATOR,
{
    let bytes = encode_utf8(text);
    encode_utf8_valid_utf8(text);
    assert forall|k: int| 0 <= k < bytes.len() implies bytes[k] != ID_SEPARATOR by {
        is_char_boundary_iff_not_is_continuation_byte(bytes, k);
        is_char_boundary_iff_is_leading_byte(bytes, k);
    }
}

proof fn lemma_be_bytes_injective(a: u64, b: u64)
    requires
        forall|i: int| 0 <= i < 8 ==> be_bytes(a)[i] == be_bytes(b)[i],
    ensures
        a == b,
{
    assert(be_bytes(a)[0] == be_bytes(b)[0]);
    assert(be_bytes(a)[1] == be_bytes(b)[1]);
    assert(be_bytes(a)[2] == be_bytes(b)[2]);
    assert(be_bytes(a)[3] == be_bytes(b)[3]);
    assert(be_bytes(a)[4] == be_bytes(b)[4]);
    assert(be_bytes(a)[5] == be_bytes(b)[5]);
    assert(be_bytes(a)[6] == be_bytes(b)[6]);
    assert(be_bytes(a)[7] == be_bytes(b)[7]);
    assert(a == b) by (bit_vector)
        requires
            (a >> 56) as u8 == (b >> 56) as u8,
            (a >> 48) as u8 == (b >> 48) as u8,
            (a >> 40) as u8 == (b >> 40) as u8,
            (a >> 32) as u8 == (b >> 32) as u8,
            (a >> 24) as u8 == (b >> 24) as u8,
            (a >> 16) as u8 == (b >> 16) as u8,
            (a >> 8) as u8 == (b >> 8) as u8,
            a as u8 == b as u8,
    ;
}

/// The notice that stands at the end of a text that was cut.
pub open spec fn cut_marker(total: nat) -> Seq<char> {
    "\n...[truncated by worker: "@ + decimal(total)
        + " bytes total exceeded the transport budget]"@
}

/// How many characters at the front of `s` fit into `room` bytes of a JSON
/// string literal.
pub open spec fn fitting(s: Seq<char>, room: int) -> int
    decreases s.len(),
{
    if s.len() == 0 || crate::json::escaped_char_len(s[0]) > room {
        0
    } else {
        1 + fitting(s.drop_first(), room - crate::json::escaped_char_len(s[0]))
    }
}

/// `text` when its JSON literal fits into `budget` bytes; otherwise as much of
/// its front as leaves room for the notice, and the notice.
pub open spec fn capped(text: Seq<char>, budget: nat) -> Seq<char> {
    if escaped_len(text) <= budget {
        text
    } else {
        let marker = cut_marker(utf8_len(text));
        let room = if escaped_len(marker) <= budget {
            budget - escaped_len(marker)
        } else {
            0
        };
        text.take(fitting(text, room)) + marker
    }
}

proof fn lemma_fitting(s: Seq<char>, room: int)
    requires
        0 <= room,
    ensures
        0 <= fitting(s, room) <= s.len(),
        escaped_len(s.take(fitting(s, room))) <= room,
        fitting(s, room) < s.len() ==> escaped_len(s.take(fitting(s, room) + 1)) > room,
    decreases s.len(),
{
    if s.len() == 0 || crate::json::escaped_char_len(s[0]) > room {
        assert(s.take(0) =~= seq![]);
        if s.len() > 0 {
            assert(s.take(1) =~= seq![s[0]]);
            lemma_escaped_len_one(s[0]);
        }
    } else {
        let w = crate::json::escaped_char_len(s[0]) as int;
        let rest = s.drop_first();
        lemma_fitting(rest, room - w);
        let n = fitting(rest, room - w);
        let head: Seq<char> = seq![s[0]];
        lemma_escaped_len_one(s[0]);
        assert(s.take(n + 1) =~= head + rest.take(n));
        lemma_escaped_len_add(head, rest.take(n));
        if n + 1 < s.len() {
            assert(s.take(n + 2) =~= head + rest.take(n + 1));
            lemma_escaped_len_add(head, rest.take(n + 1));
        }
    }
}

/// Limits `text` to `budget` bytes of its JSON string literal.
pub fn cap_text(text: String, budget: usize) -> (r: String)
    ensures
        r@ == capped(text@, budget as nat),
{
    if json_escaped_len_within(text.as_str(), budget).is_some() {
        return text;
    }
    let total: usize = byte_len(text.as_str());
    let mut marker = "\n...[truncated by worker: ".to_owned();
    let digits = decimal_text(total as u64);
    marker.append(digits.as_str());
    marker.append(" bytes total exceeded the transport budget]");
    assert(marker@ =~= cut_marker(utf8_len(text@)));
    let keep: usize = match json_escaped_len_within(marker.as_str(), budget) {
        Some(n) => budget - n,
        None => 0,
    };
    let cs = chars_of(text.as_str());
    let mut cut: usize = 0;
    let mut room: usize = keep;
    assert(cs@.skip(0) =~= cs@);
    proof {
        lemma_fitting(cs@, keep as int);
    }
    while cut < cs.len()
        invariant_except_break
            cut + fitting(cs@.skip(cut as int), room as int) == fitting(cs@, keep as int),
        invariant
            cut <= cs@.len(),
        ensures
            cut == fitting(cs@, keep as int),
        decreases cs@.len() - cut,
    {
        let w: usize = json_escaped_char_len(cs[cut]);
        assert(cs@.skip(cut as int)[0] == cs@[cut as int]);
        if w > room {
            break;
        }
        assert(cs@.skip(cut as int).drop_first() =~= cs@.skip(cut + 1));
        room -= w;
        cut += 1;
    }
    let mut out = string_of(&cs, 0, cut);
    assert(cs@.subrange(0, cut as int) =~= cs@.take(cut as int));
    out.append(marker.as_str());
    out
}

/// Limits a result text.
pub fn cap_result(text: String) -> (r: String)
    ensures
        r@ == capped(text@, MAX_RESULT_BYTES as nat),
{
    cap_text(text, MAX_RESULT_BYTES)
}

/// Text that fits its budget is untouched.
pub proof fn law_fitting_text_is_untouched(text: Seq<char>, budget: nat)
    requires
        escaped_len(text) <= budget,
    ensures
        capped(text, budget) == text,
{
}

/// Whenever the notice fits the budget, so does the capped text.
pub proof fn law_capped_text_fits(text: Seq<char>, budget: nat)
    requires
        escaped_len(cut_marker(utf8_len(text))) <= budget,
    ensures
        escaped_len(capped(text, budget)) <= budget,
{
    if escaped_len(text) > budget {
        let marker = cut_marker(utf8_len(text));
        let room = budget - escaped_len(marker);
        lemma_fitting(text, room);
        lemma_escaped_len_add(text.take(fitting(text, room)), marker);
    }
}

/// A text that was cut keeps as much of its front as the budget allows: one
/// character more would not fit.
pub proof fn law_cut_is_maximal(text: Seq<char>, budget: nat)
    requires
        escaped_len(text) > budget,
        escaped_len(cut_marker(utf8_len(text))) <= budget,
    ensures
        ({
            let marker = cut_marker(utf8_len(text));
            let n = fitting(text, budget - escaped_len(marker));
            &&& 0 <= n < text.len()
            &&& capped(text, budget) == text.take(n) + marker
            &&& escaped_len(text.take(n + 1) + marker) > budget
        }),
{
    let marker = cut_marker(utf8_len(text));
    let room = budget - escaped_len(marker);
    lemma_fitting(text, room);
    let n = fitting(text, room);
    if n == text.len() {
        assert(text.take(n) =~= text);
    } else {
        lemma_escaped_len_add(text.take(n + 1), marker);
    }
}

/// Ten to the power of `k`.
pub open spec fn ten_to(k: nat) -> nat
    decreases k,
{
    if k == 0 {
        1
    } else {
        10 * ten_to((k - 1) as nat)
    }
}

proof fn lemma_decimal_digits(n: nat, k: nat)
    requires
        k >= 1,
        n < ten_to(k),
    ensures
        1 <= decimal(n).len() <= k,
        forall|i: int| 0 <= i < decimal(n).len() ==> '0' <= #[trigger] decimal(n)[i] <= '9',
    decreases k,
{
    if n >= 10 {
        assert(k >= 2) by {
            if k == 1 {
                assert(ten_to(1) == 10 * ten_to(0));
            }
        }
        lemma_decimal_digits(n / 10, (k - 1) as nat);
    }
}

proof fn lemma_plain_escaped_len(s: Seq<char>)
    requires
        forall|i: int|
            0 <= i < s.len() ==> ' ' <= #[trigger] s[i] <= '~' && s[i] != '"' && s[i] != '\\',
    ensures
        escaped_len(s) == s.len(),
    decreases s.len(),
{
    if s.len() > 0 {
        assert forall|i: int| 0 <= i < s.drop_last().len() implies ' ' <= #[trigger] s.drop_last()[i]
            <= '~' && s.drop_last()[i] != '"' && s.drop_last()[i] != '\\' by {
            assert(s.drop_last()[i] == s[i]);
        }
        lemma_plain_escaped_len(s.drop_last());
        assert(s.last() == s[s.len() - 1]);
    }
}

/// The notice takes at most 91 bytes of a JSON string literal when the length
/// that it names is one that a machine can hold.
pub proof fn lemma_marker_len(total: nat)
    requires
        total <= u64::MAX,
    ensures
        escaped_len(cut_marker(total)) <= 91,
{
    let head = "\n...[truncated by worker: "@;
    let tail = " bytes total exceeded the transport budget]"@;
    reveal_strlit("\n...[truncated by worker: ");
    reveal_strlit(" bytes total exceeded the transport budget]");
    assert(u64::MAX < ten_to(20)) by {
        reveal_with_fuel(ten_to, 21);
    }
    lemma_decimal_digits(total, 20);
    lemma_plain_escaped_len(decimal(total));
    lemma_plain_escaped_len(tail);
    let newline: Seq<char> = seq!['\n'];
    assert(head =~= newline + head.skip(1));
    lemma_plain_escaped_len(head.skip(1));
    lemma_escaped_len_one('\n');
    lemma_escaped_len_add(newline, head.skip(1));
    lemma_escaped_len_add(head, decimal(total));
    lemma_escaped_len_add(head + decimal(total), tail);
}

/// No result text exceeds [`MAX_RESULT_BYTES`] and no error text exceeds
/// [`MAX_ERROR_BYTES`] once it is capped.
pub proof fn law_payloads_fit_the_transport(text: Seq<char>)
    requires
        utf8_len(text) <= u64::MAX,
    ensures
        escaped_len(capped(text, MAX_RESULT_BYTES as nat)) <= MAX_RESULT_BYTES,
        escaped_len(capped(text, MAX_ERROR_BYTES as nat)) <= MAX_ERROR_BYTES,
{
    lemma_marker_len(utf8_len(text));
    law_capped_text_fits(text, MAX_RESULT_BYTES as nat);
    law_capped_text_fits(text, MAX_ERROR_BYTES as nat);
}

/// What one delegated prompt produced.
#[derive(Debug)]
pub struct PromptOutcome {
    /// Reply text for the initiator.
    pub text: String,
    /// The error that ended the turn.
    pub error: Option<String>,
    /// The turn produced nothing and reported no output tokens.
    pub silent_failure: bool,
}

/// Why a delegation was not started.
#[derive(Clone, Copy, Debug, PartialEq, Eq, Structural)]
pub enum Refusal {
    OverCapacity { active: u32, max: u32 },
    Duplicate,
}

/// The explanation of a refusal.
pub open spec fn refusal_text(r: Refusal) -> Seq<char> {
    match r {
        Refusal::OverCapacity { active, max } => "runtime is at its local delegation capacity ("@
            + decimal(active as nat) + "/"@ + decimal(max as nat)
            + "); the delegation was not started"@,
        Refusal::Duplicate =>
            "delegation_id is already in flight on this runtime; the delegation was not started"@,
    }
}

impl Refusal {
    /// The explanation that goes back to the initiator.
    pub fn message(&self) -> (r: String)
        ensures
            r@ == refusal_text(*self),
    {
        match self {
            Refusal::OverCapacity { active, max } => {
                let mut out = "runtime is at its local delegation capacity (".to_owned();
                let a = decimal_text(*active as u64);
                out.append(a.as_str());
                out.append("/");
                let m = decimal_text(*max as u64);
                out.append(m.as_str());
                out.append("); the delegation was not started");
                out
            },
            Refusal::Duplicate =>
                "delegation_id is already in flight on this runtime; the delegation was not started".to_owned(),
        }
    }
}

/// A failed delegation with its capped error.
pub open spec fn failed_result(
    delegation_id: Seq<char>,
    admission: AdmissionToken,
    error: Seq<char>,
) -> DelegateResultView {
    DelegateResultView {
        delegation_id,
        admission,
        status: DelegationStatus::Failed,
        result: None,
        error: Some(capped(error, MAX_ERROR_BYTES as nat)),
    }
}

/// A delegation whose deadline has passed.
pub open spec fn timed_out_result(
    delegation_id: Seq<char>,
    admission: AdmissionToken,
) -> DelegateResultView {
    DelegateResultView {
        delegation_id,
        admission,
        status: DelegationStatus::Timeout,
        result: None,
        error: Some("delegation deadline elapsed at the serving runtime"@),
    }
}

/// A failed delegation. Its error is capped here, so that no source of errors
/// can exceed the transport.
pub fn failed(delegation_id: &str, admission: AdmissionToken, error: String) -> (r:
    DelegateResultParams)
    ensures
        r@ == failed_result(delegation_id@, admission, error@),
{
    DelegateResultParams {
        delegation_id: delegation_id.to_owned(),
        admission,
        status: DelegationStatus::Failed,
        result: None,
        error: Some(cap_text(error, MAX_ERROR_BYTES)),
    }
}

/// A delegation whose deadline has passed.
pub fn timed_out(delegation_id: &str, admission: AdmissionToken) -> (r: DelegateResultParams)
    ensures
        r@ == timed_out_result(delegation_id@, admission),
{
    DelegateResultParams {
        delegation_id: delegation_id.to_owned(),
        admission,
        status: DelegationStatus::Timeout,
        result: None,
        error: Some("delegation deadline elapsed at the serving runtime".to_owned()),
    }
}

/// How the run of a delegated prompt ended.
pub enum RunEvent {
    /// A cancel arrived first.
    Cancelled,
    /// The budget ran out.
    Elapsed,
    /// The turn could not be driven at all.
    Broken(String),
    /// The turn ended.
    Finished(PromptOutcome),
}

/// What happens to the session of a delegation that ended.
#[derive(Clone, Copy, Debug, PartialEq, Eq, Structural)]
pub enum Teardown {
    /// Interrupt the turn, then discard the session; one bound holds for both.
    CancelThenDiscard,
    /// Discard the session before the result is sent.
    Discard,
    /// Discard the session without holding the result back.
    DiscardInBackground,
}

/// The end of a delegation: what to do with its session, and its result.
pub struct Conclusion {
    pub teardown: Teardown,
    pub result: DelegateResultParams,
}

/// The message for a turn that produced nothing.
pub open spec fn empty_turn_text() -> Seq<char> {
    "agent returned an empty turn (0 output tokens) — likely a provider/model/auth failure"@
}

/// The result of an admitted delegation whose run ended in `event`.
pub open spec fn concluded(
    delegation_id: Seq<char>,
    admission: AdmissionToken,
    event: RunEvent,
) -> (Teardown, DelegateResultView) {
    match event {
        RunEvent::Cancelled => (
            Teardown::CancelThenDiscard,
            DelegateResultView {
                delegation_id,
                admission,
                status: DelegationStatus::Cancelled,
                result: None,
                error: None,
            },
        ),
        RunEvent::Elapsed => (
            Teardown::CancelThenDiscard,
            timed_out_result(delegation_id, admission),
        ),
        RunEvent::Broken(e) => (Teardown::Discard, failed_result(delegation_id, admission, e@)),
        RunEvent::Finished(o) => match o.error {
            Some(e) => (Teardown::Discard, failed_result(delegation_id, admission, e@)),
            None => if o.silent_failure {
                (Teardown::Discard, failed_result(delegation_id, admission, empty_turn_text()))
            } else {
                (
                    Teardown::DiscardInBackground,
                    DelegateResultView {
                        delegation_id,
                        admission,
                        status: DelegationStatus::Completed,
                        result: Some(capped(o.text@, MAX_RESULT_BYTES as nat)),
                        error: None,
                    },
                )
            },
        },
    }
}

/// Classifies the end of an admitted delegation's run.
pub fn conclude(forward: &DelegateForward, event: RunEvent) -> (r: Conclusion)
    ensures
        (r.teardown, r.result@) == concluded(forward.delegation_id@, forward.admission, event),
{
    let id = forward.delegation_id.as_str();
    match event {
        RunEvent::Cancelled => Conclusion {
            teardown: Teardown::CancelThenDiscard,
            result: DelegateResultParams {
                delegation_id: id.to_owned(),
                admission: forward.admission,
                status: DelegationStatus::Cancelled,
                result: None,
                error: None,
            },
        },
        RunEvent::Elapsed => Conclusion {
            teardown: Teardown::CancelThenDiscard,
            result: timed_out(id, forward.admission),
        },
        RunEvent::Broken(e) => Conclusion {
            teardown: Teardown::Discard,
            result: failed(id, forward.admission, e),
        },
        RunEvent::Finished(outcome) => match outcome.error {
            Some(e) => Conclusion {
                teardown: Teardown::Discard,
                result: failed(id, forward.admission, e),
            },
            None => {
                if outcome.silent_failure {
                    Conclusion {
                        teardown: Teardown::Discard,
                        result: failed(
                            id,
                            forward.admission,
                            "agent returned an empty turn (0 output tokens) — likely a provider/model/auth failure".to_owned(),
                        ),
                    }
                } else {
                    Conclusion {
                        teardown: Teardown::DiscardInBackground,
                        result: DelegateResultParams {
                            delegation_id: id.to_owned(),
                            admission: forward.admission,
                            status: DelegationStatus::Completed,
                            result: Some(cap_result(outcome.text)),
                            error: None,
                        },
                    }
                }
            },
        },
    }
}

/// The result of a delegation always names the admission that was served, it
/// is `Completed` only for a turn that ended without an error and produced
/// something, and its payload fits the transport.
pub proof fn law_one_fitting_result(
    delegation_id: Seq<char>,
    admission: AdmissionToken,
    event: RunEvent,
)
    requires
        event matches RunEvent::Broken(e) ==> utf8_len(e@) <= u64::MAX,
        event matches RunEvent::Finished(o) ==> utf8_len(o.text@) <= u64::MAX,
        event matches RunEvent::Finished(o) ==> (o.error matches Some(e) ==> utf8_len(e@)
            <= u64::MAX),
    ensures
        ({
            let r = concluded(delegation_id, admission, event).1;
            &&& r.delegation_id == delegation_id
            &&& r.admission == admission
            &&& r.status is Completed <==> (event matches RunEvent::Finished(o) && o.error is None
                && !o.silent_failure)
            &&& r.result is Some <==> r.status is Completed
            &&& r.result matches Some(t) ==> escaped_len(t) <= MAX_RESULT_BYTES
            &&& r.error matches Some(t) ==> escaped_len(t) <= MAX_ERROR_BYTES
        }),
{
    match event {
        RunEvent::Broken(e) => {
            law_payloads_fit_the_transport(e@);
        },
        RunEvent::Finished(o) => {
            law_payloads_fit_the_transport(o.text@);
            if let Some(e) = o.error {
                law_payloads_fit_the_transport(e@);
            }
            let empty = empty_turn_text();
            reveal_strlit(
                "agent returned an empty turn (0 output tokens) — likely a provider/model/auth failure",
            );
            lemma_utf8_len_bound(empty);
            law_payloads_fit_the_transport(empty);
        },
        RunEvent::Elapsed => {
            let text = "delegation deadline elapsed at the serving runtime"@;
            reveal_strlit("delegation deadline elapsed at the serving runtime");
            lemma_plain_escaped_len(text);
        },
        RunEvent::Cancelled => {},
    }
}

proof fn lemma_utf8_len_bound(s: Seq<char>)
    ensures
        utf8_len(s) <= 4 * s.len(),
    decreases s.len(),
{
    if s.len() > 0 {
        lemma_utf8_len_bound(s.drop_last());
        crate::encoding::lemma_utf8_len_push(s.drop_last(), s.last());
        assert(s.drop_last().push(s.last()) =~= s);
    }
}

/// How long the discard may take after a cancel that took `elapsed_ms`:
/// nothing, when the cancel used up the bound that both share.
pub fn discard_after_cancel(elapsed_ms: u64) -> (r: Option<u64>)
    ensures
        r is Some <==> elapsed_ms < TEARDOWN_BOUND_MS,
        r matches Some(left) ==> elapsed_ms + left == TEARDOWN_BOUND_MS,
{
    let left: u64 = TEARDOWN_BOUND_MS.saturating_sub(elapsed_ms);
    if left == 0 {
        None
    } else {
        Some(left)
    }
}

/// Local admission of delegations for one runtime instance.
pub struct DelegationExecutor {
    instance_id: String,
    effective_max: u32,
    prompt_hard_timeout_nanos: u128,
    inflight: Table<String, AdmissionToken>,
}

/// The state of a [`DelegationExecutor`].
#[verifier::ext_equal]
pub struct ExecutorView {
    pub instance_id: Seq<char>,
    /// How many delegations may be in flight.
    pub effective_max: u32,
    /// The ceiling on one turn, in nanoseconds.
    pub prompt_hard_timeout_nanos: u128,
    /// The admission that is in flight under each id.
    pub inflight: Map<Seq<char>, AdmissionToken>,
    /// The ids in flight, oldest first.
    pub order: Seq<Seq<char>>,
}

impl View for DelegationExecutor {
    type V = ExecutorView;

    closed spec fn view(&self) -> ExecutorView {
        ExecutorView {
            instance_id: self.instance_id@,
            effective_max: self.effective_max,
            prompt_hard_timeout_nanos: self.prompt_hard_timeout_nanos,
            inflight: self.inflight@,
            order: self.inflight.keys(),
        }
    }
}

impl ExecutorView {
    /// Why `delegation_id` cannot be admitted, if it cannot: an id in flight is
    /// a duplicate, and otherwise the capacity decides.
    pub open spec fn refusal(self, delegation_id: Seq<char>) -> Option<Refusal> {
        if self.inflight.contains_key(delegation_id) {
            Some(Refusal::Duplicate)
        } else if self.inflight.dom().len() >= self.effective_max {
            Some(
                Refusal::OverCapacity {
                    active: self.inflight.dom().len() as u32,
                    max: self.effective_max,
                },
            )
        } else {
            None
        }
    }

    /// The state in which `delegation_id` is in flight too.
    pub open spec fn admitted(
        self,
        delegation_id: Seq<char>,
        admission: AdmissionToken,
    ) -> ExecutorView {
        ExecutorView {
            inflight: self.inflight.insert(delegation_id, admission),
            order: self.order.push(delegation_id),
            ..self
        }
    }

    /// The state in which nothing is in flight under `delegation_id`.
    pub open spec fn released(self, delegation_id: Seq<char>) -> ExecutorView {
        if self.inflight.contains_key(delegation_id) {
            ExecutorView {
                inflight: self.inflight.remove(delegation_id),
                order: self.order.remove(self.order.index_of(delegation_id)),
                ..self
            }
        } else {
            self
        }
    }
}

/// How a forwarded delegation is taken up.
pub enum ServeStep {
    /// It is answered at once, and nothing is in flight for it.
    Answer(DelegateResultParams),
    /// It is in flight: run it in this session, for at most this long.
    Run { session_key: String, budget_nanos: u128 },
}

/// Whether `r` and the state `after` are what becomes of `forward` at time
/// `now`: a refusal, a timeout, or a run until the deadline or the ceiling on
/// one turn, whichever is nearer.
pub open spec fn served(
    forward: DelegateForward,
    now: Timestamp,
    before: ExecutorView,
    after: ExecutorView,
    r: ServeStep,
) -> bool {
    let id = forward.delegation_id@;
    let left = forward.deadline.total_nanos() - now.total_nanos();
    let ceiling = before.prompt_hard_timeout_nanos;
    match before.refusal(id) {
        Some(refusal) => {
            &&& after == before
            &&& r matches ServeStep::Answer(a)
            &&& a@ == failed_result(id, forward.admission, refusal_text(refusal))
        },
        None => if left < 0 {
            &&& after == before
            &&& r matches ServeStep::Answer(a)
            &&& a@ == timed_out_result(id, forward.admission)
        } else {
            &&& after == before.admitted(id, forward.admission)
            &&& r matches ServeStep::Run { session_key: key, budget_nanos }
            &&& key@ == session_key(before.instance_id, id, forward.admission)
            &&& budget_nanos == (if left <= ceiling {
                left
            } else {
                ceiling as int
            })
        },
    }
}

impl DelegationExecutor {
    /// The table is well-formed and its size fits the counter that is reported.
    pub closed spec fn wf(&self) -> bool {
        self.inflight.wf() && self.inflight@.dom().len() <= u32::MAX
    }

    /// An executor with nothing in flight.
    pub fn new(instance_id: String, effective_max: u32, prompt_hard_timeout_nanos: u128) -> (r: Self)
        ensures
            r.wf(),
            r@ == (ExecutorView {
                instance_id: instance_id@,
                effective_max,
                prompt_hard_timeout_nanos,
                inflight: Map::empty(),
                order: seq![],
            }),
    {
        let r = DelegationExecutor {
            instance_id,
            effective_max,
            prompt_hard_timeout_nanos,
            inflight: Table::new(),
        };
        assert(r@.order =~= seq![]);
        r
    }

    /// Adopts the capacity that the control plane acknowledged.
    pub fn set_effective_max(&mut self, max: u32)
        requires
            old(self).wf(),
        ensures
            final(self).wf(),
            final(self)@ == (ExecutorView { effective_max: max, ..old(self)@ }),
    {
        self.effective_max = max;
    }

    /// How many delegations may be in flight.
    pub fn effective_max(&self) -> (r: u32)
        ensures
            r == self@.effective_max,
    {
        self.effective_max
    }

    /// How many delegations are in flight.
    pub fn active(&self) -> (r: u32)
        requires
            self.wf(),
        ensures
            r == self@.inflight.dom().len(),
    {
        self.inflight.len() as u32
    }

    /// Reserves a slot for `delegation_id`, or says why there is none.
    pub fn reserve(&mut self, delegation_id: &str, admission: AdmissionToken) -> (r: Result<
        (),
        Refusal,
    >)
        requires
            old(self).wf(),
        ensures
            final(self).wf(),
            match old(self)@.refusal(delegation_id@) {
                Some(refusal) => r == Err::<(), Refusal>(refusal) && final(self)@ == old(self)@,
                None => r is Ok && final(self)@ == old(self)@.admitted(delegation_id@, admission),
            },
    {
        let ghost before = *self;
        let id = delegation_id.to_owned();
        if self.inflight.contains(&id) {
            return Err(Refusal::Duplicate);
        }
        let active: u32 = self.inflight.len() as u32;
        if active >= self.effective_max {
            return Err(Refusal::OverCapacity { active, max: self.effective_max });
        }
        self.inflight.insert(id, admission);
        proof {
            before.inflight.lemma_len();
            assert(self@ =~= before@.admitted(delegation_id@, admission));
        }
        Ok(())
    }

    /// Frees the slot of `delegation_id`.
    pub fn release(&mut self, delegation_id: &str)
        requires
            old(self).wf(),
        ensures
            final(self).wf(),
            final(self)@ == old(self)@.released(delegation_id@),
    {
        let ghost before = *self;
        let id = delegation_id.to_owned();
        let _ = self.inflight.remove(&id);
        proof {
            before.inflight.lemma_len();
            assert(self@ =~= before@.released(delegation_id@));
        }
    }

    /// Whether this admission is in flight and must be signalled to stop. A
    /// cancel that names another admission of the same id is ignored.
    pub fn cancel(&self, delegation_id: &str, admission: AdmissionToken) -> (r: bool)
        requires
            self.wf(),
        ensures
            r <==> self@.inflight.contains_key(delegation_id@) && self@.inflight[delegation_id@]
                == admission,
    {
        let id = delegation_id.to_owned();
        match self.inflight.get(&id) {
            Some(live) => *live == admission,
            None => false,
        }
    }

    /// Everything in flight, for a signal to all.
    pub fn cancel_all(&self) -> (r: Vec<String>)
        requires
            self.wf(),
        ensures
            r.deep_view() == self@.order,
    {
        let mut out: Vec<String> = Vec::new();
        let mut i: usize = 0;
        while i < self.inflight.len()
            invariant
                self.inflight.wf(),
                i <= self.inflight.keys().len(),
                out.deep_view() =~= self.inflight.keys().take(i as int),
            decreases self.inflight.keys().len() - i,
        {
            let ghost sofar = out.deep_view();
            out.push(self.inflight.at(i).0.clone());
            assert(out.deep_view() =~= sofar.push(self.inflight.keys()[i as int]));
            i += 1;
        }
        assert(self.inflight.keys().take(i as int) =~= self.inflight.keys());
        out
    }

    /// Takes up a forwarded delegation at time `now`. A delegation that cannot
    /// be admitted is refused, one whose deadline has passed times out, and
    /// neither stays in flight; any other runs until its deadline or the
    /// ceiling on one turn, whichever is nearer.
    pub fn serve(&mut self, forward: &DelegateForward, now: Timestamp) -> (r: ServeStep)
        requires
            old(self).wf(),
        ensures
            final(self).wf(),
            served(*forward, now, old(self)@, final(self)@, r),
    {
        let id = forward.delegation_id.as_str();
        let ghost before = *self;
        match self.reserve(id, forward.admission) {
            Err(refusal) => {
                let text = refusal.message();
                return ServeStep::Answer(failed(id, forward.admission, text));
            },
            Ok(()) => {},
        }
        let deadline: i128 = forward.deadline.secs as i128 * 1_000_000_000
            + forward.deadline.nanos as i128;
        let at: i128 = now.secs as i128 * 1_000_000_000 + now.nanos as i128;
        let left: i128 = deadline - at;
        if left < 0 {
            self.release(id);
            proof {
                let n = before@.order.len() as int;
                assert(!before@.order.contains(id@)) by {
                    before.inflight.lemma_len();
                    assert(before.inflight@.contains_key(id@) <==> before.inflight.keys().contains(
                        id@,
                    ));
                }
                let grown = before@.order.push(id@);
                assert(grown[n] == id@);
                let j = grown.index_of(id@);
                assert(j == n) by {
                    assert(grown.contains(id@));
                    if j < n {
                        assert(before@.order[j] == id@);
                        assert(before@.order.contains(id@));
                    }
                }
                assert(grown.remove(n) =~= before@.order);
                assert(before@.inflight.insert(id@, forward.admission).remove(id@)
                    =~= before@.inflight);
                assert(self@ =~= before@);
            }
            return ServeStep::Answer(timed_out(id, forward.admission));
        }
        let ceiling: u128 = self.prompt_hard_timeout_nanos;
        let remaining: u128 = left as u128;
        let budget_nanos: u128 = if remaining <= ceiling {
            remaining
        } else {
            ceiling
        };
        let session_key = delegation_session_key(self.instance_id.as_str(), id, forward.admission);
        ServeStep::Run { session_key, budget_nanos }
    }
}

/// Releasing what was just admitted restores the state.
pub proof fn law_release_undoes_admission(
    s: ExecutorView,
    delegation_id: Seq<char>,
    admission: AdmissionToken,
)
    requires
        s.order.no_duplicates(),
        forall|id: Seq<char>| s.inflight.contains_key(id) <==> #[trigger] s.order.contains(id),
        s.refusal(delegation_id) is None,
    ensures
        s.admitted(delegation_id, admission).released(delegation_id) == s,
{
    let n = s.order.len() as int;
    let grown = s.order.push(delegation_id);
    assert(!s.order.contains(delegation_id));
    assert(grown[n] == delegation_id);
    assert(grown.contains(delegation_id));
    let j = grown.index_of(delegation_id);
    if j < n {
        assert(s.order[j] == delegation_id);
    }
    assert(grown.remove(n) =~= s.order);
    assert(s.inflight.insert(delegation_id, admission).remove(delegation_id) =~= s.inflight);
    assert(s.admitted(delegation_id, admission).released(delegation_id) =~= s);
}

/// An admission never takes more slots than the capacity in force.
pub proof fn law_capacity_bounds_admission(
    s: ExecutorView,
    delegation_id: Seq<char>,
    admission: AdmissionToken,
)
    requires
        s.inflight.dom().finite(),
        s.refusal(delegation_id) is None,
    ensures
        s.admitted(delegation_id, admission).inflight.dom().len() <= s.effective_max,
{
}

/// A point in time as RFC 3339 text.
pub uninterp spec fn rfc3339_text(secs: i64, nanos: u32) -> Option<Seq<char>>;

/// `chrono::DateTime::from_timestamp` and `to_rfc3339`: the text of a point in
/// time in UTC, a function of its two parts; nothing where they are outside the
/// range of the calendar.
#[verifier::external_body]
pub(crate) fn rfc3339(secs: i64, nanos: u32) -> (r: Option<String>)
    ensures
        r.deep_view() == rfc3339_text(secs, nanos),
{
    chrono::DateTime::<chrono::Utc>::from_timestamp(secs, nanos).map(|t| t.to_rfc3339())
}

/// The literals of `items`, each as a JSON string.
pub open spec fn json_strings(items: Seq<Seq<char>>) -> Seq<Seq<char>> {
    items.map_values(|s: Seq<char>| json_string(s))
}

/// The arrival block of a delegated turn whose deadline reads `deadline`.
pub open spec fn delegation_context(
    delegation_id: Seq<char>,
    from: Seq<char>,
    chain: Seq<Seq<char>>,
    deadline: Seq<char>,
) -> Seq<char> {
    "{\"chain\":["@ + joined(json_strings(chain), ","@) + "],\"deadline\":"@ + json_string(deadline)
        + ",\"delegation_id\":"@ + json_string(delegation_id) + ",\"from\":"@ + json_string(from)
        + ",\"schema\":\"openab.delegation.v1\"}"@
}

/// Writes the arrival block of a delegated turn for a deadline that reads
/// `deadline`.
pub fn render_delegation_context(forward: &DelegateForward, deadline: &str) -> (r: String)
    ensures
        r@ == delegation_context(
            forward.delegation_id@,
            forward.from@,
            forward.chain.deep_view(),
            deadline@,
        ),
{
    let mut literals: Vec<String> = Vec::new();
    let mut i: usize = 0;
    let ghost all = forward.chain.deep_view();
    while i < forward.chain.len()
        invariant
            i <= forward.chain@.len(),
            all == forward.chain.deep_view(),
            literals.deep_view() =~= json_strings(all.take(i as int)),
        decreases forward.chain@.len() - i,
    {
        let ghost sofar = literals.deep_view();
        literals.push(quoted(forward.chain[i].as_str()));
        assert(literals.deep_view() =~= sofar.push(json_string(all[i as int])));
        i += 1;
    }
    assert(all.take(all.len() as int) =~= all);
    let chain = crate::text::join(&literals, 0, ",");
    assert(literals.deep_view().skip(0) =~= literals.deep_view());
    let mut out = "{\"chain\":[".to_owned();
    out.append(chain.as_str());
    out.append("],\"deadline\":");
    let d = quoted(deadline);
    out.append(d.as_str());
    out.append(",\"delegation_id\":");
    let id = quoted(forward.delegation_id.as_str());
    out.append(id.as_str());
    out.append(",\"from\":");
    let from = quoted(forward.from.as_str());
    out.append(from.as_str());
    out.append(",\"schema\":\"openab.delegation.v1\"}");
    out
}

/// The arrival block of a delegated turn: who asked, through whom, and by
/// when. Nothing, when the deadline is outside the range of the calendar.
pub fn delegation_context_json(forward: &DelegateForward) -> (r: Option<String>)
    ensures
        r.deep_view() == match rfc3339_text(forward.deadline.secs, forward.deadline.nanos) {
            Some(deadline) => Some(
                delegation_context(
                    forward.delegation_id@,
                    forward.from@,
                    forward.chain.deep_view(),
                    deadline,
                ),
            ),
            None => None,
        },
{
    match rfc3339(forward.deadline.secs, forward.deadline.nanos) {
        Some(deadline) => Some(render_delegation_context(forward, deadline.as_str())),
        None => None,
    }
}

/// The channel that stands for a delegated turn: one of its own, with no
/// thread.
pub fn delegation_channel(forward: &DelegateForward) -> (r: ChannelRef)
    ensures
        r@ == (ChannelView {
            platform: CP_PLATFORM@,
            channel_id: forward.delegation_id@,
            thread_id: None,
            parent_id: None,
            origin_event_id: None,
        }),
{
    ChannelRef {
        platform: CP_PLATFORM.to_owned(),
        channel_id: forward.delegation_id.clone(),
        thread_id: None,
        parent_id: None,
        origin_event_id: None,
    }
}

/// The adapter of delegated turns: it delivers nowhere, because the reply
/// travels back as the result of the delegation.
#[derive(Clone, Copy, Debug, PartialEq, Eq, Structural)]
pub struct SinkAdapter;

impl SinkAdapter {
    /// The platform label.
    pub fn platform(&self) -> (r: &'static str)
        ensures
            r@ == CP_PLATFORM@,
    {
        CP_PLATFORM
    }

    /// No reply is split.
    pub fn message_limit(&self) -> (r: usize)
        ensures
            r == usize::MAX,
    {
        usize::MAX
    }

    /// The reply is composed once, at the end.
    pub fn use_streaming(&self, _other_bot_present: bool) -> (r: bool)
        ensures
            !r,
    {
        false
    }

    /// There is no native stream to write to.
    pub fn uses_native_streaming(&self, _other_bot_present: bool) -> (r: bool)
        ensures
            !r,
    {
        false
    }

    /// There is no status line to write to.
    pub fn uses_assistant_status(&self) -> (r: bool)
        ensures
            !r,
    {
        false
    }
}

/// A delegation is refused exactly where its id is in flight, which makes it a
/// duplicate, or where as many are in flight as may be, and then the refusal
/// says so with both numbers.
pub proof fn law_refusals_are_justified(s: ExecutorView, delegation_id: Seq<char>)
    requires
        s.inflight.dom().len() <= u32::MAX,
    ensures
        match s.refusal(delegation_id) {
            None => !s.inflight.contains_key(delegation_id) && s.inflight.dom().len()
                < s.effective_max,
            Some(Refusal::Duplicate) => s.inflight.contains_key(delegation_id),
            Some(Refusal::OverCapacity { active, max }) => !s.inflight.contains_key(delegation_id)
                && active == s.inflight.dom().len() && max == s.effective_max && active >= max,
        },
{
}

/// The explanation of a full runtime holds both numbers.
pub proof fn law_refusal_is_explained(active: u32, max: u32)
    ensures
        holds(
            refusal_text(Refusal::OverCapacity { active, max }),
            decimal(active as nat) + "/"@ + decimal(max as nat),
        ),
        refusal_text(Refusal::OverCapacity { active, max }) != refusal_text(Refusal::Duplicate),
{
    let (head, tail) = (
        "runtime is at its local delegation capacity ("@,
        "); the delegation was not started"@,
    );
    let numbers = decimal(active as nat) + "/"@ + decimal(max as nat);
    let whole = refusal_text(Refusal::OverCapacity { active, max });
    lemma_holds_between(head, numbers, tail);
    assert(head + numbers + tail =~= whole);
    reveal_strlit("runtime is at its local delegation capacity (");
    reveal_strlit(
        "delegation_id is already in flight on this runtime; the delegation was not started",
    );
    assert(whole[0] == 'r');
    assert(refusal_text(Refusal::Duplicate)[0] == 'd');
}

/// Admitting and releasing touch the one delegation only: it is in flight under
/// the admission that was named, or not at all, and every other is as it was.
pub proof fn law_admission_touches_one_delegation(
    s: ExecutorView,
    delegation_id: Seq<char>,
    admission: AdmissionToken,
    other: Seq<char>,
)
    requires
        other != delegation_id,
    ensures
        s.admitted(delegation_id, admission).inflight.contains_key(delegation_id),
        s.admitted(delegation_id, admission).inflight[delegation_id] == admission,
        s.admitted(delegation_id, admission).inflight.contains_key(other)
            == s.inflight.contains_key(other),
        s.inflight.contains_key(other) ==> s.admitted(delegation_id, admission).inflight[other]
            == s.inflight[other],
        !s.released(delegation_id).inflight.contains_key(delegation_id),
        s.released(delegation_id).inflight.contains_key(other) == s.inflight.contains_key(other),
        s.inflight.contains_key(other) ==> s.released(delegation_id).inflight[other]
            == s.inflight[other],
        s.admitted(delegation_id, admission).effective_max == s.effective_max,
        s.released(delegation_id).effective_max == s.effective_max,
{
}

/// A delegation that can be admitted and whose deadline has not passed is in
/// flight and runs in a session of its own, for as long as its deadline and the
/// ceiling on one turn both allow, and no shorter.
pub proof fn law_delegation_in_time_runs(
    forward: DelegateForward,
    now: Timestamp,
    before: ExecutorView,
    after: ExecutorView,
    r: ServeStep,
)
    requires
        served(forward, now, before, after, r),
        before.refusal(forward.delegation_id@) is None,
        now.total_nanos() <= forward.deadline.total_nanos(),
    ensures
        after.inflight.contains_key(forward.delegation_id@),
        after.inflight[forward.delegation_id@] == forward.admission,
        r matches ServeStep::Run { session_key: key, budget_nanos } && key@ == session_key(
            before.instance_id,
            forward.delegation_id@,
            forward.admission,
        ) && now.total_nanos() + budget_nanos <= forward.deadline.total_nanos() && budget_nanos
            <= before.prompt_hard_timeout_nanos && (now.total_nanos() + budget_nanos
            == forward.deadline.total_nanos() || budget_nanos == before.prompt_hard_timeout_nanos),
{
}

/// A delegation that cannot be admitted fails with the reason, and one whose
/// deadline has passed times out; neither is in flight afterwards unless it was,
/// and the answer names the admission that was forwarded.
pub proof fn law_delegation_that_cannot_run_is_answered(
    forward: DelegateForward,
    now: Timestamp,
    before: ExecutorView,
    after: ExecutorView,
    r: ServeStep,
)
    requires
        served(forward, now, before, after, r),
        before.refusal(forward.delegation_id@) is Some || now.total_nanos()
            > forward.deadline.total_nanos(),
    ensures
        after == before,
        r matches ServeStep::Answer(a) && a.delegation_id@ == forward.delegation_id@ && a.admission
            == forward.admission && a.result is None && a.error is Some && (a.status is Failed
            <==> before.refusal(forward.delegation_id@) is Some) && (a.status is Timeout
            <==> before.refusal(forward.delegation_id@) is None),
{
}

/// Each way in which a run can end has its own result: a cancelled run is
/// cancelled, one that ran out of time timed out, one that broke or ended in an
/// error failed with that error, and one that produced its text completed with
/// it; text that fits is passed on whole.
pub proof fn law_result_tells_how_the_run_ended(
    delegation_id: Seq<char>,
    admission: AdmissionToken,
    event: RunEvent,
)
    ensures
        ({
            let r = concluded(delegation_id, admission, event).1;
            &&& r.delegation_id == delegation_id && r.admission == admission
            &&& event is Cancelled <==> r.status is Cancelled
            &&& event is Elapsed <==> r.status is Timeout
            &&& r.status !is TargetDisconnected
            &&& event matches RunEvent::Broken(e) ==> r.status is Failed && (escaped_len(e@)
                <= MAX_ERROR_BYTES ==> r.error == Some(e@))
            &&& event matches RunEvent::Finished(o) ==> match o.error {
                Some(e) => r.status is Failed && r.result is None && (escaped_len(e@)
                    <= MAX_ERROR_BYTES ==> r.error == Some(e@)),
                None => if o.silent_failure {
                    r.status is Failed && r.result is None && r.error is Some
                } else {
                    r.status is Completed && r.error is None && (escaped_len(o.text@)
                        <= MAX_RESULT_BYTES ==> r.result == Some(o.text@))
                },
            }
        }),
{
}

/// Whatever the end, the session is discarded. The turn is interrupted first
/// exactly where it may still run, and only a completed delegation does not wait
/// for its session to be gone.
pub proof fn law_session_is_torn_down(
    delegation_id: Seq<char>,
    admission: AdmissionToken,
    event: RunEvent,
)
    ensures
        concluded(delegation_id, admission, event).0 is CancelThenDiscard <==> event is Cancelled
            || event is Elapsed,
        concluded(delegation_id, admission, event).0 is DiscardInBackground <==> concluded(
            delegation_id,
            admission,
            event,
        ).1.status is Completed,
{
}

/// A text that was cut starts as the text does, and tells how long that was.
pub proof fn law_cut_text_tells_its_length(text: Seq<char>, budget: nat)
    requires
        escaped_len(text) > budget,
    ensures
        exists|n: int|
            0 <= n <= text.len() && capped(text, budget) == #[trigger] text.take(n) + cut_marker(
                utf8_len(text),
            ),
        holds(capped(text, budget), decimal(utf8_len(text))),
{
    let marker = cut_marker(utf8_len(text));
    let room = if escaped_len(marker) <= budget {
        budget - escaped_len(marker)
    } else {
        0
    };
    lemma_fitting(text, room);
    let front = text.take(fitting(text, room));
    let (head, tail) = (
        "\n...[truncated by worker: "@,
        " bytes total exceeded the transport budget]"@,
    );
    let number = decimal(utf8_len(text));
    lemma_holds_between(front + head, number, tail);
    assert(front + head + number + tail =~= front + marker);
}

/// The bytes of a number stand most significant first.
pub proof fn law_bytes_stand_for_the_number(n: u64)
    ensures
        be_bytes(n).len() == 8,
        n == be_bytes(n)[0] * 0x100_0000_0000_0000 + be_bytes(n)[1] * 0x1_0000_0000_0000 + be_bytes(
            n,
        )[2] * 0x100_0000_0000 + be_bytes(n)[3] * 0x1_0000_0000 + be_bytes(n)[4] * 0x100_0000
            + be_bytes(n)[5] * 0x1_0000 + be_bytes(n)[6] * 0x100 + be_bytes(n)[7],
{
    let (a, b, c, d) = ((n >> 56) as u8, (n >> 48) as u8, (n >> 40) as u8, (n >> 32) as u8);
    let (e, f, g, h) = ((n >> 24) as u8, (n >> 16) as u8, (n >> 8) as u8, n as u8);
    assert(n == a * 0x100_0000_0000_0000 + b * 0x1_0000_0000_0000 + c * 0x100_0000_0000 + d
        * 0x1_0000_0000 + e * 0x100_0000 + f * 0x1_0000 + g * 0x100 + h) by (bit_vector)
        requires
            a == (n >> 56) as u8,
            b == (n >> 48) as u8,
            c == (n >> 40) as u8,
            d == (n >> 32) as u8,
            e == (n >> 24) as u8,
            f == (n >> 16) as u8,
            g == (n >> 8) as u8,
            h == n as u8,
    ;
}

/// The arrival block tells who asked, under which id, by when, and through whom,
/// each as a JSON string under its name.
pub proof fn law_arrival_block_tells_the_delegation(
    delegation_id: Seq<char>,
    from: Seq<char>,
    chain: Seq<Seq<char>>,
    deadline: Seq<char>,
    i: int,
)
    requires
        0 <= i < chain.len(),
    ensures
        ({
            let text = delegation_context(delegation_id, from, chain, deadline);
            &&& holds(text, ",\"delegation_id\":"@ + json_string(delegation_id))
            &&& holds(text, ",\"from\":"@ + json_string(from))
            &&& holds(text, "\"deadline\":"@ + json_string(deadline))
            &&& holds(text, json_string(chain[i]))
        }),
{
    let text = delegation_context(delegation_id, from, chain, deadline);
    let links = joined(json_strings(chain), ","@);
    law_joined_text_holds_its_parts(json_strings(chain), ","@, i);
    assert(json_strings(chain)[i] == json_string(chain[i]));
    lemma_arrival_block(
        links,
        json_string(chain[i]),
        json_string(deadline),
        json_string(delegation_id),
        json_string(from),
    );
}

proof fn lemma_arrival_block(
    links: Seq<char>,
    link: Seq<char>,
    deadline: Seq<char>,
    id: Seq<char>,
    from: Seq<char>,
)
    requires
        holds(links, link),
    ensures
        ({
            let text = "{\"chain\":["@ + links + "],\"deadline\":"@ + deadline
                + ",\"delegation_id\":"@ + id + ",\"from\":"@ + from
                + ",\"schema\":\"openab.delegation.v1\"}"@;
            &&& holds(text, ",\"delegation_id\":"@ + id)
            &&& holds(text, ",\"from\":"@ + from)
            &&& holds(text, "\"deadline\":"@ + deadline)
            &&& holds(text, link)
        }),
{
    let (a, b, c, d, e) = (
        "{\"chain\":["@,
        "],\"deadline\":"@,
        ",\"delegation_id\":"@,
        ",\"from\":"@,
        ",\"schema\":\"openab.delegation.v1\"}"@,
    );
    let text = a + links + b + deadline + c + id + d + from + e;
    let tail = d + from + e;
    lemma_holds_between(a + links + b + deadline, c + id, tail);
    assert(a + links + b + deadline + (c + id) + tail =~= text);
    lemma_holds_between(a + links + b + deadline + c + id, d + from, e);
    assert(a + links + b + deadline + c + id + (d + from) + e =~= text);
    reveal_strlit("],\"deadline\":");
    reveal_strlit("\"deadline\":");
    let (x, y) = ("],\"deadline\":"@.take(2), "\"deadline\":"@);
    assert(b =~= x + y);
    lemma_holds_between(a + links + x, y + deadline, c + id + tail);
    assert(a + links + x + (y + deadline) + (c + id + tail) =~= text);
    let k = choose|k: int|
        0 <= k <= links.len() - link.len() && #[trigger] links.subrange(k, k + link.len()) == link;
    let n = a.len() + k;
    assert(text.subrange(n, n + link.len()) =~= link);
}

} // verus!
