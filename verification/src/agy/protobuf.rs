//! Reads the payloads of the conversation database.

use vstd::arithmetic::power2::*;
use vstd::bits::*;
use crate::json::parse_json;
use crate::json::parsed_json;
use crate::value::maybe_json;
use crate::value::Json;
use crate::value::JsonView;
use vstd::prelude::*;
use vstd::utf8::*;

verus! {

/// The first byte without a continuation bit ends a varint; the number of
/// bytes up to and with it.
pub open spec fn varint_len(s: Seq<u8>) -> Option<int>
    decreases s.len(),
{
    if s.len() == 0 {
        None
    } else if s[0] < 128 {
        Some(1)
    } else {
        match varint_len(s.skip(1)) {
            Some(n) => Some(n + 1),
            None => None,
        }
    }
}

/// The number that groups of seven bits stand for, the lowest first.
pub open spec fn groups_value(s: Seq<u8>) -> int
    decreases s.len(),
{
    if s.len() == 0 {
        0
    } else {
        groups_value(s.drop_last()) + (s.last() % 128) * pow2((7 * (s.len() - 1)) as nat)
    }
}

/// The varint at the start of `s`: its value, of which only the low 64 bits are
/// kept, and the bytes that it takes. A varint has at most ten bytes.
pub open spec fn varint(s: Seq<u8>) -> Option<(u64, int)> {
    match varint_len(s) {
        Some(n) => if n <= 10 {
            Some(((groups_value(s.take(n)) % 0x1_0000_0000_0000_0000) as u64, n))
        } else {
            None
        },
        None => None,
    }
}

proof fn lemma_varint_len(s: Seq<u8>, n: int)
    requires
        0 <= n <= s.len(),
        forall|k: int| 0 <= k < n ==> s[k] >= 128,
    ensures
        varint_len(s) == (match varint_len(s.skip(n)) {
            Some(m) => Some(m + n),
            None => None,
        }),
        varint_len(s.skip(n)) matches Some(m) ==> m >= 1 && m <= s.len() - n,
    decreases s.len(),
{
    if n == 0 {
        assert(s.skip(0) =~= s);
        if s.len() > 0 && s[0] >= 128 {
            lemma_varint_len(s.skip(1), 0);
            assert(s.skip(1).skip(0) =~= s.skip(1));
        }
    } else {
        assert(s[0] >= 128);
        assert(s.skip(1).skip(n - 1) =~= s.skip(n));
        assert forall|k: int| 0 <= k < n - 1 implies s.skip(1)[k] >= 128 by {
            assert(s.skip(1)[k] == s[k + 1]);
        }
        lemma_varint_len(s.skip(1), n - 1);
    }
}

proof fn lemma_groups_bound(s: Seq<u8>)
    ensures
        0 <= groups_value(s) < pow2((7 * s.len()) as nat),
    decreases s.len(),
{
    lemma2_to64();
    if s.len() > 0 {
        lemma_groups_bound(s.drop_last());
        let w = (7 * (s.len() - 1)) as nat;
        lemma_pow2_adds(w, 7);
        lemma_pow2_pos(w);
        let p = pow2(w);
        let d = (s.last() % 128) as int;
        assert(0 <= d * p <= 127 * p) by (nonlinear_arith)
            requires
                0 <= d <= 127,
                0 < p,
        ;
        assert(pow2(7) == 128);
        assert(p * 128 == 127 * p + p) by (nonlinear_arith);
        assert((w + 7) as nat == (7 * s.len()) as nat);
    }
}

/// One more group of seven bits.
proof fn lemma_group_step(sofar: u64, byte: u8, shift: u64, value: int)
    requires
        shift <= 56 || shift == 63,
        sofar == value,
        0 <= value < pow2(shift as nat),
    ensures
        (sofar | (((byte & 0x7f) as u64) << shift)) == (value + (byte % 128) * pow2(shift as nat))
            % 0x1_0000_0000_0000_0000,
        (byte & 0x80 == 0) <==> byte < 128,
{
    let low: u8 = byte & 0x7f;
    assert(low == byte % 128 && low < 128) by (bit_vector)
        requires
            low == byte & 0x7f,
    ;
    assert((byte & 0x80 == 0) <==> byte < 128) by (bit_vector);
    let x: u64 = low as u64;
    let p = pow2(shift as nat) as int;
    lemma2_to64();
    lemma2_to64_rest();
    lemma_u64_pow2_no_overflow(shift as nat);
    lemma_u64_shl_is_mul(1, shift);
    let one: u64 = 1u64 << shift;
    assert(one == p);
    let y: u64 = x << shift;
    assert((sofar | y) == sofar + y) by (bit_vector)
        requires
            shift <= 63,
            one == 1u64 << shift,
            sofar < one,
            y == x << shift,
            x < 128,
    ;
    if shift <= 56 {
        lemma_pow2_adds(shift as nat, 7);
        lemma_pow2_strictly_increases((shift + 7) as nat, 64);
        assert(0 <= x * p <= 127 * p) by (nonlinear_arith)
            requires
                0 <= x < 128,
                p > 0,
        ;
        assert(p * 128 == 127 * p + p) by (nonlinear_arith);
        assert(pow2((shift + 7) as nat) == p * 128);
        lemma_u64_shl_is_mul(x, shift);
        assert(y == x * p);
    } else {
        assert(y == (x % 2) * 0x8000_0000_0000_0000) by (bit_vector)
            requires
                y == x << 63,
                x < 128,
        ;
        assert(x == 2 * (x / 2) + x % 2);
        assert(p == 0x8000_0000_0000_0000);
    }
}

/// Reads a varint: its value, and the bytes that it takes.
pub fn read_varint(buf: &[u8]) -> (r: Option<(u64, usize)>)
    ensures
        match varint(buf@) {
            Some((v, n)) => r matches Some((w, m)) && w == v && m == n && 1 <= m <= buf@.len(),
            None => r is None,
        },
{
    let mut result: u64 = 0;
    let mut i: usize = 0;
    proof {
        assert(buf@.take(0) =~= seq![]);
        lemma2_to64();
        lemma_varint_len(buf@, 0);
    }
    while i < buf.len()
        invariant
            i <= buf@.len(),
            i <= 10,
            forall|k: int| 0 <= k < i ==> buf@[k] >= 128,
            i <= 9 ==> result == groups_value(buf@.take(i as int)),
        decreases buf@.len() - i,
    {
        proof {
            lemma_varint_len(buf@, i as int);
        }
        if i >= 10 {
            return None;
        }
        let byte = buf[i];
        let shift: u64 = 7 * (i as u64);
        proof {
            lemma_groups_bound(buf@.take(i as int));
            lemma_group_step(result, byte, shift, groups_value(buf@.take(i as int)));
            assert(buf@.take(i + 1).drop_last() =~= buf@.take(i as int));
            assert(buf@.take(i + 1).last() == byte);
            lemma_groups_bound(buf@.take(i + 1));
            assert(buf@.skip(i as int)[0] == byte);
            lemma2_to64();
            lemma2_to64_rest();
            if i < 9 {
                lemma_pow2_strictly_increases((7 * (i + 1)) as nat, 64);
            }
        }
        result = result | (((byte & 0x7f) as u64) << shift);
        i = i + 1;
        if byte & 0x80 == 0 {
            return Some((result, i));
        }
    }
    proof {
        lemma_varint_len(buf@, i as int);
        assert(buf@.skip(i as int) =~= seq![]);
    }
    None
}

/// The first length-delimited field of a number from byte `i` on.
pub open spec fn field_from(blob: Seq<u8>, i: int, target: u64) -> Option<Seq<u8>>
    decreases
            (if i < blob.len() {
                blob.len() - i
            } else {
                0
            }),
{
    if i < 0 || i >= blob.len() {
        None
    } else {
        match varint(blob.skip(i)) {
            None => None,
            Some((tag, c)) => if c <= 0 || c > blob.len() - i {
                None
            } else {
                let j = i + c;
                let wire = tag % 8;
                if wire == 0 {
                    match varint(blob.skip(j)) {
                        None => None,
                        Some((_, d)) => if d <= 0 {
                            None
                        } else {
                            field_from(blob, j + d, target)
                        },
                    }
                } else if wire == 2 {
                    match varint(blob.skip(j)) {
                        None => None,
                        Some((len, d)) => if d <= 0 || j + d + len > blob.len() {
                            None
                        } else if tag / 8 == target {
                            Some(blob.subrange(j + d, j + d + len))
                        } else {
                            field_from(blob, j + d + len, target)
                        },
                    }
                } else if wire == 5 {
                    field_from(blob, j + 4, target)
                } else if wire == 1 {
                    field_from(blob, j + 8, target)
                } else {
                    None
                }
            },
        }
    }
}

/// The first length-delimited field of a number. Nothing is found past a field
/// that is malformed or reaches beyond the end.
pub open spec fn proto_field(blob: Seq<u8>, target: u64) -> Option<Seq<u8>> {
    field_from(blob, 0, target)
}

fn read_varint_at(blob: &[u8], i: usize) -> (r: Option<(u64, usize)>)
    requires
        i <= blob@.len(),
    ensures
        match varint(blob@.skip(i as int)) {
            Some((v, n)) => r matches Some((w, m)) && w == v && m == n && 1 <= m <= blob@.len()
                - i,
            None => r is None,
        },
{
    let rest = vstd::slice::slice_subrange(blob, i, blob.len());
    assert(rest@ =~= blob@.skip(i as int));
    read_varint(rest)
}

fn copy_range(blob: &[u8], from: usize, to: usize) -> (r: Vec<u8>)
    requires
        from <= to <= blob@.len(),
    ensures
        r@ == blob@.subrange(from as int, to as int),
{
    let mut out: Vec<u8> = Vec::new();
    let mut i: usize = from;
    while i < to
        invariant
            from <= i <= to <= blob@.len(),
            out@ =~= blob@.subrange(from as int, i as int),
        decreases to - i,
    {
        out.push(blob[i]);
        i += 1;
    }
    out
}

/// The first length-delimited field of a number.
pub fn get_proto_field(blob: &[u8], target: u64) -> (r: Option<Vec<u8>>)
    ensures
        match proto_field(blob@, target) {
            Some(f) => r matches Some(v) && v@ == f,
            None => r is None,
        },
{
    let mut i: usize = 0;
    while i < blob.len()
        invariant
            proto_field(blob@, target) == field_from(blob@, i as int, target),
        decreases blob@.len() - i,
    {
        let (tag, c): (u64, usize) = match read_varint_at(blob, i) {
            Some(t) => t,
            None => {
                return None;
            },
        };
        let j: usize = i + c;
        let number: u64 = tag >> 3;
        let wire: u64 = tag & 0x7;
        assert(number == tag / 8 && wire == tag % 8) by (bit_vector)
            requires
                number == tag >> 3,
                wire == tag & 0x7,
        ;
        if wire == 0 {
            match read_varint_at(blob, j) {
                Some((_, d)) => {
                    i = j + d;
                },
                None => {
                    return None;
                },
            }
        } else if wire == 2 {
            let (len, d): (u64, usize) = match read_varint_at(blob, j) {
                Some(t) => t,
                None => {
                    return None;
                },
            };
            let k: usize = j + d;
            if len > (blob.len() - k) as u64 {
                return None;
            }
            let end: usize = k + len as usize;
            if number == target {
                return Some(copy_range(blob, k, end));
            }
            i = end;
        } else if wire == 5 {
            if blob.len() - j <= 4 {
                assert(field_from(blob@, j + 4, target) is None);
                return None;
            }
            i = j + 4;
        } else if wire == 1 {
            if blob.len() - j <= 8 {
                assert(field_from(blob@, j + 8, target) is None);
                return None;
            }
            i = j + 8;
        } else {
            return None;
        }
    }
    None
}

/// Bytes that are UTF-8, as text, by `String::from_utf8`. Claims what its
/// documentation says: it fails exactly on bytes that are not UTF-8, and the
/// text is what the bytes encode.
#[verifier::external_body]
fn text_of_bytes(bytes: Vec<u8>) -> (r: Option<String>)
    ensures
        match r {
            Some(t) => valid_utf8(bytes@) && t@ == decode_utf8(bytes@),
            None => !valid_utf8(bytes@),
        },
{
    String::from_utf8(bytes).ok()
}

/// Bytes as text, if they are text.
pub open spec fn text_in_bytes(bytes: Seq<u8>) -> Option<Seq<char>> {
    if valid_utf8(bytes) {
        Some(decode_utf8(bytes))
    } else {
        None
    }
}

/// The text of a field.
pub open spec fn proto_text(blob: Seq<u8>, target: u64) -> Option<Seq<char>> {
    match proto_field(blob, target) {
        Some(f) => text_in_bytes(f),
        None => None,
    }
}

/// The text of a field.
pub fn get_proto_text(blob: &[u8], target: u64) -> (r: Option<String>)
    ensures
        r.deep_view() == proto_text(blob@, target),
{
    match get_proto_field(blob, target) {
        Some(f) => text_of_bytes(f),
        None => None,
    }
}

/// The text of a step: field 1 of field 20, where that is text.
pub open spec fn step_text(blob: Seq<u8>) -> Option<Seq<char>> {
    match proto_field(blob, 20) {
        None => None,
        Some(outer) => proto_text(outer, 1),
    }
}

/// The text of a step.
pub fn extract_text_from_step_payload(blob: &[u8]) -> (r: Option<String>)
    ensures
        r.deep_view() == step_text(blob@),
{
    match get_proto_field(blob, 20) {
        None => None,
        Some(outer) => get_proto_text(outer.as_slice(), 1),
    }
}

/// Whether a step of this type is a tool call.
pub open spec fn is_tool_step(step_type: i64) -> bool {
    step_type == 5 || step_type == 7 || step_type == 8 || step_type == 9 || step_type == 17
        || step_type == 21 || step_type == 33 || step_type == 101 || step_type == 138
}

/// Whether a step of this type is a tool call.
pub fn is_tool_step_type(step_type: i64) -> (r: bool)
    ensures
        r == is_tool_step(step_type),
{
    step_type == 5 || step_type == 7 || step_type == 8 || step_type == 9 || step_type == 17
        || step_type == 21 || step_type == 33 || step_type == 101 || step_type == 138
}

/// What a tool step says: the tool's name, and its input where that is JSON.
pub open spec fn tool_step(blob: Seq<u8>) -> Option<(Seq<char>, Option<JsonView>)> {
    match proto_field(blob, 5) {
        None => None,
        Some(tool) => match proto_field(tool, 4) {
            None => None,
            Some(call) => {
                let name = match proto_text(call, 2) {
                    Some(n) => Some(n),
                    None => proto_text(call, 9),
                };
                match name {
                    Some(n) => if n.len() > 0 {
                        Some(
                            (
                                n,
                                match proto_text(call, 3) {
                                    Some(written) => parsed_json(written),
                                    None => None,
                                },
                            ),
                        )
                    } else {
                        None
                    },
                    None => None,
                }
            },
        },
    }
}

/// What a tool step says: the tool's name, and its input where that is JSON.
pub fn extract_tool_from_step_payload(blob: &[u8]) -> (r: Option<(String, Option<Json>)>)
    ensures
        match tool_step(blob@) {
            Some((name, input)) => r matches Some((n, i)) && n@ == name && maybe_json(i) == input,
            None => r is None,
        },
{
    let tool = match get_proto_field(blob, 5) {
        Some(t) => t,
        None => {
            return None;
        },
    };
    let call = match get_proto_field(tool.as_slice(), 4) {
        Some(c) => c,
        None => {
            return None;
        },
    };
    let name = match get_proto_text(call.as_slice(), 2) {
        Some(n) => n,
        None => match get_proto_text(call.as_slice(), 9) {
            Some(n) => n,
            None => {
                return None;
            },
        },
    };
    if name.as_str().is_empty() {
        return None;
    }
    let input = match get_proto_text(call.as_slice(), 3) {
        Some(written) => parse_json(written.as_str()),
        None => None,
    };
    Some((name, input))
}

/// One more byte in front counts for itself, and makes what follows count for
/// 128 times as much.
pub proof fn law_first_byte_counts_least(b: u8, rest: Seq<u8>)
    ensures
        groups_value(seq![b] + rest) == (b % 128) + 128 * groups_value(rest),
    decreases rest.len(),
{
    let all = seq![b] + rest;
    lemma2_to64();
    if rest.len() == 0 {
        assert(all =~= seq![b]);
        assert(all.drop_last() =~= Seq::<u8>::empty());
        assert(groups_value(all.drop_last()) == 0);
        assert(pow2(0) == 1);
        assert((b % 128) * 1 == b % 128);
    } else {
        let front = rest.drop_last();
        law_first_byte_counts_least(b, front);
        assert(all.drop_last() =~= seq![b] + front);
        assert(all.last() == rest.last());
        let w = (7 * (rest.len() - 1)) as nat;
        lemma_pow2_adds(w, 7);
        assert((7 * (all.len() - 1)) as nat == w + 7);
        let d = (rest.last() % 128) as int;
        let p = pow2(w) as int;
        assert(d * (p * 128) == 128 * (d * p)) by (nonlinear_arith);
        let g = groups_value(front);
        assert(128 * (g + d * p) == 128 * g + 128 * (d * p)) by (nonlinear_arith);
    }
}

/// A number in groups of seven bits, the lowest first.
pub open spec fn varint_bytes(n: nat) -> Seq<u8>
    decreases n,
{
    if n < 128 {
        seq![n as u8]
    } else {
        seq![(128 + n % 128) as u8] + varint_bytes(n / 128)
    }
}

proof fn lemma_varint_bytes(n: nat, rest: Seq<u8>, k: nat)
    requires
        n < pow2(7 * k),
        k >= 1,
    ensures
        1 <= varint_bytes(n).len() <= k,
        groups_value(varint_bytes(n)) == n,
        varint_len(varint_bytes(n) + rest) == Some(varint_bytes(n).len() as int),
    decreases n,
{
    let all = varint_bytes(n) + rest;
    lemma2_to64();
    if n < 128 {
        let b = n as u8;
        law_first_byte_counts_least(b, seq![]);
        assert(seq![b] + Seq::<u8>::empty() =~= seq![b]);
        assert(all[0] == b);
    } else {
        let b = (128 + n % 128) as u8;
        let m = n / 128;
        assert(k >= 2) by {
            if k == 1 {
                assert(pow2(7) == 128);
            }
        }
        lemma_pow2_adds((7 * (k - 1)) as nat, 7);
        assert(m < pow2((7 * (k - 1)) as nat)) by {
            let p = pow2((7 * (k - 1)) as nat) as int;
            assert(p * 128 > n);
            assert(m * 128 <= n);
            assert(m < p) by (nonlinear_arith)
                requires
                    m * 128 <= n,
                    p * 128 > n,
            ;
        }
        lemma_varint_bytes(m, rest, (k - 1) as nat);
        law_first_byte_counts_least(b, varint_bytes(m));
        assert(b % 128 == n % 128);
        assert(all[0] == b);
        assert(all.skip(1) =~= varint_bytes(m) + rest);
    }
}

/// A number that is written in groups of seven bits reads as that number, and
/// takes the bytes that were written, whatever follows.
pub proof fn law_varint_reads_back(n: u64, rest: Seq<u8>)
    ensures
        varint(varint_bytes(n as nat) + rest) == Some((n, varint_bytes(n as nat).len() as int)),
        1 <= varint_bytes(n as nat).len() <= 10,
{
    lemma2_to64();
    lemma2_to64_rest();
    lemma_pow2_strictly_increases(64, 70);
    assert(n < pow2(70));
    lemma_varint_bytes(n as nat, rest, 10);
    let all = varint_bytes(n as nat) + rest;
    assert(all.take(varint_bytes(n as nat).len() as int) =~= varint_bytes(n as nat));
}

/// A length-delimited field as it is written: its number and kind, its length,
/// and what it holds.
pub open spec fn field_bytes(number: nat, payload: Seq<u8>) -> Seq<u8> {
    varint_bytes(8 * number + 2) + varint_bytes(payload.len()) + payload
}

proof fn lemma_field_shift(a: Seq<u8>, b: Seq<u8>, i: int, target: u64)
    requires
        0 <= i,
    ensures
        field_from(a + b, a.len() + i, target) == field_from(b, i, target),
    decreases
            (if i < b.len() {
                b.len() - i
            } else {
                0
            }),
{
    let whole = a + b;
    let n = a.len() as int;
    if i < b.len() {
        assert(whole.skip(n + i) =~= b.skip(i));
        match varint(b.skip(i)) {
            None => {},
            Some((tag, c)) => {
                if 0 < c <= b.len() - i {
                    let j = i + c;
                    assert(whole.skip(n + j) =~= b.skip(j));
                    let wire = tag % 8;
                    if wire == 0 || wire == 2 {
                        match varint(b.skip(j)) {
                            None => {},
                            Some((len, d)) => {
                                if d > 0 {
                                    if wire == 0 {
                                        lemma_field_shift(a, b, j + d, target);
                                    } else if j + d + len <= b.len() {
                                        assert(whole.subrange(n + j + d, n + j + d + len)
                                            =~= b.subrange(j + d, j + d + len));
                                        lemma_field_shift(a, b, j + d + len, target);
                                    }
                                }
                            },
                        }
                    } else if wire == 5 {
                        lemma_field_shift(a, b, j + 4, target);
                    } else if wire == 1 {
                        lemma_field_shift(a, b, j + 8, target);
                    }
                }
            },
        }
    }
}

/// A field that is written is found by its number, with what it holds, whatever
/// follows it; and a field of another number is passed over, so what follows it
/// is found as if it stood alone.
#[verifier::spinoff_prover]
#[verifier::rlimit(40)]
pub proof fn law_fields_are_found_by_number(
    number: u64,
    payload: Seq<u8>,
    rest: Seq<u8>,
    target: u64,
)
    requires
        number < 0x1000_0000_0000_0000,
        payload.len() <= u64::MAX,
    ensures
        target == number ==> proto_field(field_bytes(number as nat, payload) + rest, target) == Some(
            payload,
        ),
        target != number ==> proto_field(field_bytes(number as nat, payload) + rest, target)
            == proto_field(rest, target),
{
    let tag = (8 * number + 2) as u64;
    let (t, l) = (varint_bytes(tag as nat), varint_bytes(payload.len()));
    let field = t + l + payload;
    let blob = field + rest;
    assert(field_bytes(number as nat, payload) == field);
    law_varint_reads_back(tag, l + payload + rest);
    assert(blob =~= t + (l + payload + rest));
    assert(blob.skip(0) =~= blob);
    law_varint_reads_back(payload.len() as u64, payload + rest);
    let c = t.len() as int;
    assert(blob.skip(c) =~= l + (payload + rest));
    assert(tag % 8 == 2);
    assert(tag / 8 == number);
    let d = l.len() as int;
    let end = c + d + payload.len();
    assert(end == field.len());
    assert(blob.subrange(c + d, end) =~= payload);
    lemma_field_shift(field, rest, 0, target);
}

/// The text of a step reads as it was written, in whatever company its field
/// stands.
pub proof fn law_step_text_reads_back(text: Seq<char>, after: Seq<u8>, rest: Seq<u8>)
    requires
        encode_utf8(text).len() <= u64::MAX,
        (field_bytes(1, encode_utf8(text)) + after).len() <= u64::MAX,
    ensures
        step_text(field_bytes(20, field_bytes(1, encode_utf8(text)) + after) + rest) == Some(text),
{
    let inner = field_bytes(1, encode_utf8(text)) + after;
    law_fields_are_found_by_number(20, inner, rest, 20);
    law_fields_are_found_by_number(1, encode_utf8(text), after, 1);
    encode_utf8_decode_utf8(text);
    encode_utf8_valid_utf8(text);
}

/// A tool step reads as it was written: the tool's name, and its input where
/// that is JSON.
pub proof fn law_tool_step_reads_back(name: Seq<char>, input: Seq<char>)
    requires
        name.len() > 0,
        encode_utf8(name).len() <= u64::MAX,
        encode_utf8(input).len() <= u64::MAX,
        (field_bytes(2, encode_utf8(name)) + field_bytes(3, encode_utf8(input))).len() <= u64::MAX,
        field_bytes(
            4,
            field_bytes(2, encode_utf8(name)) + field_bytes(3, encode_utf8(input)),
        ).len() <= u64::MAX,
    ensures
        ({
            let call = field_bytes(2, encode_utf8(name)) + field_bytes(3, encode_utf8(input));
            tool_step(field_bytes(5, field_bytes(4, call))) == Some((name, parsed_json(input)))
        }),
{
    let (a, b) = (field_bytes(2, encode_utf8(name)), field_bytes(3, encode_utf8(input)));
    let call = a + b;
    let tool = field_bytes(4, call);
    let none = Seq::<u8>::empty();
    law_fields_are_found_by_number(5, tool, none, 5);
    assert(field_bytes(5, tool) + none =~= field_bytes(5, tool));
    law_fields_are_found_by_number(4, call, none, 4);
    assert(tool + none =~= tool);
    law_fields_are_found_by_number(2, encode_utf8(name), b, 2);
    law_fields_are_found_by_number(2, encode_utf8(name), b, 3);
    law_fields_are_found_by_number(3, encode_utf8(input), none, 3);
    assert(b + none =~= b);
    encode_utf8_decode_utf8(name);
    encode_utf8_valid_utf8(name);
    encode_utf8_decode_utf8(input);
    encode_utf8_valid_utf8(input);
}

/// A step of text is no tool call.
pub proof fn law_text_is_no_tool_call(step_type: i64)
    requires
        is_tool_step(step_type),
    ensures
        step_type != 15,
        step_type > 0,
{
}

} // verus!
