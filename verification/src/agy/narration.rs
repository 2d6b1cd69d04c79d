//! Tells what an agent announces from what it answers, and reads responses
//! back.

use crate::agy::protobuf::extract_text_from_step_payload;
use crate::agy::protobuf::step_text;
use crate::text::ascii_lowered;
use crate::text::holds;
use crate::text::join;
use crate::text::joined;
use crate::text::law_first_line_comes_first;
use crate::text::law_joined_text_holds_its_parts;
use crate::text::lines;
use crate::text::lowercase_of;
use crate::text::same;
use crate::text::same_ignoring_ascii_case;
use crate::text::split_lines;
use crate::text::starts_with;
use crate::text::to_lowercase;
use crate::text::trim;
use crate::text::trim_front;
use crate::text::trim_start;
use crate::text::trimmed;
use crate::text::without_carriage_return;
use crate::value::str_view;
use vstd::prelude::*;
use vstd::string::*;

verus! {

/// Whether announcements are shown, by the switch of their own or else by the
/// shared one.
pub open spec fn narration_shown(show: Option<Seq<char>>, display: Option<Seq<char>>) -> bool {
    match show {
        Some(v) => v == "1"@ || lowercase_of(v) == "true"@,
        None => match display {
            Some(v) => lowercase_of(v) == "full"@,
            None => false,
        },
    }
}

/// Whether a switch is on, given its value and the value in lower case.
pub fn switched_on(value: &str, lowered: &str) -> (r: bool)
    ensures
        r == (value@ == "1"@ || lowered@ == "true"@),
{
    same(value, "1") || same(lowered, "true")
}

/// Whether announcements are shown, given what `OPENAB_SHOW_NARRATION` and
/// `OPENAB_TOOL_DISPLAY` hold.
pub fn show_narration(show: Option<&str>, display: Option<&str>) -> (r: bool)
    ensures
        r == narration_shown(str_view(show), str_view(display)),
{
    match show {
        Some(v) => {
            let lowered = to_lowercase(v);
            switched_on(v, lowered.as_str())
        },
        None => match display {
            Some(v) => {
                let lowered = to_lowercase(v);
                same(lowered.as_str(), "full")
            },
            None => false,
        },
    }
}

/// Whether the output of tools is shown, by the switch of its own or else by
/// the shared one.
pub open spec fn tool_output_shown(show: Option<Seq<char>>, display: Option<Seq<char>>) -> bool {
    match show {
        Some(v) => v == "1"@ || ascii_lowered(v) == ascii_lowered("true"@),
        None => match display {
            Some(v) => ascii_lowered(v) == ascii_lowered("full"@),
            None => false,
        },
    }
}

/// Whether the output of tools is shown, given what `AGY_SHOW_TOOL_OUTPUT` and
/// `OPENAB_TOOL_DISPLAY` hold.
pub fn show_tool_output(show: Option<&str>, display: Option<&str>) -> (r: bool)
    ensures
        r == tool_output_shown(str_view(show), str_view(display)),
{
    match show {
        Some(v) => same(v, "1") || same_ignoring_ascii_case(v, "true"),
        None => match display {
            Some(v) => same_ignoring_ascii_case(v, "full"),
            None => false,
        },
    }
}

/// Whether a line says something.
pub open spec fn says_something(line: Seq<char>) -> bool {
    trimmed(line).len() > 0
}

/// Whether a line announces what the agent is about to do.
pub open spec fn announces(line: Seq<char>) -> bool {
    "I will"@.is_prefix_of(trim_front(line))
}

/// Whether a text says something, and nothing but announcements.
pub open spec fn narrates(text: Seq<char>) -> bool {
    let ls = lines(text);
    &&& exists|i: int| 0 <= i < ls.len() && says_something(#[trigger] ls[i])
    &&& forall|i: int| 0 <= i < ls.len() && says_something(#[trigger] ls[i]) ==> announces(ls[i])
}

/// Whether a text says something, and nothing but announcements.
pub fn is_narration(text: &str) -> (r: bool)
    ensures
        r == narrates(text@),
{
    let ls = split_lines(text);
    let ghost all = lines(text@);
    let mut found = false;
    let mut i: usize = 0;
    while i < ls.len()
        invariant
            i <= ls@.len(),
            all == ls.deep_view(),
            all == lines(text@),
            found <==> exists|k: int| 0 <= k < i && says_something(#[trigger] all[k]),
            forall|k: int| 0 <= k < i && says_something(#[trigger] all[k]) ==> announces(all[k]),
        decreases ls@.len() - i,
    {
        let line = ls[i].as_str();
        assert(line@ == all[i as int]);
        if !trim(line).is_empty() {
            assert(says_something(all[i as int]));
            if !starts_with(trim_start(line), "I will") {
                return false;
            }
            found = true;
        }
        i += 1;
    }
    found
}

/// Where the first part stands that is no announcement; the last part, where
/// all are.
pub open spec fn first_content(parts: Seq<Seq<char>>) -> int
    decreases parts.len(),
{
    if parts.len() <= 1 || !narrates(parts[0]) {
        0
    } else {
        first_content(parts.skip(1)) + 1
    }
}

/// A response without the announcements that it starts with.
pub open spec fn response_text(parts: Seq<Seq<char>>, show: bool) -> Seq<char> {
    if show {
        joined(parts, "\n"@)
    } else {
        joined(parts.skip(first_content(parts)), "\n"@)
    }
}

/// A response without the announcements that it starts with.
pub fn filter_narration(parts: &Vec<String>, show: bool) -> (r: String)
    ensures
        r@ == response_text(parts.deep_view(), show),
{
    let ghost all = parts.deep_view();
    assert(all.skip(0) =~= all);
    if show || parts.len() <= 1 {
        return join(parts, 0, "\n");
    }
    let mut i: usize = 0;
    while i < parts.len() - 1 && is_narration(parts[i].as_str())
        invariant
            i < parts@.len(),
            all == parts.deep_view(),
            first_content(all) == first_content(all.skip(i as int)) + i,
        decreases parts@.len() - i,
    {
        assert(all.skip(i as int)[0] == parts@[i as int]@);
        assert(all.skip(i as int).skip(1) =~= all.skip(i + 1));
        i += 1;
    }
    assert(all.skip(i as int)[0] == parts@[i as int]@);
    join(parts, i, "\n")
}

/// What is left of a response is never only announcements, unless all of it
/// was: then the last of them is left.
pub proof fn law_content_survives(parts: Seq<Seq<char>>)
    requires
        parts.len() > 0,
    ensures
        0 <= first_content(parts) < parts.len(),
        !narrates(parts[first_content(parts)]) || first_content(parts) == parts.len() - 1,
        forall|i: int| 0 <= i < first_content(parts) ==> narrates(#[trigger] parts[i]),
    decreases parts.len(),
{
    if parts.len() > 1 && narrates(parts[0]) {
        law_content_survives(parts.skip(1));
        let n = first_content(parts.skip(1));
        assert(parts[n + 1] == parts.skip(1)[n]);
        assert forall|i: int| 0 <= i < n + 1 implies narrates(#[trigger] parts[i]) by {
            if i > 0 {
                assert(parts[i] == parts.skip(1)[i - 1]);
            }
        }
    }
}

/// One step of a response, as the database holds it.
#[derive(Debug, PartialEq, Eq)]
pub struct ResponseRow {
    pub idx: i64,
    pub payload: Vec<u8>,
}

/// The texts of the steps that have one.
pub open spec fn response_parts(rows: Seq<ResponseRow>) -> Seq<Seq<char>>
    decreases rows.len(),
{
    if rows.len() == 0 {
        seq![]
    } else {
        let rest = response_parts(rows.drop_last());
        match step_text(rows.last().payload@) {
            Some(t) => if t.len() > 0 {
                rest.push(t)
            } else {
                rest
            },
            None => rest,
        }
    }
}

/// The highest step, or where the reading began.
pub open spec fn highest_step(rows: Seq<ResponseRow>, after: i64) -> i64
    decreases rows.len(),
{
    if rows.len() == 0 {
        after
    } else {
        let h = highest_step(rows.drop_last(), after);
        if rows.last().idx > h {
            rows.last().idx
        } else {
            h
        }
    }
}

/// The response that the new steps hold, and the highest step; nothing when no
/// step has a text.
pub fn read_response_from_db(rows: &Vec<ResponseRow>, after_step_idx: i64, show: bool) -> (r:
    Option<(String, i64)>)
    ensures
        ({
            let parts = response_parts(rows@);
            if parts.len() == 0 {
                r is None
            } else {
                r matches Some((t, h)) && t@ == response_text(parts, show) && h == highest_step(
                    rows@,
                    after_step_idx,
                )
            }
        }),
{
    let mut parts: Vec<String> = Vec::new();
    let mut max_idx: i64 = after_step_idx;
    let mut i: usize = 0;
    assert(rows@.take(0) =~= seq![]);
    assert(parts.deep_view() =~= seq![]);
    while i < rows.len()
        invariant
            i <= rows@.len(),
            parts.deep_view() == response_parts(rows@.take(i as int)),
            max_idx == highest_step(rows@.take(i as int), after_step_idx),
        decreases rows@.len() - i,
    {
        let ghost sofar = parts.deep_view();
        proof {
            assert(rows@.take(i + 1).drop_last() =~= rows@.take(i as int));
            assert(rows@.take(i + 1).last() == rows@[i as int]);
        }
        if rows[i].idx > max_idx {
            max_idx = rows[i].idx;
        }
        match extract_text_from_step_payload(rows[i].payload.as_slice()) {
            Some(t) => {
                if !t.as_str().is_empty() {
                    let ghost added = t@;
                    parts.push(t);
                    assert(parts.deep_view() =~= sofar.push(added));
                }
            },
            None => {},
        }
        i += 1;
    }
    assert(rows@.take(i as int) =~= rows@);
    assert(parts.deep_view().len() == parts@.len());
    if parts.len() == 0 {
        return None;
    }
    Some((filter_narration(&parts, show), max_idx))
}

/// The switch of its own counts first, and the shared one where that is not
/// set; where neither is, nothing is shown.
pub proof fn law_own_switch_counts_first(v: Seq<char>, display: Option<Seq<char>>)
    ensures
        narration_shown(Some("1"@), display),
        lowercase_of(v) == "true"@ ==> narration_shown(Some(v), display),
        v != "1"@ && lowercase_of(v) != "true"@ ==> !narration_shown(Some(v), display),
        narration_shown(None, Some(v)) <==> lowercase_of(v) == "full"@,
        !narration_shown(None, None),
        tool_output_shown(Some("1"@), display),
        ascii_lowered(v) == "true"@ ==> tool_output_shown(Some(v), display),
        v != "1"@ && ascii_lowered(v) != "true"@ ==> !tool_output_shown(Some(v), display),
        tool_output_shown(None, Some(v)) <==> ascii_lowered(v) == "full"@,
        !tool_output_shown(None, None),
{
    reveal_strlit("true");
    reveal_strlit("full");
    assert(ascii_lowered("true"@) =~= "true"@);
    assert(ascii_lowered("full"@) =~= "full"@);
}

/// A text narrates by all of its lines: a line that says something else spoils
/// it, one that announces something does not, and a blank one changes nothing.
pub proof fn law_narration_is_made_of_announcements(line: Seq<char>, rest: Seq<char>)
    requires
        !line.contains('\n'),
    ensures
        ({
            let said = without_carriage_return(line);
            let whole = line + seq!['\n'] + rest;
            &&& says_something(said) && !announces(said) ==> !narrates(whole)
            &&& says_something(said) && announces(said) ==> (narrates(whole) <==> narrates(rest)
                || all_blank(rest))
            &&& !says_something(said) ==> narrates(whole) == narrates(rest)
        }),
{
    let said = without_carriage_return(line);
    let whole = line + seq!['\n'] + rest;
    law_first_line_comes_first(line, rest);
    let (ls, ms) = (lines(whole), lines(rest));
    assert(ls == seq![said] + ms);
    assert(ls[0] == said);
    assert forall|i: int| 0 <= i < ms.len() implies #[trigger] ms[i] == ls[i + 1] by {}
    if narrates(whole) {
        assert forall|i: int| 0 <= i < ms.len() && says_something(#[trigger] ms[i]) implies announces(
            ms[i],
        ) by {
            assert(ls[i + 1] == ms[i]);
        }
        if !says_something(said) {
            let i = choose|i: int| 0 <= i < ls.len() && says_something(#[trigger] ls[i]);
            assert(i > 0);
            assert(ms[i - 1] == ls[i]);
        }
    }
    if says_something(said) ==> announces(said) {
        if narrates(rest) || (says_something(said) && all_blank(rest)) {
            assert forall|i: int| 0 <= i < ls.len() && says_something(
                #[trigger] ls[i],
            ) implies announces(ls[i]) by {
                if i > 0 {
                    assert(ls[i] == ms[i - 1]);
                }
            }
            if narrates(rest) {
                let i = choose|i: int| 0 <= i < ms.len() && says_something(#[trigger] ms[i]);
                assert(ls[i + 1] == ms[i]);
                assert(says_something(ls[i + 1]));
            } else {
                assert(says_something(ls[0]));
            }
            assert(narrates(whole));
        }
    }
}

/// Whether no line of a text says anything.
pub open spec fn all_blank(text: Seq<char>) -> bool {
    forall|i: int| 0 <= i < lines(text).len() ==> !says_something(#[trigger] lines(text)[i])
}

/// A text without lines does not narrate.
pub proof fn law_nothing_does_not_narrate()
    ensures
        !narrates(Seq::<char>::empty()),
        all_blank(Seq::<char>::empty()),
{
    assert(lines(Seq::<char>::empty()).len() == 0);
}

/// The parts of a response follow the steps: those of the first steps, and
/// behind them those of the rest; a step with a text is a part, and any other is
/// none.
pub proof fn law_parts_follow_the_steps(
    a: Seq<ResponseRow>,
    b: Seq<ResponseRow>,
    row: ResponseRow,
)
    ensures
        response_parts(a + b) == response_parts(a) + response_parts(b),
        response_parts(seq![row]) == (match step_text(row.payload@) {
            Some(t) => if t.len() > 0 {
                seq![t]
            } else {
                seq![]
            },
            None => seq![],
        }),
    decreases b.len(),
{
    if b.len() == 0 {
        assert(a + b =~= a);
        assert(response_parts(a) + Seq::<Seq<char>>::empty() =~= response_parts(a));
    } else {
        law_parts_follow_the_steps(a, b.drop_last(), row);
        assert((a + b).drop_last() =~= a + b.drop_last());
        assert((a + b).last() == b.last());
        assert(response_parts(a + b) =~= response_parts(a) + response_parts(b));
    }
    let none = Seq::<Seq<char>>::empty();
    assert(seq![row].drop_last() =~= Seq::<ResponseRow>::empty());
    assert(seq![row].last() == row);
    assert(response_parts(Seq::<ResponseRow>::empty()) =~= none);
    match step_text(row.payload@) {
        Some(t) => {
            assert(none.push(t) =~= seq![t]);
        },
        None => {},
    }
}

/// The highest step is at least as high as every step and as where the reading
/// began, and it is one of them.
pub proof fn law_highest_step_is_the_highest(rows: Seq<ResponseRow>, after: i64)
    ensures
        highest_step(rows, after) >= after,
        forall|i: int| 0 <= i < rows.len() ==> highest_step(rows, after) >= (#[trigger] rows[i]).idx,
        highest_step(rows, after) == after || exists|i: int|
            0 <= i < rows.len() && highest_step(rows, after) == (#[trigger] rows[i]).idx,
    decreases rows.len(),
{
    if rows.len() > 0 {
        let front = rows.drop_last();
        law_highest_step_is_the_highest(front, after);
        let (h, all) = (highest_step(front, after), highest_step(rows, after));
        assert forall|i: int| 0 <= i < rows.len() implies all >= (#[trigger] rows[i]).idx by {
            if i < front.len() {
                assert(front[i] == rows[i]);
            }
        }
        if all != after {
            if all == h {
                let i = choose|i: int| 0 <= i < front.len() && h == (#[trigger] front[i]).idx;
                assert(rows[i].idx == all);
            } else {
                assert(rows[rows.len() - 1].idx == all);
            }
        }
    }
}

/// A response holds its last part, and every part that is no announcement;
/// where announcements are shown it holds every part.
pub proof fn law_response_holds_its_content(parts: Seq<Seq<char>>, show: bool, i: int)
    requires
        0 <= i < parts.len(),
        show || !narrates(parts[i]) || i == parts.len() - 1,
    ensures
        holds(response_text(parts, show), parts[i]),
{
    if show {
        law_joined_text_holds_its_parts(parts, "\n"@, i);
    } else {
        law_content_survives(parts);
        let n = first_content(parts);
        assert(n <= i) by {
            if i < n {
                assert(narrates(parts[i]));
            }
        }
        let rest = parts.skip(n);
        assert(rest[i - n] == parts[i]);
        law_joined_text_holds_its_parts(rest, "\n"@, i - n);
    }
}

} // verus!
