//! Reads the event stream of a model server.

use crate::json::parse_json;
use crate::json::parsed_json;
use crate::text::all_white;
use crate::text::chars_of;
use crate::text::is_white;
use crate::text::law_trimming_ignores_surroundings;
use crate::text::same;
use crate::text::starts_with;
use crate::text::string_of;
use crate::text::trim;
use crate::text::trimmed;
use crate::value::Json;
use crate::value::JsonView;
use crate::value::get_of;
use crate::value::text_in;
use vstd::prelude::*;
use vstd::string::*;

verus! {

/// A piece of a model's answer.
#[derive(Debug, PartialEq, Eq)]
pub enum StreamChunk {
    Content(String),
    Error(String),
    Done,
}

/// What stands before the first line break, and what after it.
pub open spec fn split_line(s: Seq<char>) -> Option<(Seq<char>, Seq<char>)>
    decreases s.len(),
{
    if s.len() == 0 {
        None
    } else if s[0] == '\n' {
        Some((seq![], s.skip(1)))
    } else {
        match split_line(s.skip(1)) {
            Some((line, rest)) => Some((seq![s[0]] + line, rest)),
            None => None,
        }
    }
}

proof fn lemma_split_line(s: Seq<char>)
    ensures
        split_line(s) matches Some((line, rest)) ==> line.len() + 1 + rest.len() == s.len()
            && line == s.take(line.len() as int) && rest == s.skip(line.len() as int + 1)
            && s[line.len() as int] == '\n' && !line.contains('\n'),
        split_line(s) is None <==> !s.contains('\n'),
    decreases s.len(),
{
    if s.len() > 0 {
        if s[0] == '\n' {
            assert(s.take(0) =~= seq![]);
            assert(s.contains('\n'));
        } else {
            let t = s.skip(1);
            lemma_split_line(t);
            match split_line(t) {
                Some((line, rest)) => {
                    let whole = seq![s[0]] + line;
                    assert(whole =~= s.take(whole.len() as int));
                    assert(rest =~= s.skip(whole.len() as int + 1));
                    assert(s[whole.len() as int] == t[line.len() as int]);
                    assert(s.contains('\n'));
                    assert(!whole.contains('\n')) by {
                        if whole.contains('\n') {
                            let i = whole.index_of('\n');
                            assert(i > 0);
                            assert(line[i - 1] == '\n');
                        }
                    }
                },
                None => {
                    if s.contains('\n') {
                        let i = s.index_of('\n');
                        assert(t[i - 1] == '\n');
                    }
                },
            }
        }
    }
}

proof fn lemma_split_line_is(s: Seq<char>, n: int)
    requires
        0 <= n < s.len(),
        s[n] == '\n',
        forall|i: int| 0 <= i < n ==> s[i] != '\n',
    ensures
        split_line(s) == Some((s.take(n), s.skip(n + 1))),
    decreases n,
{
    if n == 0 {
        assert(s.take(0) =~= seq![]);
    } else {
        let t = s.skip(1);
        assert forall|i: int| 0 <= i < n - 1 implies t[i] != '\n' by {
            assert(t[i] == s[i + 1]);
        }
        lemma_split_line_is(t, n - 1);
        assert(seq![s[0]] + t.take(n - 1) =~= s.take(n));
        assert(t.skip(n) =~= s.skip(n + 1));
    }
}

/// What a stream holds so far: the payloads of its whole lines up to the mark
/// that ends it, the start of a line that is not whole yet, and whether the
/// mark was there.
#[verifier::ext_equal]
pub struct Drained {
    pub payloads: Seq<Seq<char>>,
    pub rest: Seq<char>,
    pub done: bool,
}

/// The payload of a line, where it has one.
pub open spec fn payload(line: Seq<char>) -> Option<Seq<char>> {
    let l = trimmed(line);
    if "data: "@.is_prefix_of(l) {
        Some(l.skip("data: "@.len() as int))
    } else {
        None
    }
}

/// What a buffer holds.
pub open spec fn drained(s: Seq<char>) -> Drained
    decreases s.len(),
{
    match split_line(s) {
        None => Drained { payloads: seq![], rest: s, done: false },
        Some((line, rest)) => if rest.len() >= s.len() {
            Drained { payloads: seq![], rest: s, done: false }
        } else {
            match payload(line) {
                None => drained(rest),
                Some(data) => if data == "[DONE]"@ {
                    Drained { payloads: seq![], rest, done: true }
                } else {
                    let more = drained(rest);
                    Drained { payloads: seq![data] + more.payloads, ..more }
                },
            }
        },
    }
}

/// The texts that payloads add to the answer. One that is no JSON adds none.
pub open spec fn added_texts(payloads: Seq<Seq<char>>) -> Seq<Seq<char>>
    decreases payloads.len(),
{
    if payloads.len() == 0 {
        seq![]
    } else {
        let sofar = added_texts(payloads.drop_last());
        match parsed_json(payloads.last()) {
            Some(v) => match added_text(v) {
                Some(t) => sofar.push(t),
                None => sofar,
            },
            None => sofar,
        }
    }
}

proof fn lemma_added_texts_of_both(a: Seq<Seq<char>>, b: Seq<Seq<char>>)
    ensures
        added_texts(a + b) == added_texts(a) + added_texts(b),
    decreases b.len(),
{
    if b.len() == 0 {
        assert(a + b =~= a);
    } else {
        assert((a + b).drop_last() =~= a + b.drop_last());
        lemma_added_texts_of_both(a, b.drop_last());
        assert(added_texts(a + b) =~= added_texts(a) + added_texts(b));
    }
}

/// Where a stream is cut does not matter: what comes in two pieces is read as
/// if it came in one, and adds the same texts.
pub proof fn law_chunking_is_irrelevant(a: Seq<char>, b: Seq<char>)
    requires
        !drained(a).done,
    ensures
        ({
            let (first, second) = (drained(a), drained(drained(a).rest + b));
            drained(a + b) == (Drained {
                payloads: first.payloads + second.payloads,
                rest: second.rest,
                done: second.done,
            })
        }),
        added_texts(drained(a + b).payloads) == added_texts(drained(a).payloads) + added_texts(
            drained(drained(a).rest + b).payloads,
        ),
    decreases a.len(),
{
    lemma_added_texts_of_both(drained(a).payloads, drained(drained(a).rest + b).payloads);
    lemma_split_line(a);
    match split_line(a) {
        None => {
            assert(drained(a).payloads + drained(a + b).payloads =~= drained(a + b).payloads);
        },
        Some((line, rest)) => {
            let n = line.len() as int;
            let s = a + b;
            assert(s[n] == a[n]);
            assert forall|i: int| 0 <= i < n implies s[i] != '\n' by {
                assert(s[i] == line[i]);
            }
            lemma_split_line_is(s, n);
            assert(s.take(n) =~= line);
            assert(s.skip(n + 1) =~= rest + b);
            match payload(line) {
                None => {
                    law_chunking_is_irrelevant(rest, b);
                },
                Some(data) => {
                    law_chunking_is_irrelevant(rest, b);
                    let (first, second) = (drained(a), drained(drained(a).rest + b));
                    assert(seq![data] + (drained(rest).payloads + second.payloads)
                        =~= first.payloads + second.payloads);
                },
            }
        },
    }
}

/// The part of a stream that is not whole yet.
pub struct EventBuffer {
    buffer: String,
}

impl EventBuffer {
    /// What is not whole yet.
    pub closed spec fn pending(self) -> Seq<char> {
        self.buffer@
    }

    /// Nothing came yet.
    pub fn new() -> (r: Self)
        ensures
            r.pending() == Seq::<char>::empty(),
    {
        EventBuffer { buffer: String::new() }
    }

    /// Takes a piece of the stream: the payloads that it completes, and whether
    /// the stream is over.
    pub fn feed(&mut self, piece: &str) -> (r: (Vec<String>, bool))
        ensures
            ({
                let d = drained(old(self).pending() + piece@);
                &&& r.0.deep_view() == d.payloads
                &&& r.1 == d.done
                &&& final(self).pending() == d.rest
            }),
    {
        self.buffer.append(piece);
        let cs = chars_of(self.buffer.as_str());
        let ghost all = self.buffer@;
        let mut out: Vec<String> = Vec::new();
        let mut start: usize = 0;
        let mut i: usize = 0;
        assert(all.skip(0) =~= all);
        assert(out.deep_view() =~= seq![]);
        assert(seq![] + drained(all).payloads =~= drained(all).payloads);
        while i < cs.len()
            invariant
                cs@ == all,
                all == old(self).pending() + piece@,
                start <= i <= cs@.len(),
                forall|k: int| start <= k < i ==> all[k] != '\n',
                drained(all) == (Drained {
                    payloads: out.deep_view() + drained(all.skip(start as int)).payloads,
                    ..drained(all.skip(start as int))
                }),
            decreases cs@.len() - i,
        {
            if cs[i] == '\n' {
                let ghost tail = all.skip(start as int);
                proof {
                    assert(tail[i - start] == '\n');
                    assert forall|k: int| 0 <= k < i - start implies tail[k] != '\n' by {
                        assert(tail[k] == all[start + k]);
                    }
                    lemma_split_line_is(tail, i - start);
                    assert(tail.take(i - start) =~= all.subrange(start as int, i as int));
                    assert(tail.skip(i - start + 1) =~= all.skip(i + 1));
                }
                let whole = string_of(&cs, start, i);
                let line = trim(whole.as_str());
                start = i + 1;
                if starts_with(line, "data: ") {
                    let ls = chars_of(line);
                    let n: usize = "data: ".unicode_len();
                    let data = string_of(&ls, n, ls.len());
                    assert(data@ =~= line@.skip(n as int));
                    if same(data.as_str(), "[DONE]") {
                        self.buffer = string_of(&cs, start, cs.len());
                        assert(self.buffer@ =~= all.skip(start as int));
                        assert(out.deep_view() + seq![] =~= out.deep_view());
                        return (out, true);
                    }
                    let ghost sofar = out.deep_view();
                    let ghost added = data@;
                    out.push(data);
                    assert(out.deep_view() =~= sofar.push(added));
                    assert(sofar + (seq![added] + drained(all.skip(start as int)).payloads)
                        =~= out.deep_view() + drained(all.skip(start as int)).payloads);
                }
            }
            i += 1;
        }
        proof {
            let tail = all.skip(start as int);
            lemma_split_line(tail);
            assert(!tail.contains('\n'));
            assert(out.deep_view() + seq![] =~= out.deep_view());
        }
        self.buffer = string_of(&cs, start, cs.len());
        assert(self.buffer@ =~= all.skip(start as int));
        (out, false)
    }
}

/// The first element of a list.
pub open spec fn first_of(v: Option<JsonView>) -> Option<JsonView> {
    match v {
        Some(JsonView::Array(items)) => if items.len() > 0 {
            Some(items[0])
        } else {
            None
        },
        _ => None,
    }
}

/// The text that a payload adds to the answer, where it adds any.
pub open spec fn added_text(v: JsonView) -> Option<Seq<char>> {
    match text_in(get_of(first_of(get_of(Some(v), "choices"@)), "delta"@), "content"@) {
        Some(t) => if t.len() > 0 {
            Some(t)
        } else {
            None
        },
        None => None,
    }
}

/// The text that a payload adds to the answer.
pub fn content_of(parsed: &Json) -> (r: Option<String>)
    ensures
        r.deep_view() == added_text(parsed@),
{
    let choices = match parsed.get("choices") {
        Some(c) => match c.as_array() {
            Some(a) => a,
            None => {
                return None;
            },
        },
        None => {
            return None;
        },
    };
    assert(choices.deep_view().len() == choices@.len());
    if choices.len() == 0 {
        return None;
    }
    match choices[0].get("delta") {
        Some(d) => match d.get_str("content") {
            Some(t) => {
                if t.is_empty() {
                    None
                } else {
                    Some(t.to_owned())
                }
            },
            None => None,
        },
        None => None,
    }
}

/// The texts that payloads add to the answer, in order.
pub fn texts_of(payloads: &Vec<String>) -> (r: Vec<String>)
    ensures
        r.deep_view() == added_texts(payloads.deep_view()),
{
    let mut out: Vec<String> = Vec::new();
    let mut i: usize = 0;
    assert(payloads.deep_view().take(0) =~= seq![]);
    assert(out.deep_view() =~= seq![]);
    while i < payloads.len()
        invariant
            i <= payloads@.len(),
            out.deep_view() == added_texts(payloads.deep_view().take(i as int)),
        decreases payloads@.len() - i,
    {
        proof {
            let all = payloads.deep_view();
            assert(all.take(i + 1).drop_last() =~= all.take(i as int));
            assert(all.take(i + 1).last() == payloads@[i as int]@);
        }
        let ghost sofar = out.deep_view();
        match parse_json(payloads[i].as_str()) {
            Some(v) => match content_of(&v) {
                Some(t) => {
                    let ghost added = t@;
                    out.push(t);
                    assert(out.deep_view() =~= sofar.push(added));
                },
                None => {},
            },
            None => {},
        }
        i += 1;
    }
    assert(payloads.deep_view().take(i as int) =~= payloads.deep_view());
    out
}

proof fn lemma_line_is_split(line: Seq<char>, rest: Seq<char>)
    requires
        !line.contains('\n'),
    ensures
        split_line(line + seq!['\n'] + rest) == Some((line, rest)),
{
    let s = line + seq!['\n'] + rest;
    let n = line.len() as int;
    assert(s[n] == '\n');
    assert forall|i: int| 0 <= i < n implies s[i] != '\n' by {
        assert(s[i] == line[i]);
        assert(line.contains(line[i]));
    }
    lemma_split_line_is(s, n);
    assert(s.take(n) =~= line);
    assert(s.skip(n + 1) =~= rest);
}

/// A whole line of data, whatever white space is around it, is read as its
/// payload, before all that follows; the mark ends the stream and leaves what
/// follows unread.
pub proof fn law_data_lines_are_read_in_order(
    before: Seq<char>,
    data: Seq<char>,
    after: Seq<char>,
    rest: Seq<char>,
)
    requires
        all_white(before),
        all_white(after),
        data.len() > 0,
        !is_white(data.last()),
        !(before + ("data: "@ + data) + after).contains('\n'),
    ensures
        ({
            let d = drained(before + ("data: "@ + data) + after + seq!['\n'] + rest);
            if data == "[DONE]"@ {
                d.done && d.payloads.len() == 0 && d.rest == rest
            } else {
                d == (Drained {
                    payloads: seq![data] + drained(rest).payloads,
                    ..drained(rest)
                })
            }
        }),
{
    reveal_strlit("data: ");
    let l = "data: "@ + data;
    let line = before + l + after;
    assert(l[0] == 'd');
    assert(l.last() == data.last());
    law_trimming_ignores_surroundings(before, l, after);
    lemma_line_is_split(line, rest);
    assert(l.subrange(0, "data: "@.len() as int) =~= "data: "@);
    assert(l.skip("data: "@.len() as int) =~= data);
    assert(payload(line) == Some(data));
}

/// A whole line that is no data is passed over.
pub proof fn law_other_lines_are_passed_over(line: Seq<char>, rest: Seq<char>)
    requires
        !line.contains('\n'),
        !"data: "@.is_prefix_of(trimmed(line)),
    ensures
        drained(line + seq!['\n'] + rest) == drained(rest),
{
    lemma_line_is_split(line, rest);
}

/// A line that is not whole yet waits.
pub proof fn law_unfinished_line_waits(s: Seq<char>)
    requires
        !s.contains('\n'),
    ensures
        drained(s) == (Drained { payloads: seq![], rest: s, done: false }),
{
    lemma_split_line(s);
}

/// A payload adds the text of the first choice's delta, exactly where that is
/// there and not empty.
pub proof fn law_added_text_is_the_first_delta(v: JsonView, choices: Seq<JsonView>, t: Seq<char>)
    requires
        v.get("choices"@) == Some(JsonView::Array(choices)),
    ensures
        added_text(v) == Some(t) <==> choices.len() > 0 && t.len() > 0 && text_in(
            choices[0].get("delta"@),
            "content"@,
        ) == Some(t),
{
}

/// What payloads add is added in their order: one more payload adds its text at
/// the end, or nothing.
pub proof fn law_texts_are_added_in_order(payloads: Seq<Seq<char>>, p: Seq<char>)
    ensures
        match parsed_json(p) {
            Some(v) => match added_text(v) {
                Some(t) => added_texts(payloads.push(p)) == added_texts(payloads) + seq![t],
                None => added_texts(payloads.push(p)) == added_texts(payloads),
            },
            None => added_texts(payloads.push(p)) == added_texts(payloads),
        },
{
    assert(payloads.push(p).drop_last() =~= payloads);
}

} // verus!
