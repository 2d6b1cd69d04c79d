//! Text primitives: whitespace, trimming, words, lines, decimal numbers.
//!
//! A string is modelled by its sequence of characters.

use vstd::prelude::*;
use vstd::string::StrSliceExecFns;
use vstd::string::StringExecFns;

verus! {

/// `String::push` appends one character.
pub assume_specification[ String::push ](s: &mut String, c: char)
    ensures
        final(s)@ == old(s)@.push(c),
;

/// The characters with the Unicode `White_Space` property.
pub open spec fn is_white(c: char) -> bool {
    ||| '\u{9}' <= c <= '\u{d}'
    ||| c == ' '
    ||| c == '\u{85}'
    ||| c == '\u{a0}'
    ||| c == '\u{1680}'
    ||| '\u{2000}' <= c <= '\u{200a}'
    ||| c == '\u{2028}'
    ||| c == '\u{2029}'
    ||| c == '\u{202f}'
    ||| c == '\u{205f}'
    ||| c == '\u{3000}'
}

/// Whether `c` is whitespace.
pub fn white(c: char) -> (r: bool)
    ensures
        r == is_white(c),
{
    ('\u{9}' <= c && c <= '\u{d}') || c == ' ' || c == '\u{85}' || c == '\u{a0}' || c == '\u{1680}'
        || ('\u{2000}' <= c && c <= '\u{200a}') || c == '\u{2028}' || c == '\u{2029}' || c
        == '\u{202f}' || c == '\u{205f}' || c == '\u{3000}'
}

/// The characters of `s`, in order.
pub fn chars_of(s: &str) -> (r: Vec<char>)
    ensures
        r@ == s@,
{
    let mut v: Vec<char> = Vec::new();
    for c in it: s.chars()
        invariant
            it.seq() == s@,
            v@ == s@.take(it.index() as int),
    {
        v.push(c);
    }
    v
}

/// The string made of `cs[from..to]`.
pub fn string_of(cs: &Vec<char>, from: usize, to: usize) -> (r: String)
    requires
        from <= to <= cs@.len(),
    ensures
        r@ == cs@.subrange(from as int, to as int),
{
    let mut out = String::new();
    let mut i: usize = from;
    while i < to
        invariant
            from <= i <= to <= cs@.len(),
            out@ == cs@.subrange(from as int, i as int),
        decreases to - i,
    {
        out.push(cs[i]);
        i += 1;
    }
    out
}

/// Whether two strings hold the same characters.
pub fn same(a: &str, b: &str) -> (r: bool)
    ensures
        r == (a@ == b@),
{
    let x = a.to_owned();
    let y = b.to_owned();
    x == y
}

/// `s` without the whitespace at its front.
pub open spec fn trim_front(s: Seq<char>) -> Seq<char>
    decreases s.len(),
{
    if s.len() > 0 && is_white(s[0]) {
        trim_front(s.drop_first())
    } else {
        s
    }
}

/// `s` without the whitespace at its back.
pub open spec fn trim_back(s: Seq<char>) -> Seq<char>
    decreases s.len(),
{
    if s.len() > 0 && is_white(s.last()) {
        trim_back(s.drop_last())
    } else {
        s
    }
}

/// `s` without the whitespace at either end.
pub open spec fn trimmed(s: Seq<char>) -> Seq<char> {
    trim_back(trim_front(s))
}

/// The first index of `cs` that holds no whitespace, or its length.
fn front_of(cs: &Vec<char>) -> (a: usize)
    ensures
        a <= cs@.len(),
        cs@.skip(a as int) == trim_front(cs@),
{
    let mut a: usize = 0;
    assert(cs@.skip(0) =~= cs@);
    while a < cs.len() && white(cs[a])
        invariant
            a <= cs@.len(),
            trim_front(cs@) == trim_front(cs@.skip(a as int)),
        decreases cs@.len() - a,
    {
        assert(cs@.skip(a as int).drop_first() =~= cs@.skip(a + 1));
        a += 1;
    }
    a
}

/// `s` without the whitespace at its front.
pub fn trim_start<'a>(s: &'a str) -> (r: &'a str)
    ensures
        r@ == trim_front(s@),
{
    let cs = chars_of(s);
    let a: usize = front_of(&cs);
    assert(s@.subrange(a as int, s@.len() as int) =~= s@.skip(a as int));
    s.substring_char(a, cs.len())
}

/// `s` without the whitespace at either end.
pub fn trim<'a>(s: &'a str) -> (r: &'a str)
    ensures
        r@ == trimmed(s@),
{
    let cs = chars_of(s);
    let a: usize = front_of(&cs);
    let mut b: usize = cs.len();
    assert(cs@.subrange(a as int, b as int) =~= cs@.skip(a as int));
    while a < b && white(cs[b - 1])
        invariant
            a <= b <= cs@.len(),
            trimmed(cs@) == trim_back(cs@.subrange(a as int, b as int)),
        decreases b - a,
    {
        assert(cs@.subrange(a as int, b as int).drop_last() =~= cs@.subrange(
            a as int,
            b - 1,
        ));
        assert(cs@.subrange(a as int, b as int).last() == cs@[b - 1]);
        b -= 1;
    }
    proof {
        if a < b {
            assert(cs@.subrange(a as int, b as int).last() == cs@[b - 1]);
        }
    }
    s.substring_char(a, b)
}

/// `s` without the whitespace at its back.
pub fn trim_end<'a>(s: &'a str) -> (r: &'a str)
    ensures
        r@ == trim_back(s@),
{
    let cs = chars_of(s);
    let mut b: usize = cs.len();
    assert(cs@.take(b as int) =~= cs@);
    while 0 < b && white(cs[b - 1])
        invariant
            b <= cs@.len(),
            trim_back(cs@) == trim_back(cs@.take(b as int)),
        decreases b,
    {
        assert(cs@.take(b as int).drop_last() =~= cs@.take(b - 1));
        assert(cs@.take(b as int).last() == cs@[b - 1]);
        b -= 1;
    }
    proof {
        if 0 < b {
            assert(cs@.take(b as int).last() == cs@[b - 1]);
        }
        assert(s@.subrange(0, b as int) =~= s@.take(b as int));
    }
    s.substring_char(0, b)
}

/// The words of `s`, where `word` holds the characters of a word that began
/// before `s`.
pub open spec fn words_after(word: Seq<char>, s: Seq<char>) -> Seq<Seq<char>>
    decreases s.len(),
{
    if s.len() == 0 {
        if word.len() > 0 {
            seq![word]
        } else {
            seq![]
        }
    } else if is_white(s[0]) {
        if word.len() > 0 {
            seq![word] + words_after(seq![], s.drop_first())
        } else {
            words_after(seq![], s.drop_first())
        }
    } else {
        words_after(word.push(s[0]), s.drop_first())
    }
}

/// The maximal runs of characters of `s` that are not whitespace.
pub open spec fn words(s: Seq<char>) -> Seq<Seq<char>> {
    words_after(seq![], s)
}

/// Splits `s` at whitespace.
pub fn split_words(s: &str) -> (r: Vec<String>)
    ensures
        r.deep_view() == words(s@),
{
    let cs = chars_of(s);
    let mut out: Vec<String> = Vec::new();
    let mut word = String::new();
    let mut i: usize = 0;
    assert(cs@.skip(0) =~= cs@);
    assert(out.deep_view() + words_after(word@, cs@) =~= words(cs@));
    while i < cs.len()
        invariant
            i <= cs@.len(),
            out.deep_view() + words_after(word@, cs@.skip(i as int)) == words(cs@),
        decreases cs@.len() - i,
    {
        let c = cs[i];
        let ghost rest = cs@.skip(i as int);
        let ghost before = out.deep_view();
        assert(rest.drop_first() =~= cs@.skip(i + 1));
        if white(c) {
            if word.as_str().is_empty() {
                assert(word@ =~= seq![]);
            } else {
                let ghost done = word@;
                out.push(word);
                word = String::new();
                assert(out.deep_view() =~= before.push(done));
                assert(before + (seq![done] + words_after(seq![], rest.drop_first()))
                    =~= before.push(done) + words_after(seq![], rest.drop_first()));
                assert(word@ =~= seq![]);
            }
        } else {
            word.push(c);
        }
        i += 1;
    }
    assert(cs@.skip(i as int) =~= seq![]);
    if !word.as_str().is_empty() {
        let ghost before = out.deep_view();
        let ghost done = word@;
        out.push(word);
        assert(out.deep_view() =~= before + seq![done]);
    } else {
        assert(out.deep_view() + seq![] =~= out.deep_view());
    }
    out
}

/// A line without the carriage return before its newline.
pub open spec fn without_carriage_return(line: Seq<char>) -> Seq<char> {
    if line.len() > 0 && line.last() == '\r' {
        line.drop_last()
    } else {
        line
    }
}

/// The lines of `s`, where `line` holds the characters of a line that began
/// before `s`.
pub open spec fn lines_after(line: Seq<char>, s: Seq<char>) -> Seq<Seq<char>>
    decreases s.len(),
{
    if s.len() == 0 {
        if line.len() > 0 {
            seq![line]
        } else {
            seq![]
        }
    } else if s[0] == '\n' {
        seq![without_carriage_return(line)] + lines_after(seq![], s.drop_first())
    } else {
        lines_after(line.push(s[0]), s.drop_first())
    }
}

/// The lines of `s`: each ends at a newline, which may follow a carriage
/// return, or at the end of `s`; the last line may lack its newline.
pub open spec fn lines(s: Seq<char>) -> Seq<Seq<char>> {
    lines_after(seq![], s)
}

/// Splits `s` into its lines.
pub fn split_lines(s: &str) -> (r: Vec<String>)
    ensures
        r.deep_view() == lines(s@),
{
    let cs = chars_of(s);
    let mut out: Vec<String> = Vec::new();
    let mut start: usize = 0;
    let mut i: usize = 0;
    assert(cs@.skip(0) =~= cs@);
    assert(cs@.subrange(0, 0) =~= seq![]);
    assert(out.deep_view() + lines(cs@) =~= lines(cs@));
    while i < cs.len()
        invariant
            start <= i <= cs@.len(),
            out.deep_view() + lines_after(cs@.subrange(start as int, i as int), cs@.skip(i as int))
                == lines(cs@),
        decreases cs@.len() - i,
    {
        let ghost rest = cs@.skip(i as int);
        let ghost line = cs@.subrange(start as int, i as int);
        let ghost before = out.deep_view();
        assert(rest.drop_first() =~= cs@.skip(i + 1));
        if cs[i] == '\n' {
            let end: usize = if start < i && cs[i - 1] == '\r' {
                i - 1
            } else {
                i
            };
            assert(cs@.subrange(start as int, end as int) =~= without_carriage_return(line));
            out.push(string_of(&cs, start, end));
            assert(out.deep_view() =~= before.push(without_carriage_return(line)));
            assert(before + (seq![without_carriage_return(line)] + lines_after(
                seq![],
                rest.drop_first(),
            )) =~= before.push(without_carriage_return(line)) + lines_after(
                seq![],
                rest.drop_first(),
            ));
            start = i + 1;
            assert(cs@.subrange(start as int, i + 1) =~= seq![]);
        } else {
            assert(cs@.subrange(start as int, i + 1) =~= line.push(cs@[i as int]));
        }
        i += 1;
    }
    assert(cs@.skip(i as int) =~= seq![]);
    if start < cs.len() {
        let ghost before = out.deep_view();
        out.push(string_of(&cs, start, cs.len()));
        assert(out.deep_view() =~= before + seq![cs@.subrange(start as int, i as int)]);
    } else {
        assert(out.deep_view() + seq![] =~= out.deep_view());
    }
    out
}

/// `parts` with `sep` between neighbours.
pub open spec fn joined(parts: Seq<Seq<char>>, sep: Seq<char>) -> Seq<char>
    decreases parts.len(),
{
    if parts.len() == 0 {
        seq![]
    } else if parts.len() == 1 {
        parts[0]
    } else {
        joined(parts.drop_last(), sep) + sep + parts.last()
    }
}

/// Concatenates `parts[from..]` with `sep` between neighbours.
pub fn join(parts: &Vec<String>, from: usize, sep: &str) -> (r: String)
    requires
        from <= parts@.len(),
    ensures
        r@ == joined(parts.deep_view().skip(from as int), sep@),
{
    let mut out = String::new();
    let ghost all = parts.deep_view().skip(from as int);
    let mut i: usize = from;
    assert(all.take(0) =~= seq![]);
    while i < parts.len()
        invariant
            from <= i <= parts@.len(),
            all == parts.deep_view().skip(from as int),
            out@ == joined(all.take(i - from), sep@),
        decreases parts@.len() - i,
    {
        let ghost taken = all.take(i - from + 1);
        assert(taken.drop_last() =~= all.take(i - from));
        assert(taken.last() == parts@[i as int]@);
        if i > from {
            out.append(sep);
        }
        out.append(parts[i].as_str());
        proof {
            if i == from {
                assert(out@ =~= parts@[i as int]@);
                assert(taken[0] == parts@[i as int]@);
            } else {
                assert(out@ =~= joined(taken.drop_last(), sep@) + sep@ + taken.last());
            }
        }
        i += 1;
    }
    assert(all.take(all.len() as int) =~= all);
    out
}

/// The decimal digit for `n`, which is below ten.
pub open spec fn digit(n: int) -> char {
    ('0' as int + n) as char
}

/// `n` in decimal, without leading zeros.
pub open spec fn decimal(n: nat) -> Seq<char>
    decreases n,
{
    if n < 10 {
        seq![digit(n as int)]
    } else {
        decimal(n / 10).push(digit((n % 10) as int))
    }
}

/// `n` in decimal, with a minus sign before a negative number.
pub open spec fn signed_decimal(n: int) -> Seq<char> {
    if n < 0 {
        seq!['-'] + decimal((-n) as nat)
    } else {
        decimal(n as nat)
    }
}

/// Writes `n` in decimal.
pub fn decimal_text(n: u64) -> (r: String)
    ensures
        r@ == decimal(n as nat),
    decreases n,
{
    let d: u8 = (n % 10) as u8;
    let mut out = if n < 10 {
        String::new()
    } else {
        decimal_text(n / 10)
    };
    let c: char = (48u8 + d) as char;
    out.push(c);
    assert(out@ =~= decimal(n as nat));
    out
}

/// Writes `n` in decimal, with a minus sign before a negative number.
pub fn signed_decimal_text(n: i64) -> (r: String)
    ensures
        r@ == signed_decimal(n as int),
{
    if n >= 0 {
        decimal_text(n as u64)
    } else {
        let mut out = String::new();
        out.push('-');
        let m: u64 = if n == i64::MIN {
            9223372036854775808u64
        } else {
            (-n) as u64
        };
        let rest = decimal_text(m);
        out.append(rest.as_str());
        assert(out@ =~= seq!['-'] + rest@);
        out
    }
}

/// Whether `c` is a decimal digit.
pub open spec fn is_digit(c: char) -> bool {
    '0' <= c <= '9'
}

/// The number that a run of decimal digits stands for.
pub open spec fn number(s: Seq<char>) -> nat
    decreases s.len(),
{
    if s.len() == 0 {
        0
    } else {
        number(s.drop_last()) * 10 + (s.last() as int - '0' as int) as nat
    }
}

/// Whether `s` holds decimal digits only.
pub open spec fn all_digits(s: Seq<char>) -> bool {
    forall|i: int| 0 <= i < s.len() ==> is_digit(#[trigger] s[i])
}

/// `s` without the plus sign that it may begin with.
pub open spec fn after_plus(s: Seq<char>) -> Seq<char> {
    if s.len() > 0 && s[0] == '+' {
        s.drop_first()
    } else {
        s
    }
}

/// The number written in `s`: decimal digits after an optional plus sign, at
/// most the largest `usize`.
pub open spec fn parsed_usize(s: Seq<char>) -> Option<usize> {
    let digits = after_plus(s);
    if digits.len() > 0 && all_digits(digits) && number(digits) <= usize::MAX {
        Some(number(digits) as usize)
    } else {
        None
    }
}

proof fn number_grows(s: Seq<char>, n: int)
    requires
        0 <= n <= s.len(),
        all_digits(s),
    ensures
        number(s.take(n)) <= number(s),
    decreases s.len(),
{
    if n < s.len() {
        assert(s.drop_last().take(n) =~= s.take(n));
        number_grows(s.drop_last(), n);
    } else {
        assert(s.take(n) =~= s);
    }
}

/// Reads a decimal number.
pub fn parse_usize(s: &str) -> (r: Option<usize>)
    ensures
        r == parsed_usize(s@),
{
    let cs = chars_of(s);
    let start: usize = if cs.len() > 0 && cs[0] == '+' {
        1
    } else {
        0
    };
    let ghost digits = cs@.skip(start as int);
    assert(digits =~= after_plus(s@));
    if start == cs.len() {
        return None;
    }
    let mut n: usize = 0;
    let mut i: usize = start;
    assert(digits.take(0) =~= seq![]);
    while i < cs.len()
        invariant
            start <= i <= cs@.len(),
            digits == cs@.skip(start as int),
            digits == after_plus(s@),
            digits.len() > 0,
            forall|j: int| 0 <= j < i - start ==> is_digit(#[trigger] digits[j]),
            n == number(digits.take(i - start)),
        decreases cs@.len() - i,
    {
        let c = cs[i];
        let ghost k = i - start;
        assert(digits[k] == c);
        if !('0' <= c && c <= '9') {
            return None;
        }
        let d: usize = (c as u32 - 48) as usize;
        assert(digits.take(k + 1).drop_last() =~= digits.take(k));
        if n > usize::MAX / 10 || n * 10 > usize::MAX - d {
            proof {
                if all_digits(digits) {
                    number_grows(digits, k + 1);
                }
            }
            return None;
        }
        n = n * 10 + d;
        i += 1;
    }
    assert(digits.take(digits.len() as int) =~= digits);
    Some(n)
}

/// `c` with an upper-case ASCII letter made lower-case.
pub open spec fn ascii_lower(c: char) -> char {
    if 'A' <= c <= 'Z' {
        (c as int + 32) as char
    } else {
        c
    }
}

/// `s` with its upper-case ASCII letters made lower-case.
pub open spec fn ascii_lowered(s: Seq<char>) -> Seq<char> {
    s.map_values(|c: char| ascii_lower(c))
}

/// `s` with its upper-case ASCII letters made lower-case.
pub fn to_ascii_lower(s: &str) -> (r: String)
    ensures
        r@ == ascii_lowered(s@),
{
    let cs = chars_of(s);
    let mut out = String::new();
    let mut i: usize = 0;
    while i < cs.len()
        invariant
            i <= cs@.len(),
            out@ =~= ascii_lowered(cs@.take(i as int)),
        decreases cs@.len() - i,
    {
        let c = cs[i];
        let l: char = if 'A' <= c && c <= 'Z' {
            (c as u8 + 32) as char
        } else {
            c
        };
        out.push(l);
        assert(out@ =~= ascii_lowered(cs@.take(i + 1)));
        i += 1;
    }
    assert(cs@.take(cs@.len() as int) =~= cs@);
    out
}

/// Whether two strings are equal up to the case of ASCII letters.
pub fn same_ignoring_ascii_case(a: &str, b: &str) -> (r: bool)
    ensures
        r == (ascii_lowered(a@) == ascii_lowered(b@)),
{
    let x = to_ascii_lower(a);
    let y = to_ascii_lower(b);
    x == y
}

/// Whether `s` begins with `prefix`.
pub fn starts_with(s: &str, prefix: &str) -> (r: bool)
    ensures
        r == prefix@.is_prefix_of(s@),
{
    let cs = chars_of(s);
    let ps = chars_of(prefix);
    if ps.len() > cs.len() {
        return false;
    }
    let mut i: usize = 0;
    while i < ps.len()
        invariant
            i <= ps@.len() <= cs@.len(),
            ps@ == prefix@,
            cs@ == s@,
            forall|j: int| 0 <= j < i ==> ps@[j] == cs@[j],
        decreases ps@.len() - i,
    {
        if ps[i] != cs[i] {
            assert(s@.subrange(0, prefix@.len() as int)[i as int] == cs@[i as int]);
            return false;
        }
        i += 1;
    }
    assert(prefix@ =~= s@.subrange(0, prefix@.len() as int));
    true
}

/// What follows `prefix` in `s`, when `s` begins with it.
pub fn strip_prefix<'a>(s: &'a str, prefix: &str) -> (r: Option<&'a str>)
    ensures
        prefix@.is_prefix_of(s@) <==> r is Some,
        r matches Some(rest) ==> rest@ == s@.skip(prefix@.len() as int),
{
    if starts_with(s, prefix) {
        let n: usize = s.unicode_len();
        let k: usize = prefix.unicode_len();
        assert(s@.subrange(k as int, n as int) =~= s@.skip(k as int));
        Some(s.substring_char(k, n))
    } else {
        None
    }
}

/// `s` without the slashes at its back.
pub open spec fn without_trailing_slashes(s: Seq<char>) -> Seq<char>
    decreases s.len(),
{
    if s.len() > 0 && s.last() == '/' {
        without_trailing_slashes(s.drop_last())
    } else {
        s
    }
}

/// `s` without the slashes at its back.
pub fn trim_end_slashes<'a>(s: &'a str) -> (r: &'a str)
    ensures
        r@ == without_trailing_slashes(s@),
{
    let cs = chars_of(s);
    let mut b: usize = cs.len();
    assert(cs@.take(b as int) =~= cs@);
    while b > 0 && cs[b - 1] == '/'
        invariant
            b <= cs@.len(),
            without_trailing_slashes(cs@) == without_trailing_slashes(cs@.take(b as int)),
        decreases b,
    {
        assert(cs@.take(b as int).drop_last() =~= cs@.take(b - 1));
        assert(cs@.take(b as int).last() == cs@[b - 1]);
        b -= 1;
    }
    proof {
        if b > 0 {
            assert(cs@.take(b as int).last() == cs@[b - 1]);
        }
        assert(s@.subrange(0, b as int) =~= s@.take(b as int));
    }
    s.substring_char(0, b)
}

/// The first `n` characters of `s`, or all of it.
pub open spec fn first_chars(s: Seq<char>, n: int) -> Seq<char> {
    if n < s.len() {
        s.take(n)
    } else {
        s
    }
}

/// The first `n` characters of `s`, or all of it.
pub fn take_chars<'a>(s: &'a str, n: usize) -> (r: &'a str)
    ensures
        r@ == first_chars(s@, n as int),
{
    let len: usize = s.unicode_len();
    if n < len {
        assert(s@.subrange(0, n as int) =~= s@.take(n as int));
        s.substring_char(0, n)
    } else {
        assert(s@.subrange(0, len as int) =~= s@);
        s.substring_char(0, len)
    }
}

/// Whether `part` stands somewhere in `s`.
pub open spec fn holds(s: Seq<char>, part: Seq<char>) -> bool {
    exists|i: int|
        0 <= i <= s.len() - part.len() && #[trigger] s.subrange(i, i + part.len()) == part
}

/// Whether `part` stands somewhere in `s`.
pub fn contains(s: &str, part: &str) -> (r: bool)
    ensures
        r == holds(s@, part@),
{
    let cs = chars_of(s);
    let ps = chars_of(part);
    if ps.len() > cs.len() {
        return false;
    }
    let mut i: usize = 0;
    while i <= cs.len() - ps.len()
        invariant
            cs@ == s@,
            ps@ == part@,
            ps@.len() <= cs@.len(),
            i <= cs@.len() - ps@.len() + 1,
            forall|k: int| 0 <= k < i ==> #[trigger] s@.subrange(k, k + part@.len()) != part@,
        decreases cs@.len() + 1 - i,
    {
        let mut j: usize = 0;
        while j < ps.len() && cs[i + j] == ps[j]
            invariant
                cs@ == s@,
                ps@ == part@,
                i + ps@.len() <= cs@.len() <= usize::MAX,
                j <= ps@.len(),
                forall|k: int| 0 <= k < j ==> cs@[i + k] == ps@[k],
            decreases ps@.len() - j,
        {
            j += 1;
        }
        if j == ps.len() {
            assert(s@.subrange(i as int, i + part@.len()) =~= part@);
            return true;
        }
        assert(s@.subrange(i as int, i + part@.len())[j as int] == cs@[i + j]);
        if i == cs.len() - ps.len() {
            assert(!holds(s@, part@));
            return false;
        }
        i += 1;
    }
    false
}

/// Whether `s` ends with `c`.
pub fn ends_with_char(s: &str, c: char) -> (r: bool)
    ensures
        r <==> s@.len() > 0 && s@.last() == c,
{
    let n: usize = s.unicode_len();
    n > 0 && s.get_char(n - 1) == c
}

/// Whether `c` is a control character: the Unicode category `Cc`.
pub open spec fn is_control(c: char) -> bool {
    c <= '\u{1f}' || '\u{7f}' <= c <= '\u{9f}'
}

/// Whether `c` is a control character.
pub fn control(c: char) -> (r: bool)
    ensures
        r == is_control(c),
{
    c <= '\u{1f}' || ('\u{7f}' <= c && c <= '\u{9f}')
}

/// A text in lower case.
pub uninterp spec fn lowercase_of(s: Seq<char>) -> Seq<char>;

/// `s` in lower case, by `str::to_lowercase`. Claims only that the same text
/// always has the same form in lower case.
#[verifier::external_body]
pub(crate) fn to_lowercase(s: &str) -> (r: String)
    ensures
        r@ == lowercase_of(s@),
{
    s.to_lowercase()
}

/// Adds a text to a list.
pub(crate) fn push_text(out: &mut Vec<String>, s: &str)
    ensures
        final(out).deep_view() == old(out).deep_view().push(s@),
{
    let ghost before = out.deep_view();
    out.push(s.to_owned());
    assert(out.deep_view() =~= before.push(s@));
}

/// A text is its trimmed self with nothing but white space around it, and what
/// is left neither starts nor ends with white space.
pub proof fn law_trimming_takes_white_space_only(s: Seq<char>)
    ensures
        exists|a: Seq<char>, b: Seq<char>|
            #![trigger a + trimmed(s) + b]
            s == a + trimmed(s) + b && all_white(a) && all_white(b),
        trimmed(s).len() > 0 ==> !is_white(trimmed(s)[0]) && !is_white(trimmed(s).last()),
{
    lemma_trim_front(s);
    lemma_trim_back(trim_front(s));
    let t = trim_front(s);
    let a = s.take(s.len() - t.len());
    let b = t.skip(trimmed(s).len() as int);
    assert(s =~= a + trimmed(s) + b);
    if trimmed(s).len() > 0 {
        assert(trimmed(s)[0] == t[0]);
    }
}

/// Whether there is nothing but white space.
pub open spec fn all_white(s: Seq<char>) -> bool {
    forall|i: int| 0 <= i < s.len() ==> is_white(#[trigger] s[i])
}

proof fn lemma_trim_front(s: Seq<char>)
    ensures
        trim_front(s).len() <= s.len(),
        trim_front(s) == s.skip(s.len() - trim_front(s).len()),
        all_white(s.take(s.len() - trim_front(s).len())),
        trim_front(s).len() > 0 ==> !is_white(trim_front(s)[0]),
    decreases s.len(),
{
    if s.len() > 0 && is_white(s[0]) {
        let r = s.drop_first();
        lemma_trim_front(r);
        let n = r.len() - trim_front(r).len();
        assert(s.skip(n + 1) =~= r.skip(n));
        assert forall|i: int| 0 <= i < n + 1 implies is_white(#[trigger] s.take(n + 1)[i]) by {
            if i > 0 {
                assert(s.take(n + 1)[i] == r.take(n)[i - 1]);
            }
        }
    } else {
        assert(s.skip(0) =~= s);
    }
}

proof fn lemma_trim_back(s: Seq<char>)
    ensures
        trim_back(s).len() <= s.len(),
        trim_back(s) == s.take(trim_back(s).len() as int),
        all_white(s.skip(trim_back(s).len() as int)),
        trim_back(s).len() > 0 ==> !is_white(trim_back(s).last()),
    decreases s.len(),
{
    if s.len() > 0 && is_white(s.last()) {
        let r = s.drop_last();
        lemma_trim_back(r);
        let n = trim_back(r).len() as int;
        assert(s.take(n) =~= r.take(n));
        assert forall|i: int| 0 <= i < s.len() - n implies is_white(#[trigger] s.skip(n)[i]) by {
            if i < r.len() - n {
                assert(s.skip(n)[i] == r.skip(n)[i]);
            }
        }
    } else {
        assert(s.take(s.len() as int) =~= s);
    }
}

/// White space around a text does not change its trimmed self.
pub proof fn law_trimming_ignores_surroundings(a: Seq<char>, s: Seq<char>, b: Seq<char>)
    requires
        all_white(a),
        all_white(b),
        s.len() > 0,
        !is_white(s[0]),
        !is_white(s.last()),
    ensures
        trimmed(a + s + b) == s,
    decreases a.len() + b.len(),
{
    if a.len() > 0 {
        assert((a + s + b)[0] == a[0]);
        assert((a + s + b).drop_first() =~= a.drop_first() + s + b);
        assert forall|i: int| 0 <= i < a.drop_first().len() implies is_white(
            #[trigger] a.drop_first()[i],
        ) by {
            assert(a.drop_first()[i] == a[i + 1]);
        }
        law_trimming_ignores_surroundings(a.drop_first(), s, b);
    } else {
        assert(a + s + b =~= s + b);
        assert((s + b)[0] == s[0]);
        if b.len() > 0 {
            assert((s + b).last() == b.last());
            assert((s + b).drop_last() =~= s + b.drop_last());
            assert forall|i: int| 0 <= i < b.drop_last().len() implies is_white(
                #[trigger] b.drop_last()[i],
            ) by {
                assert(b.drop_last()[i] == b[i]);
            }
            law_trimming_ignores_surroundings(a, s, b.drop_last());
            assert(a + s + b.drop_last() =~= s + b.drop_last());
            assert((s + b.drop_last())[0] == s[0]);
        } else {
            assert(s + b =~= s);
        }
    }
}

/// Whether a text is one word.
pub open spec fn is_word(w: Seq<char>) -> bool {
    w.len() > 0 && forall|i: int| 0 <= i < w.len() ==> !is_white(#[trigger] w[i])
}

/// Words are words: none is empty, and none holds white space.
pub proof fn law_words_are_words(s: Seq<char>)
    ensures
        forall|i: int| 0 <= i < words(s).len() ==> is_word(#[trigger] words(s)[i]),
{
    lemma_words_after_are_words(seq![], s);
}

proof fn lemma_words_after_are_words(word: Seq<char>, s: Seq<char>)
    requires
        word.len() > 0 ==> is_word(word),
    ensures
        forall|i: int|
            0 <= i < words_after(word, s).len() ==> is_word(#[trigger] words_after(word, s)[i]),
    decreases s.len(),
{
    let all = words_after(word, s);
    if s.len() > 0 {
        if is_white(s[0]) {
            lemma_words_after_are_words(seq![], s.drop_first());
        } else {
            assert(is_word(word.push(s[0])));
            lemma_words_after_are_words(word.push(s[0]), s.drop_first());
        }
    }
    assert forall|i: int| 0 <= i < all.len() implies is_word(#[trigger] all[i]) by {
        if s.len() == 0 {
            assert(all[i] == word);
        } else if is_white(s[0]) {
            let rest = words_after(seq![], s.drop_first());
            if word.len() > 0 {
                if i == 0 {
                    assert(all[i] == word);
                } else {
                    assert(all[i] == rest[i - 1]);
                }
            } else {
                assert(all[i] == rest[i]);
            }
        } else {
            assert(all[i] == words_after(word.push(s[0]), s.drop_first())[i]);
        }
    }
}

proof fn lemma_words_after_a_word(word: Seq<char>, w: Seq<char>, rest: Seq<char>)
    requires
        forall|i: int| 0 <= i < w.len() ==> !is_white(#[trigger] w[i]),
    ensures
        words_after(word, w + rest) == words_after(word + w, rest),
    decreases w.len(),
{
    if w.len() == 0 {
        assert(w + rest =~= rest);
        assert(word + w =~= word);
    } else {
        assert((w + rest)[0] == w[0]);
        assert((w + rest).drop_first() =~= w.drop_first() + rest);
        assert forall|i: int| 0 <= i < w.drop_first().len() implies !is_white(
            #[trigger] w.drop_first()[i],
        ) by {
            assert(w.drop_first()[i] == w[i + 1]);
        }
        lemma_words_after_a_word(word.push(w[0]), w.drop_first(), rest);
        assert(word.push(w[0]) + w.drop_first() =~= word + w);
    }
}

/// A word, white space and a rest have that word first, and then the words of
/// the rest.
pub proof fn law_first_word_comes_first(w: Seq<char>, gap: char, rest: Seq<char>)
    requires
        is_word(w),
        is_white(gap),
    ensures
        words(w + seq![gap] + rest) == seq![w] + words(rest),
        words(w) == seq![w],
        words(seq![gap] + rest) == words(rest),
{
    let tail = seq![gap] + rest;
    assert(w + seq![gap] + rest =~= w + tail);
    lemma_words_after_a_word(seq![], w, tail);
    assert(Seq::<char>::empty() + w =~= w);
    assert(tail[0] == gap);
    assert(tail.drop_first() =~= rest);
    lemma_words_after_a_word(seq![], w, seq![]);
    assert(w + Seq::<char>::empty() =~= w);
}

/// Joining parts puts each after the one before it, with the separator between.
pub proof fn law_joining_appends(parts: Seq<Seq<char>>, part: Seq<char>, sep: Seq<char>)
    ensures
        joined(parts.push(part), sep) == (if parts.len() == 0 {
            part
        } else {
            joined(parts, sep) + sep + part
        }),
{
    assert(parts.push(part).drop_last() =~= parts);
}

/// Every part stands in what the parts are joined to.
pub proof fn law_joined_text_holds_its_parts(parts: Seq<Seq<char>>, sep: Seq<char>, i: int)
    requires
        0 <= i < parts.len(),
    ensures
        holds(joined(parts, sep), parts[i]),
    decreases parts.len(),
{
    if parts.len() == 1 {
        lemma_holds_between(seq![], parts[0], seq![]);
        assert(Seq::<char>::empty() + parts[0] + Seq::<char>::empty() =~= parts[0]);
    } else {
        let front = joined(parts.drop_last(), sep);
        let whole = joined(parts, sep);
        if i == parts.len() - 1 {
            lemma_holds_between(front + sep, parts[i], seq![]);
            assert(front + sep + parts[i] + Seq::<char>::empty() =~= whole);
        } else {
            law_joined_text_holds_its_parts(parts.drop_last(), sep, i);
            let part = parts[i];
            assert(parts.drop_last()[i] == part);
            lemma_holds_in_longer(front, part, sep + parts.last());
            assert(front + (sep + parts.last()) =~= whole);
        }
    }
}

/// What a text holds, a longer text that starts with it holds too.
pub proof fn lemma_holds_in_longer(s: Seq<char>, part: Seq<char>, more: Seq<char>)
    requires
        holds(s, part),
    ensures
        holds(s + more, part),
{
    let k = choose|k: int|
        0 <= k <= s.len() - part.len() && #[trigger] s.subrange(k, k + part.len()) == part;
    assert((s + more).subrange(k, k + part.len()) =~= s.subrange(k, k + part.len()));
}

/// What stands between two texts is held by all three together.
pub proof fn lemma_holds_between(a: Seq<char>, part: Seq<char>, b: Seq<char>)
    ensures
        holds(a + part + b, part),
{
    let k = a.len() as int;
    assert((a + part + b).subrange(k, k + part.len()) =~= part);
}

/// A number that is written out reads as that number.
pub proof fn law_decimal_reads_back(n: nat)
    ensures
        all_digits(decimal(n)),
        decimal(n).len() > 0,
        number(decimal(n)) == n,
        n <= usize::MAX ==> parsed_usize(decimal(n)) == Some(n as usize),
    decreases n,
{
    let last = (n % 10) as int;
    assert(digit(last) as int == '0' as int + last);
    if n >= 10 {
        law_decimal_reads_back(n / 10);
        assert(decimal(n).drop_last() =~= decimal(n / 10));
        assert(decimal(n).last() == digit(last));
    } else {
        assert(decimal(n).drop_last() =~= seq![]);
        assert(decimal(n).last() == digit(last));
        assert(number(decimal(n).drop_last()) == 0);
    }
    assert(number(decimal(n)) == n);
    assert(decimal(n)[0] != '+') by {
        assert(is_digit(decimal(n)[0]));
    }
}

/// Two different numbers are written differently.
pub proof fn law_decimals_differ(a: nat, b: nat)
    requires
        a != b,
    ensures
        decimal(a) != decimal(b),
{
    law_decimal_reads_back(a);
    law_decimal_reads_back(b);
}

/// Lowering the case keeps the length and every character but the capital
/// letters of ASCII, and doing it twice is doing it once.
pub proof fn law_lowering_touches_capitals_only(s: Seq<char>)
    ensures
        ascii_lowered(s).len() == s.len(),
        forall|i: int|
            0 <= i < s.len() && !('A' <= s[i] <= 'Z') ==> #[trigger] ascii_lowered(s)[i] == s[i],
        forall|i: int|
            0 <= i < s.len() && 'A' <= s[i] <= 'Z' ==> #[trigger] ascii_lowered(s)[i] as int
                == s[i] as int + 32,
        ascii_lowered(ascii_lowered(s)) == ascii_lowered(s),
{
    assert(ascii_lowered(ascii_lowered(s)) =~= ascii_lowered(s));
}

/// The first characters are a prefix, and as many as there are up to the number
/// that is asked for.
pub proof fn law_first_characters_are_a_prefix(s: Seq<char>, n: int)
    requires
        n >= 0,
    ensures
        first_chars(s, n).is_prefix_of(s),
        s.len() <= n ==> first_chars(s, n) == s,
        s.len() > n ==> first_chars(s, n).len() == n,
{
    assert(s.subrange(0, first_chars(s, n).len() as int) =~= first_chars(s, n));
}

/// A first line that ends, and a rest, have that line first, without a carriage
/// return at its end, and then the lines of the rest.
pub proof fn law_first_line_comes_first(line: Seq<char>, rest: Seq<char>)
    requires
        !line.contains('\n'),
    ensures
        lines(line + seq!['\n'] + rest) == seq![without_carriage_return(line)] + lines(rest),
{
    let tail = seq!['\n'] + rest;
    assert(line + seq!['\n'] + rest =~= line + tail);
    lemma_lines_after(seq![], line, tail);
    assert(Seq::<char>::empty() + line =~= line);
    assert(tail[0] == '\n');
    assert(tail.drop_first() =~= rest);
}

proof fn lemma_lines_after(line: Seq<char>, more: Seq<char>, rest: Seq<char>)
    requires
        !more.contains('\n'),
    ensures
        lines_after(line, more + rest) == lines_after(line + more, rest),
    decreases more.len(),
{
    if more.len() == 0 {
        assert(more + rest =~= rest);
        assert(line + more =~= line);
    } else {
        assert(more.contains(more[0]));
        assert((more + rest)[0] == more[0]);
        assert((more + rest).drop_first() =~= more.drop_first() + rest);
        assert(!more.drop_first().contains('\n')) by {
            if more.drop_first().contains('\n') {
                let i = more.drop_first().index_of('\n');
                assert(more[i + 1] == '\n');
            }
        }
        lemma_lines_after(line.push(more[0]), more.drop_first(), rest);
        assert(line.push(more[0]) + more.drop_first() =~= line + more);
    }
}

/// A text that ends in a part holds it.
pub proof fn lemma_ends_in(head: Seq<char>, part: Seq<char>)
    ensures
        holds(head + part, part),
{
    lemma_holds_between(head, part, seq![]);
    assert(head + part + Seq::<char>::empty() =~= head + part);
}

/// Three texts are joined alike from either end.
pub proof fn lemma_joins(a: Seq<char>, b: Seq<char>, c: Seq<char>)
    ensures
        a + (b + c) == a + b + c,
{
    assert(a + (b + c) =~= a + b + c);
}

/// A text that ends in parts that follow each other holds them together.
pub proof fn lemma_ends_in_parts(head: Seq<char>, a: Seq<char>, b: Seq<char>, c: Seq<char>)
    ensures
        holds(head + a + b + c, a + b + c),
{
    lemma_joins(head, a, b);
    lemma_joins(head, a + b, c);
    lemma_ends_in(head, a + b + c);
}

} // verus!
