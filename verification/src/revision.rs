//! MCP protocol revisions.

use vstd::prelude::*;
use crate::text::{chars_of, digit, digit_char, is_digit, ascii_digit, push_char};

verus! {

/// A protocol revision, named by the date it was published (`YYYY-MM-DD`).
#[derive(Clone, Copy, Debug, PartialEq, Eq, Hash, Structural)]
pub struct ProtocolRevision {
    year: u16,
    month: u8,
    day: u8,
}

/// The value of a decimal digit character.
pub open spec fn digit_value(c: char) -> int {
    c as int - 48
}

/// The year a `YYYY-MM-DD` text names.
pub open spec fn year_of(t: Seq<char>) -> int {
    digit_value(t[0]) * 1000 + digit_value(t[1]) * 100 + digit_value(t[2]) * 10 + digit_value(t[3])
}

/// The month a `YYYY-MM-DD` text names.
pub open spec fn month_of(t: Seq<char>) -> int {
    digit_value(t[5]) * 10 + digit_value(t[6])
}

/// The day a `YYYY-MM-DD` text names.
pub open spec fn day_of(t: Seq<char>) -> int {
    digit_value(t[8]) * 10 + digit_value(t[9])
}

/// Whether `t` is a well-formed revision date: `YYYY-MM-DD`, with a month
/// from 01 to 12 and a day from 01 to 31.
pub open spec fn revision_date(t: Seq<char>) -> bool {
    &&& t.len() == 10
    &&& is_digit(t[0]) && is_digit(t[1]) && is_digit(t[2]) && is_digit(t[3])
    &&& t[4] == '-'
    &&& is_digit(t[5]) && is_digit(t[6])
    &&& t[7] == '-'
    &&& is_digit(t[8]) && is_digit(t[9])
    &&& 1 <= month_of(t) <= 12
    &&& 1 <= day_of(t) <= 31
}

impl ProtocolRevision {
    /// The year.
    pub closed spec fn year(self) -> int {
        self.year as int
    }

    /// The month, 1 to 12.
    pub closed spec fn month(self) -> int {
        self.month as int
    }

    /// The day of the month, 1 to 31.
    pub closed spec fn day(self) -> int {
        self.day as int
    }

    #[verifier::type_invariant]
    closed spec fn valid(self) -> bool {
        &&& self.year <= 9999
        &&& 1 <= self.month <= 12
        &&& 1 <= self.day <= 31
    }
}

/// The revision's date, as it appears on the wire.
pub open spec fn revision_text(r: ProtocolRevision) -> Seq<char> {
    seq![
        digit_char((r.year() / 1000) as nat),
        digit_char((r.year() / 100 % 10) as nat),
        digit_char((r.year() / 10 % 10) as nat),
        digit_char((r.year() % 10) as nat),
        '-',
        digit_char((r.month() / 10) as nat),
        digit_char((r.month() % 10) as nat),
        '-',
        digit_char((r.day() / 10) as nat),
        digit_char((r.day() % 10) as nat),
    ]
}

/// A digit character is the character of its value.
proof fn lemma_digit(c: char)
    requires
        is_digit(c),
    ensures
        0 <= digit_value(c) <= 9,
        digit_char(digit_value(c) as nat) == c,
{
    assert('0' as int == 48 && '9' as int == 57);
    let v = digit_value(c);
    assert(v == 0 ==> c == '0');
    assert(v == 1 ==> c == '1');
    assert(v == 2 ==> c == '2');
    assert(v == 3 ==> c == '3');
    assert(v == 4 ==> c == '4');
    assert(v == 5 ==> c == '5');
    assert(v == 6 ==> c == '6');
    assert(v == 7 ==> c == '7');
    assert(v == 8 ==> c == '8');
    assert(v == 9 ==> c == '9');
}

proof fn lemma_four_digits(a: int, b: int, c: int, d: int)
    requires
        0 <= a <= 9,
        0 <= b <= 9,
        0 <= c <= 9,
        0 <= d <= 9,
    ensures
        (a * 1000 + b * 100 + c * 10 + d) / 1000 == a,
        (a * 1000 + b * 100 + c * 10 + d) / 100 % 10 == b,
        (a * 1000 + b * 100 + c * 10 + d) / 10 % 10 == c,
        (a * 1000 + b * 100 + c * 10 + d) % 10 == d,
{
    let y = a * 1000 + b * 100 + c * 10 + d;
    assert(y / 1000 == a) by (nonlinear_arith)
        requires y == a * 1000 + b * 100 + c * 10 + d, 0 <= a <= 9, 0 <= b <= 9, 0 <= c <= 9, 0 <= d <= 9;
    assert(y / 100 == a * 10 + b) by (nonlinear_arith)
        requires y == a * 1000 + b * 100 + c * 10 + d, 0 <= b <= 9, 0 <= c <= 9, 0 <= d <= 9, 0 <= a;
    assert((a * 10 + b) % 10 == b) by (nonlinear_arith)
        requires 0 <= b <= 9, 0 <= a;
    assert(y / 10 == a * 100 + b * 10 + c) by (nonlinear_arith)
        requires y == a * 1000 + b * 100 + c * 10 + d, 0 <= c <= 9, 0 <= d <= 9, 0 <= a, 0 <= b;
    assert((a * 100 + b * 10 + c) % 10 == c) by (nonlinear_arith)
        requires 0 <= c <= 9, 0 <= a, 0 <= b;
    assert(y % 10 == d) by (nonlinear_arith)
        requires y == a * 1000 + b * 100 + c * 10 + d, 0 <= d <= 9, 0 <= a, 0 <= b, 0 <= c;
}

proof fn lemma_two_digits(a: int, b: int)
    requires
        0 <= a <= 9,
        0 <= b <= 9,
    ensures
        (a * 10 + b) / 10 == a,
        (a * 10 + b) % 10 == b,
{
    assert((a * 10 + b) / 10 == a) by (nonlinear_arith)
        requires 0 <= a <= 9, 0 <= b <= 9;
    assert((a * 10 + b) % 10 == b) by (nonlinear_arith)
        requires 0 <= a <= 9, 0 <= b <= 9;
}

/// The digit character of a digit's value.
proof fn lemma_digit_char(n: int)
    requires
        0 <= n <= 9,
    ensures
        is_digit(digit_char(n as nat)),
        digit_value(digit_char(n as nat)) == n,
{
    assert('0' as int == 48 && '1' as int == 49 && '2' as int == 50 && '3' as int == 51 && '4' as int == 52);
    assert('5' as int == 53 && '6' as int == 54 && '7' as int == 55 && '8' as int == 56 && '9' as int == 57);
}

/// The digits of a valid date render a well-formed date naming it.
proof fn lemma_text_of_date(y: int, m: int, d: int)
    requires
        0 <= y <= 9999,
        1 <= m <= 12,
        1 <= d <= 31,
    ensures
        ({
            let t = seq![
                digit_char((y / 1000) as nat), digit_char((y / 100 % 10) as nat),
                digit_char((y / 10 % 10) as nat), digit_char((y % 10) as nat), '-',
                digit_char((m / 10) as nat), digit_char((m % 10) as nat), '-',
                digit_char((d / 10) as nat), digit_char((d % 10) as nat),
            ];
            revision_date(t) && year_of(t) == y && month_of(t) == m && day_of(t) == d
        }),
{
    assert(0 <= y / 1000 <= 9 && 0 <= y / 100 % 10 <= 9 && 0 <= y / 10 % 10 <= 9 && 0 <= y % 10 <= 9) by (nonlinear_arith)
        requires 0 <= y <= 9999;
    assert((y / 1000) * 1000 + (y / 100 % 10) * 100 + (y / 10 % 10) * 10 + y % 10 == y) by (nonlinear_arith)
        requires 0 <= y <= 9999;
    assert(0 <= m / 10 <= 9 && 0 <= m % 10 <= 9 && (m / 10) * 10 + m % 10 == m) by (nonlinear_arith)
        requires 1 <= m <= 12;
    assert(0 <= d / 10 <= 9 && 0 <= d % 10 <= 9 && (d / 10) * 10 + d % 10 == d) by (nonlinear_arith)
        requires 1 <= d <= 31;
    lemma_digit_char(y / 1000);
    lemma_digit_char(y / 100 % 10);
    lemma_digit_char(y / 10 % 10);
    lemma_digit_char(y % 10);
    lemma_digit_char(m / 10);
    lemma_digit_char(m % 10);
    lemma_digit_char(d / 10);
    lemma_digit_char(d % 10);
}

/// The value of a digit character.
fn value_of(c: char) -> (d: u16)
    requires
        is_digit(c),
    ensures
        d as int == digit_value(c),
        d <= 9,
{
    proof { assert('0' as int == 48 && '9' as int == 57); }
    ((c as u32) - 48) as u16
}

impl ProtocolRevision {
    /// The revision `text` names: `Some` exactly when it is a well-formed
    /// `YYYY-MM-DD` date, whose text the revision then renders back.
    pub fn parse(text: &str) -> (r: Option<ProtocolRevision>)
        ensures
            r is Some == revision_date(text@),
            r matches Some(v) ==> revision_text(v) == text@ && v.year() == year_of(text@)
                && v.month() == month_of(text@) && v.day() == day_of(text@),
    {
        let cs = chars_of(text);
        if cs.len() != 10 {
            return None;
        }
        let shape = ascii_digit(cs[0]) && ascii_digit(cs[1]) && ascii_digit(cs[2]) && ascii_digit(cs[3])
            && cs[4] == '-' && ascii_digit(cs[5]) && ascii_digit(cs[6]) && cs[7] == '-'
            && ascii_digit(cs[8]) && ascii_digit(cs[9]);
        if !shape {
            return None;
        }
        let ghost t = cs@;
        proof {
            lemma_digit(t[0]);
            lemma_digit(t[1]);
            lemma_digit(t[2]);
            lemma_digit(t[3]);
            lemma_digit(t[5]);
            lemma_digit(t[6]);
            lemma_digit(t[8]);
            lemma_digit(t[9]);
        }
        let year: u16 = value_of(cs[0]) * 1000 + value_of(cs[1]) * 100 + value_of(cs[2]) * 10 + value_of(cs[3]);
        let month: u16 = value_of(cs[5]) * 10 + value_of(cs[6]);
        let day: u16 = value_of(cs[8]) * 10 + value_of(cs[9]);
        if month < 1 || month > 12 || day < 1 || day > 31 {
            return None;
        }
        let r = ProtocolRevision { year, month: month as u8, day: day as u8 };
        proof {
            lemma_four_digits(digit_value(t[0]), digit_value(t[1]), digit_value(t[2]), digit_value(t[3]));
            lemma_two_digits(digit_value(t[5]), digit_value(t[6]));
            lemma_two_digits(digit_value(t[8]), digit_value(t[9]));
            assert(revision_text(r) =~= text@);
        }
        Some(r)
    }

    /// The revision's date text: a well-formed date naming this revision.
    pub fn to_text(&self) -> (t: String)
        ensures
            t@ == revision_text(*self),
            revision_date(t@),
            year_of(t@) == self.year() && month_of(t@) == self.month() && day_of(t@) == self.day(),
    {
        proof {
            use_type_invariant(self);
            lemma_text_of_date(self.year(), self.month(), self.day());
        }
        let y = self.year as u64;
        let m = self.month as u64;
        let d = self.day as u64;
        let mut out = String::new();
        push_char(&mut out, digit(y / 1000));
        push_char(&mut out, digit(y / 100 % 10));
        push_char(&mut out, digit(y / 10 % 10));
        push_char(&mut out, digit(y % 10));
        push_char(&mut out, '-');
        push_char(&mut out, digit(m / 10));
        push_char(&mut out, digit(m % 10));
        push_char(&mut out, '-');
        push_char(&mut out, digit(d / 10));
        push_char(&mut out, digit(d % 10));
        assert(out@ =~= revision_text(*self));
        out
    }
}

/// Whether some ten-character window of `t` names a revision.
pub open spec fn contains_revision_text(t: Seq<char>) -> bool {
    exists|start: int| 0 <= start && start + 10 <= t.len() && revision_date(#[trigger] t.subrange(start, start + 10))
}

/// `true` when a revision date appears anywhere in `text`.
pub fn contains_revision(text: &str) -> (r: bool)
    ensures
        r == contains_revision_text(text@),
{
    let cs = chars_of(text);
    if cs.len() < 10 {
        return false;
    }
    let mut start: usize = 0;
    assert(cs@.len() == cs.len());
    while start <= cs.len() - 10
        invariant
            cs@ == text@,
            cs@.len() >= 10,
            start <= cs@.len() - 9,
            forall|s: int| 0 <= s < start ==> !revision_date(#[trigger] cs@.subrange(s, s + 10)),
        decreases cs@.len() - start,
    {
        let mut window: Vec<char> = Vec::new();
        let mut k: usize = 0;
        while k < 10
            invariant
                k <= 10,
                start + 10 <= cs@.len(),
                cs@.len() <= usize::MAX,
                window@ == cs@.subrange(start as int, start + k),
            decreases 10 - k,
        {
            window.push(cs[start + k]);
            k = k + 1;
            assert(window@ =~= cs@.subrange(start as int, start + k));
        }
        let w = crate::text::text_of_chars(&window);
        if ProtocolRevision::parse(w.as_str()).is_some() {
            return true;
        }
        start = start + 1;
    }
    assert forall|s: int| 0 <= s && s + 10 <= text@.len() implies !revision_date(#[trigger] text@.subrange(s, s + 10)) by {
        assert(s < start);
    }
    false
}

} // verus!
