//! The JSON values a trace carries, and the reads the checks make of them.

use vstd::prelude::*;
use crate::text::{decimal, signed_decimal, push_char, push_text, text_eq, u64_text, i64_text, chars_of};

verus! {

/// A JSON number as the parser delivered it.
pub enum Number {
    /// A non-negative integer.
    Unsigned(u64),
    /// A negative integer.
    Negative(i64),
    /// A number with a fraction or an exponent, kept as its decimal text.
    Decimal(String),
}

/// A JSON value. Object members keep the order the parser delivered them in.
pub enum Json {
    Null,
    Bool(bool),
    Num(Number),
    Str(String),
    Array(Vec<Json>),
    Object(Vec<(String, Json)>),
}

/// The value of the first member whose name is `key`.
pub open spec fn spec_lookup(members: Seq<(String, Json)>, key: Seq<char>) -> Option<Json>
    decreases members.len(),
{
    if members.len() == 0 {
        None
    } else if members[0].0@ == key {
        Some(members[0].1)
    } else {
        spec_lookup(members.drop_first(), key)
    }
}

pub proof fn lemma_lookup_first(members: Seq<(String, Json)>, key: Seq<char>, i: int)
    requires
        0 <= i < members.len(),
        members[i].0@ == key,
        forall|j: int| 0 <= j < i ==> members[j].0@ != key,
    ensures
        spec_lookup(members, key) == Some(members[i].1),
    decreases i,
{
    if i > 0 {
        lemma_lookup_first(members.drop_first(), key, i - 1);
    }
}

pub proof fn lemma_lookup_none(members: Seq<(String, Json)>, key: Seq<char>)
    requires
        forall|j: int| 0 <= j < members.len() ==> members[j].0@ != key,
    ensures
        spec_lookup(members, key) is None,
    decreases members.len(),
{
    if members.len() > 0 {
        lemma_lookup_none(members.drop_first(), key);
    }
}

/// Whether some member of `members` is named `key`.
pub open spec fn has_key(members: Seq<(String, Json)>, key: Seq<char>) -> bool {
    exists|j: int| 0 <= j < members.len() && members[j].0@ == key
}

pub proof fn lemma_lookup_some_iff_key(members: Seq<(String, Json)>, key: Seq<char>)
    ensures
        spec_lookup(members, key) is Some <==> has_key(members, key),
    decreases members.len(),
{
    if members.len() > 0 {
        lemma_lookup_some_iff_key(members.drop_first(), key);
        if members[0].0@ != key && has_key(members, key) {
            let j = choose|j: int| 0 <= j < members.len() && members[j].0@ == key;
            assert(members.drop_first()[j - 1].0@ == key);
        }
        if has_key(members.drop_first(), key) {
            let j = choose|j: int| 0 <= j < members.len() - 1 && members.drop_first()[j].0@ == key;
            assert(members[j + 1].0@ == key);
        }
    }
}

impl Json {
    /// The member named `key`, when this is an object that has one.
    pub open spec fn at(self, key: Seq<char>) -> Option<Json> {
        match self {
            Json::Object(members) => spec_lookup(members@, key),
            _ => None,
        }
    }

    /// The member named `key`, when this is an object that has one.
    pub fn get(&self, key: &str) -> (r: Option<&Json>)
        ensures
            r matches Some(v) ==> self.at(key@) == Some(*v),
            r is None ==> self.at(key@) is None,
    {
        match self {
            Json::Object(members) => {
                let mut i: usize = 0;
                while i < members.len()
                    invariant
                        i <= members@.len(),
                        *self == Json::Object(*members),
                        forall|j: int| 0 <= j < i ==> members@[j].0@ != key@,
                    decreases members@.len() - i,
                {
                    if text_eq(members[i].0.as_str(), key) {
                        proof {
                            lemma_lookup_first(members@, key@, i as int);
                        }
                        return Some(&members[i].1);
                    }
                    i = i + 1;
                }
                proof {
                    lemma_lookup_none(members@, key@);
                }
                None
            },
            _ => None,
        }
    }

    /// The text of a string value.
    pub open spec fn text(self) -> Option<Seq<char>> {
        match self {
            Json::Str(s) => Some(s@),
            _ => None,
        }
    }

    /// The string, when this is a string value.
    pub fn as_str(&self) -> (r: Option<&str>)
        ensures
            r matches Some(s) ==> self.text() == Some(s@),
            r is None ==> self.text() is None,
    {
        match self {
            Json::Str(s) => Some(s.as_str()),
            _ => None,
        }
    }

    /// The value as a signed 64-bit integer, when it is an integer that fits.
    pub open spec fn int_value(self) -> Option<int> {
        match self {
            Json::Num(Number::Unsigned(u)) => if u <= i64::MAX { Some(u as int) } else { None },
            Json::Num(Number::Negative(n)) => Some(n as int),
            _ => None,
        }
    }

    /// The value as a signed 64-bit integer, when it is an integer that fits.
    pub fn as_i64(&self) -> (r: Option<i64>)
        ensures
            r matches Some(n) ==> self.int_value() == Some(n as int),
            r is None ==> self.int_value() is None,
    {
        match self {
            Json::Num(Number::Unsigned(u)) => if *u <= i64::MAX as u64 { Some(*u as i64) } else { None },
            Json::Num(Number::Negative(n)) => Some(*n),
            _ => None,
        }
    }

    /// The value as an unsigned 64-bit integer, when it is a non-negative integer.
    pub open spec fn nat_value(self) -> Option<u64> {
        match self {
            Json::Num(Number::Unsigned(u)) => Some(u),
            _ => None,
        }
    }

    /// The value as an unsigned 64-bit integer, when it is a non-negative integer.
    pub fn as_u64(&self) -> (r: Option<u64>)
        ensures
            r == self.nat_value(),
    {
        match self {
            Json::Num(Number::Unsigned(u)) => Some(*u),
            _ => None,
        }
    }

    /// Whether this is an integer (of either sign).
    pub open spec fn spec_is_integer(self) -> bool {
        self is Num && !(self->Num_0 is Decimal)
    }

    /// Whether this is an integer (of either sign).
    pub fn is_integer(&self) -> (r: bool)
        ensures
            r == self.spec_is_integer(),
    {
        match self {
            Json::Num(Number::Decimal(_)) => false,
            Json::Num(_) => true,
            _ => false,
        }
    }

    /// Whether this is `null`.
    pub fn is_null(&self) -> (r: bool)
        ensures
            r == (*self is Null),
    {
        match self {
            Json::Null => true,
            _ => false,
        }
    }

    /// Whether this is a string.
    pub fn is_string(&self) -> (r: bool)
        ensures
            r == (*self is Str),
    {
        match self {
            Json::Str(_) => true,
            _ => false,
        }
    }

    /// Whether this is an object.
    pub fn is_object(&self) -> (r: bool)
        ensures
            r == (*self is Object),
    {
        match self {
            Json::Object(_) => true,
            _ => false,
        }
    }

    /// Whether this is the boolean `false`.
    pub fn is_false(&self) -> (r: bool)
        ensures
            r == (*self == Json::Bool(false)),
    {
        match self {
            Json::Bool(b) => !*b,
            _ => false,
        }
    }

    /// The members, when this is an object.
    pub fn as_object(&self) -> (r: Option<&Vec<(String, Json)>>)
        ensures
            r matches Some(m) ==> *self == Json::Object(*m),
            r is None ==> !(*self is Object),
    {
        match self {
            Json::Object(m) => Some(m),
            _ => None,
        }
    }

    /// The items, when this is an array.
    pub fn as_array(&self) -> (r: Option<&Vec<Json>>)
        ensures
            r matches Some(a) ==> *self == Json::Array(*a),
            r is None ==> !(*self is Array),
    {
        match self {
            Json::Array(a) => Some(a),
            _ => None,
        }
    }
}

/// The four hexadecimal digits of a control character in a `\u` escape.
pub open spec fn hex_char(d: nat) -> char {
    if d < 10 { crate::text::digit_char(d) }
    else if d == 10 { 'a' } else if d == 11 { 'b' } else if d == 12 { 'c' }
    else if d == 13 { 'd' } else if d == 14 { 'e' } else { 'f' }
}

/// How one character appears inside a JSON string literal.
pub open spec fn escaped_char(c: char) -> Seq<char> {
    if c == '"' { seq!['\\', '"'] }
    else if c == '\\' { seq!['\\', '\\'] }
    else if c == '\n' { seq!['\\', 'n'] }
    else if c == '\r' { seq!['\\', 'r'] }
    else if c == '\t' { seq!['\\', 't'] }
    else if c == '\x08' { seq!['\\', 'b'] }
    else if c == '\x0c' { seq!['\\', 'f'] }
    else if (c as u32) < 0x20 {
        seq!['\\', 'u', '0', '0', hex_char((c as u32 / 16) as nat), hex_char((c as u32 % 16) as nat)]
    } else {
        seq![c]
    }
}

/// The escaped body of a string literal.
pub open spec fn escaped(s: Seq<char>) -> Seq<char>
    decreases s.len(),
{
    if s.len() == 0 {
        seq![]
    } else {
        escaped(s.drop_last()) + escaped_char(s.last())
    }
}

/// A string literal: the escaped text in double quotes.
pub open spec fn quoted(s: Seq<char>) -> Seq<char> {
    seq!['"'] + escaped(s) + seq!['"']
}

/// The compact JSON text of a number.
pub open spec fn number_text(n: Number) -> Seq<char> {
    match n {
        Number::Unsigned(u) => decimal(u as nat),
        Number::Negative(i) => signed_decimal(i as int),
        Number::Decimal(t) => t@,
    }
}

/// The compact JSON text of a value: no whitespace, members in stored order.
pub open spec fn json_text(j: Json) -> Seq<char>
    decreases j, 0nat,
{
    match j {
        Json::Null => seq!['n', 'u', 'l', 'l'],
        Json::Bool(b) => if b { seq!['t', 'r', 'u', 'e'] } else { seq!['f', 'a', 'l', 's', 'e'] },
        Json::Num(n) => number_text(n),
        Json::Str(s) => quoted(s@),
        Json::Array(items) => seq!['['] + items_text(items@) + seq![']'],
        Json::Object(members) => seq!['{'] + members_text(members@) + seq!['}'],
    }
}

/// Array items, comma-separated.
pub open spec fn items_text(items: Seq<Json>) -> Seq<char>
    decreases items, 1nat,
{
    if items.len() == 0 {
        seq![]
    } else if items.len() == 1 {
        json_text(items[0])
    } else {
        items_text(items.drop_last()) + seq![','] + json_text(items.last())
    }
}

/// Object members as `"name":value`, comma-separated.
pub open spec fn members_text(members: Seq<(String, Json)>) -> Seq<char>
    decreases members, 1nat,
{
    if members.len() == 0 {
        seq![]
    } else if members.len() == 1 {
        quoted(members[0].0@) + seq![':'] + json_text(members[0].1)
    } else {
        members_text(members.drop_last()) + seq![','] + quoted(members.last().0@) + seq![':']
            + json_text(members.last().1)
    }
}

fn hex_digit(d: u32) -> (c: char)
    requires
        d < 16,
    ensures
        c == hex_char(d as nat),
{
    if d == 0 { '0' } else if d == 1 { '1' } else if d == 2 { '2' } else if d == 3 { '3' }
    else if d == 4 { '4' } else if d == 5 { '5' } else if d == 6 { '6' } else if d == 7 { '7' }
    else if d == 8 { '8' } else if d == 9 { '9' } else if d == 10 { 'a' } else if d == 11 { 'b' }
    else if d == 12 { 'c' } else if d == 13 { 'd' } else if d == 14 { 'e' } else { 'f' }
}

fn push_escaped_char(out: &mut String, c: char)
    ensures
        final(out)@ == old(out)@ + escaped_char(c),
{
    if c == '"' {
        push_char(out, '\\');
        push_char(out, '"');
    } else if c == '\\' {
        push_char(out, '\\');
        push_char(out, '\\');
    } else if c == '\n' {
        push_char(out, '\\');
        push_char(out, 'n');
    } else if c == '\r' {
        push_char(out, '\\');
        push_char(out, 'r');
    } else if c == '\t' {
        push_char(out, '\\');
        push_char(out, 't');
    } else if c == '\x08' {
        push_char(out, '\\');
        push_char(out, 'b');
    } else if c == '\x0c' {
        push_char(out, '\\');
        push_char(out, 'f');
    } else if (c as u32) < 0x20 {
        push_char(out, '\\');
        push_char(out, 'u');
        push_char(out, '0');
        push_char(out, '0');
        push_char(out, hex_digit(c as u32 / 16));
        push_char(out, hex_digit(c as u32 % 16));
    } else {
        push_char(out, c);
    }
    assert(final(out)@ =~= old(out)@ + escaped_char(c));
}

/// Appends the string literal for `s`.
pub fn push_quoted(out: &mut String, s: &str)
    ensures
        final(out)@ == old(out)@ + quoted(s@),
{
    let cs = chars_of(s);
    let ghost start = out@;
    push_char(out, '"');
    let mut i: usize = 0;
    while i < cs.len()
        invariant
            i <= cs@.len(),
            cs@ == s@,
            out@ == start + seq!['"'] + escaped(cs@.take(i as int)),
        decreases cs@.len() - i,
    {
        push_escaped_char(out, cs[i]);
        proof {
            assert(cs@.take(i + 1).drop_last() =~= cs@.take(i as int));
        }
        i = i + 1;
        assert(out@ =~= start + seq!['"'] + escaped(cs@.take(i as int)));
    }
    push_char(out, '"');
    assert(cs@.take(cs@.len() as int) =~= cs@);
    assert(out@ =~= start + quoted(s@));
}

/// Appends the compact JSON text of `j`.
pub fn push_json(out: &mut String, j: &Json)
    ensures
        final(out)@ == old(out)@ + json_text(*j),
    decreases j,
{
    let ghost start = out@;
    match j {
        Json::Null => {
            push_text(out, "null");
            proof { reveal_strlit("null"); }
            assert(out@ =~= start + json_text(*j));
        },
        Json::Bool(b) => {
            if *b {
                push_text(out, "true");
                proof { reveal_strlit("true"); }
            } else {
                push_text(out, "false");
                proof { reveal_strlit("false"); }
            }
            assert(out@ =~= start + json_text(*j));
        },
        Json::Num(Number::Unsigned(u)) => {
            let t = u64_text(*u);
            push_text(out, t.as_str());
        },
        Json::Num(Number::Negative(n)) => {
            let t = i64_text(*n);
            push_text(out, t.as_str());
        },
        Json::Num(Number::Decimal(t)) => {
            push_text(out, t.as_str());
        },
        Json::Str(s) => {
            push_quoted(out, s.as_str());
        },
        Json::Array(items) => {
            push_char(out, '[');
            let mut i: usize = 0;
            while i < items.len()
                invariant
                    i <= items@.len(),
                    *j == Json::Array(*items),
                    out@ == start + seq!['['] + items_text(items@.take(i as int)),
                decreases items@.len() - i,
            {
                proof {
                    assert(items@.take(i + 1).drop_last() =~= items@.take(i as int));
                }
                if i > 0 {
                    push_char(out, ',');
                }
                proof {
                    vstd::std_specs::vec::axiom_vec_index_decreases(*items, i as int);
                    assert(decreases_to!(*j => (*j)->Array_0));
                }
                push_json(out, &items[i]);
                i = i + 1;
                assert(out@ =~= start + seq!['['] + items_text(items@.take(i as int)));
            }
            push_char(out, ']');
            assert(items@.take(items@.len() as int) =~= items@);
            assert(out@ =~= start + json_text(*j));
        },
        Json::Object(members) => {
            push_char(out, '{');
            let mut i: usize = 0;
            while i < members.len()
                invariant
                    i <= members@.len(),
                    *j == Json::Object(*members),
                    out@ == start + seq!['{'] + members_text(members@.take(i as int)),
                decreases members@.len() - i,
            {
                proof {
                    assert(members@.take(i + 1).drop_last() =~= members@.take(i as int));
                }
                if i > 0 {
                    push_char(out, ',');
                }
                push_quoted(out, members[i].0.as_str());
                push_char(out, ':');
                proof {
                    vstd::std_specs::vec::axiom_vec_index_decreases(*members, i as int);
                    assert(decreases_to!(*j => (*j)->Object_0));
                    assert(decreases_to!(members[i as int] => members[i as int].1));
                }
                push_json(out, &members[i].1);
                i = i + 1;
                assert(out@ =~= start + seq!['{'] + members_text(members@.take(i as int)));
            }
            push_char(out, '}');
            assert(members@.take(members@.len() as int) =~= members@);
            assert(out@ =~= start + json_text(*j));
        },
    }
}

impl Json {
    /// The compact JSON text of this value.
    pub fn to_text(&self) -> (r: String)
        ensures
            r@ == json_text(*self),
    {
        let mut out = String::new();
        push_json(&mut out, self);
        assert(out@ =~= json_text(*self));
        out
    }
}

} // verus!
