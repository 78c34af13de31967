//! The `_meta` key grammar: an optional prefix of dot-separated labels, a `/`,
//! and a name.

use vstd::prelude::*;
use crate::checks::sites::{entries, lemma_entries_take, lemma_entries_all};
use crate::checks::entry_views;
use crate::checks::{FindingSink, entry_seqs};
use crate::checks::sites::{sites, lemma_sites_take, lemma_sites_all};
use crate::context::TraceContext;
use crate::json::Json;
use crate::trace::TraceEvent;
use crate::text::{chars_of, owned, push_text, debug_text, debug_quoted, is_alpha, is_alnum, ascii_alpha,
    ascii_alnum, text_of_chars};

verus! {

/// `s` split at every `c`: always at least one (possibly empty) part.
pub open spec fn split_at_char(s: Seq<char>, c: char) -> Seq<Seq<char>>
    decreases s.len(),
{
    if s.len() == 0 {
        seq![Seq::empty()]
    } else {
        let prev = split_at_char(s.drop_last(), c);
        if s.last() == c {
            prev.push(Seq::empty())
        } else {
            prev.update(prev.len() - 1, prev.last().push(s.last()))
        }
    }
}

proof fn lemma_split_nonempty(s: Seq<char>, c: char)
    ensures
        split_at_char(s, c).len() >= 1,
    decreases s.len(),
{
    if s.len() > 0 {
        lemma_split_nonempty(s.drop_last(), c);
    }
}

/// The index of the first `c` in `s`.
pub open spec fn first_index(s: Seq<char>, c: char) -> Option<int>
    decreases s.len(),
{
    if s.len() == 0 {
        None
    } else {
        match first_index(s.drop_last(), c) {
            Some(i) => Some(i),
            None => if s.last() == c { Some(s.len() - 1) } else { None },
        }
    }
}

/// A prefix label: starts with a letter, ends with a letter or digit, and
/// holds only letters, digits and hyphens.
pub open spec fn label_ok(label: Seq<char>) -> bool {
    &&& label.len() > 0
    &&& is_alpha(label[0])
    &&& is_alnum(label.last())
    &&& forall|i: int| 0 <= i < label.len() ==> is_alnum(#[trigger] label[i]) || label[i] == '-'
}

/// A name character: a letter, a digit, `-`, `_` or `.`.
pub open spec fn name_char_ok(c: char) -> bool {
    is_alnum(c) || c == '-' || c == '_' || c == '.'
}

/// What is wrong with a `_meta` key.
pub enum MetaKeyFault {
    /// A prefix label breaks the label rule; the first such label.
    PrefixLabel(Seq<char>),
    /// The name does not begin and end with a letter or digit.
    NameEnds,
    /// The name holds a character outside letters, digits, `-`, `_` and `.`.
    NameChars,
}

/// The index of the first label of `labels` that breaks the label rule.
pub open spec fn first_bad_label(labels: Seq<Seq<char>>) -> Option<int>
    decreases labels.len(),
{
    if labels.len() == 0 {
        None
    } else {
        match first_bad_label(labels.drop_last()) {
            Some(k) => Some(k),
            None => if !label_ok(labels.last()) { Some(labels.len() - 1) } else { None },
        }
    }
}

/// The prefix of a `_meta` key: what precedes its first `/`, if it has one.
pub open spec fn meta_prefix(key: Seq<char>) -> Option<Seq<char>> {
    match first_index(key, '/') {
        Some(i) => Some(key.take(i)),
        None => None,
    }
}

/// The name of a `_meta` key: what follows its first `/`, or the whole key.
pub open spec fn meta_name(key: Seq<char>) -> Seq<char> {
    match first_index(key, '/') {
        Some(i) => key.skip(i + 1),
        None => key,
    }
}

/// Whether every character of a name is a letter, digit, `-`, `_` or `.`.
pub open spec fn name_chars_ok(name: Seq<char>) -> bool {
    forall|i: int| 0 <= i < name.len() ==> name_char_ok(#[trigger] name[i])
}

/// The fault of a `_meta` key, if any: the prefix (before the first `/`) is
/// judged label by label first, then the name (after it, or the whole key).
pub open spec fn meta_key_fault(key: Seq<char>) -> Option<MetaKeyFault> {
    let bad = match meta_prefix(key) {
        Some(p) => first_bad_label(split_at_char(p, '.')),
        None => None,
    };
    let name = meta_name(key);
    match bad {
        Some(k) => Some(MetaKeyFault::PrefixLabel(split_at_char(meta_prefix(key).unwrap(), '.')[k])),
        None => if name.len() > 0 && !(is_alnum(name[0]) && is_alnum(name.last())) {
            Some(MetaKeyFault::NameEnds)
        } else if !name_chars_ok(name) {
            Some(MetaKeyFault::NameChars)
        } else {
            None
        },
    }
}

/// The sentence a fault is reported with.
pub open spec fn meta_key_message(f: MetaKeyFault) -> Seq<char> {
    match f {
        MetaKeyFault::PrefixLabel(label) => "has prefix label "@ + debug_quoted(label)
            + "; labels must start with a letter, end with a letter or digit, and contain only letters, digits, or hyphens"@,
        MetaKeyFault::NameEnds => "has a name that does not begin and end with an alphanumeric character"@,
        MetaKeyFault::NameChars => "has a name with characters outside alphanumerics, hyphens, underscores, and dots"@,
    }
}

fn check_label(label: &Vec<char>) -> (r: bool)
    ensures
        r == label_ok(label@),
{
    if label.len() == 0 {
        return false;
    }
    if !ascii_alpha(label[0]) || !ascii_alnum(label[label.len() - 1]) {
        return false;
    }
    let mut i: usize = 0;
    while i < label.len()
        invariant
            i <= label@.len(),
            forall|j: int| 0 <= j < i ==> is_alnum(#[trigger] label@[j]) || label@[j] == '-',
        decreases label@.len() - i,
    {
        if !(ascii_alnum(label[i]) || label[i] == '-') {
            return false;
        }
        i = i + 1;
    }
    true
}

/// Judges a `_meta` key against the grammar, naming what is wrong.
#[verifier::loop_isolation(false)]
#[verifier::rlimit(50)]
pub fn validate_meta_key(key: &str) -> (r: Result<(), String>)
    ensures
        r is Ok <==> meta_key_fault(key@) is None,
        r matches Err(m) ==> meta_key_fault(key@) matches Some(f) && m@ == meta_key_message(f),
{
    let cs = chars_of(key);
    // Locate the first '/'.
    let mut slash: Option<usize> = None;
    let mut i: usize = 0;
    while i < cs.len()
        invariant
            i <= cs@.len(),
            slash matches Some(p) ==> p < i,
            slash == match first_index(cs@.take(i as int), '/') { Some(p) => Some(p as usize), None => None::<usize> },
        decreases cs@.len() - i,
    {
        proof { assert(cs@.take(i + 1).drop_last() =~= cs@.take(i as int)); }
        if slash.is_none() && cs[i] == '/' {
            slash = Some(i);
        }
        i = i + 1;
    }
    assert(cs@.take(cs@.len() as int) =~= cs@);
    assert(cs@ == key@);
    let mut prefix: Vec<char> = Vec::new();
    let mut name: Vec<char> = Vec::new();
    let mut j: usize = 0;
    while j < cs.len()
        invariant
            j <= cs@.len(),
            slash == match first_index(cs@, '/') { Some(p) => Some(p as usize), None => None::<usize> },
            match slash {
                Some(p) => p < cs@.len() && prefix@ == cs@.take(if j < p { j as int } else { p as int })
                    && name@ == (if j <= p { Seq::<char>::empty() } else { cs@.subrange(p + 1, j as int) }),
                None => prefix@.len() == 0 && name@ == cs@.take(j as int),
            },
        decreases cs@.len() - j,
    {
        match slash {
            Some(p) => {
                if j < p {
                    prefix.push(cs[j]);
                } else if j > p {
                    name.push(cs[j]);
                }
            },
            None => {
                name.push(cs[j]);
            },
        }
        proof {
            match slash {
                Some(p) => {
                    assert(prefix@ =~= cs@.take(if j + 1 < p { j + 1 } else { p as int }));
                    assert(name@ =~= (if j + 1 <= p { Seq::<char>::empty() } else { cs@.subrange(p + 1, j + 1) }));
                },
                None => {
                    assert(name@ =~= cs@.take(j + 1));
                },
            }
        }
        j = j + 1;
    }
    proof {
        match slash {
            Some(p) => {
                lemma_first_index_bound(cs@, '/');
                assert(name@ =~= cs@.skip(p + 1));
            },
            None => {
                assert(name@ =~= cs@);
            },
        }
    }
    if slash.is_some() {
        let parts = split_chars(&prefix, '.');
        let mut k: usize = 0;
        while k < parts.len()
            invariant
                k <= parts@.len(),
                char_views(parts@) == split_at_char(prefix@, '.'),
                first_bad_label(char_views(parts@).take(k as int)) is None,
            decreases parts@.len() - k,
        {
            proof { assert(char_views(parts@).take(k + 1).drop_last() =~= char_views(parts@).take(k as int)); }
            if !check_label(&parts[k]) {
                proof {
                    assert(char_views(parts@)[k as int] == parts@[k as int]@);
                    lemma_first_bad_label_extends(char_views(parts@), k as int);
                }
                let label = text_of_chars(&parts[k]);
                let mut m = owned("has prefix label ");
                let quoted = debug_text(label.as_str());
                push_text(&mut m, quoted.as_str());
                push_text(&mut m, "; labels must start with a letter, end with a letter or digit, and contain only letters, digits, or hyphens");
                proof {
                    reveal_strlit("has prefix label ");
                    reveal_strlit("; labels must start with a letter, end with a letter or digit, and contain only letters, digits, or hyphens");
                }
                return Err(m);
            }
            k = k + 1;
            assert(first_bad_label(char_views(parts@).take(k as int)) is None);
        }
        assert(char_views(parts@).take(parts@.len() as int) =~= char_views(parts@));
    }
    if name.len() > 0 && !(ascii_alnum(name[0]) && ascii_alnum(name[name.len() - 1])) {
        proof { reveal_strlit("has a name that does not begin and end with an alphanumeric character"); }
        return Err(owned("has a name that does not begin and end with an alphanumeric character"));
    }
    let mut q: usize = 0;
    while q < name.len()
        invariant
            q <= name@.len(),
            forall|i: int| 0 <= i < q ==> name_char_ok(#[trigger] name@[i]),
        decreases name@.len() - q,
    {
        let c = name[q];
        if !(ascii_alnum(c) || c == '-' || c == '_' || c == '.') {
            proof {
                reveal_strlit("has a name with characters outside alphanumerics, hyphens, underscores, and dots");
                assert(meta_name(key@) == name@);
                assert(!name_char_ok(meta_name(key@)[q as int]));
            }
            return Err(owned("has a name with characters outside alphanumerics, hyphens, underscores, and dots"));
        }
        q = q + 1;
    }
    Ok(())
}

/// The views of a list of character vectors.
pub open spec fn char_views(v: Seq<Vec<char>>) -> Seq<Seq<char>> {
    v.map_values(|x: Vec<char>| x@)
}

proof fn lemma_first_index_bound(s: Seq<char>, c: char)
    ensures
        first_index(s, c) matches Some(i) ==> 0 <= i < s.len() && s[i] == c,
    decreases s.len(),
{
    if s.len() > 0 {
        lemma_first_index_bound(s.drop_last(), c);
    }
}

proof fn lemma_first_bad_label_extends(labels: Seq<Seq<char>>, k: int)
    requires
        0 <= k < labels.len(),
        first_bad_label(labels.take(k)) is None,
        !label_ok(labels[k]),
    ensures
        first_bad_label(labels) == Some(k),
    decreases labels.len(),
{
    if k < labels.len() - 1 {
        assert(labels.drop_last().take(k) =~= labels.take(k));
        lemma_first_bad_label_extends(labels.drop_last(), k);
    } else {
        assert(labels.drop_last() =~= labels.take(k));
    }
}

/// `s` split at every `c`.
pub fn split_chars(s: &Vec<char>, c: char) -> (parts: Vec<Vec<char>>)
    ensures
        char_views(parts@) == split_at_char(s@, c),
{
    let mut parts: Vec<Vec<char>> = Vec::new();
    parts.push(Vec::new());
    assert(char_views(parts@) =~= split_at_char(s@.take(0), c));
    let mut i: usize = 0;
    while i < s.len()
        invariant
            i <= s@.len(),
            parts@.len() >= 1,
            char_views(parts@) == split_at_char(s@.take(i as int), c),
        decreases s@.len() - i,
    {
        proof { assert(s@.take(i + 1).drop_last() =~= s@.take(i as int)); }
        if s[i] == c {
            parts.push(Vec::new());
        } else {
            let last = parts.len() - 1;
            let mut current = parts.remove(last);
            current.push(s[i]);
            parts.push(current);
        }
        assert(char_views(parts@) =~= split_at_char(s@.take(i + 1), c));
        i = i + 1;
    }
    assert(s@.take(s@.len() as int) =~= s@);
    parts
}

/// One finding per key of `members` that breaks the grammar.
pub open spec fn bad_key_sites(members: Seq<(String, Json)>, seq: u64) -> Seq<Option<u64>>
    decreases members.len(),
{
    if members.len() == 0 {
        Seq::empty()
    } else {
        bad_key_sites(members.drop_last(), seq)
            + if meta_key_fault(members.last().0@) is Some { seq![Some(seq)] } else { Seq::empty() }
    }
}

/// The findings for the `_meta` of one envelope member (`params` or `result`).
pub open spec fn envelope_meta_sites(p: Json, envelope: Seq<char>, seq: u64) -> Seq<Option<u64>> {
    match p.at(envelope) {
        Some(member) => match member.at("_meta"@) {
            Some(Json::Object(m)) => bad_key_sites(m@, seq),
            _ => Seq::empty(),
        },
        None => Seq::empty(),
    }
}

/// The `_meta` findings at one event: `params._meta`'s keys, then `result._meta`'s.
pub open spec fn meta_key_site(e: TraceEvent) -> Seq<Option<u64>> {
    match e.payload() {
        Some(p) => envelope_meta_sites(p, "params"@, e.seq) + envelope_meta_sites(p, "result"@, e.seq),
        None => Seq::empty(),
    }
}

/// The findings, as (seq, sentence), for the keys of one `_meta` object.
pub open spec fn bad_key_entries(members: Seq<(String, Json)>, envelope: Seq<char>, seq: u64) -> Seq<(Option<u64>, Seq<char>)>
    decreases members.len(),
{
    if members.len() == 0 {
        Seq::empty()
    } else {
        bad_key_entries(members.drop_last(), envelope, seq)
            + match meta_key_fault(members.last().0@) {
                Some(f) => seq![(Some(seq), envelope + "._meta key "@ + crate::text::debug_quoted(members.last().0@)
                    + " "@ + meta_key_message(f))],
                None => Seq::empty(),
            }
    }
}

/// The findings, as (seq, sentence), for the `_meta` of one envelope member.
pub open spec fn envelope_meta_entries(p: Json, envelope: Seq<char>, seq: u64) -> Seq<(Option<u64>, Seq<char>)> {
    match p.at(envelope) {
        Some(member) => match member.at("_meta"@) {
            Some(Json::Object(m)) => bad_key_entries(m@, envelope, seq),
            _ => Seq::empty(),
        },
        None => Seq::empty(),
    }
}

/// The `_meta` findings, as (seq, sentence), at one event.
pub open spec fn meta_key_entry(e: TraceEvent) -> Seq<(Option<u64>, Seq<char>)> {
    match e.payload() {
        Some(p) => envelope_meta_entries(p, "params"@, e.seq) + envelope_meta_entries(p, "result"@, e.seq),
        None => Seq::empty(),
    }
}

fn check_envelope_meta(payload: &Json, envelope: &str, seq: u64, sink: &mut FindingSink)
    ensures
        final(sink).check_id() == old(sink).check_id(),
        final(sink).subject_count() == old(sink).subject_count(),
        entry_seqs(final(sink).found()) == entry_seqs(old(sink).found()) + envelope_meta_sites(*payload, envelope@, seq),
        entry_views(final(sink).found()) == entry_views(old(sink).found()) + envelope_meta_entries(*payload, envelope@, seq),
{
    let members = match payload.get(envelope) {
        Some(member) => match member.get("_meta") {
            Some(meta) => match meta.as_object() {
                Some(m) => m,
                None => { return; },
            },
            None => { return; },
        },
        None => { return; },
    };
    let mut i: usize = 0;
    while i < members.len()
        invariant
            i <= members@.len(),
            sink.check_id() == old(sink).check_id(),
            sink.subject_count() == old(sink).subject_count(),
            entry_seqs(sink.found()) == entry_seqs(old(sink).found()) + bad_key_sites(members@.take(i as int), seq),
            entry_views(sink.found()) == entry_views(old(sink).found()) + bad_key_entries(members@.take(i as int), envelope@, seq),
        decreases members@.len() - i,
    {
        proof { assert(members@.take(i + 1).drop_last() =~= members@.take(i as int)); }
        let key = &members[i].0;
        match validate_meta_key(key.as_str()) {
            Ok(()) => {},
            Err(reason) => {
                let mut d = owned(envelope);
                push_text(&mut d, "._meta key ");
                let quoted = debug_text(key.as_str());
                push_text(&mut d, quoted.as_str());
                push_text(&mut d, " ");
                push_text(&mut d, reason.as_str());
                sink.push(Some(seq), d);
            },
        }
        i = i + 1;
    }
    assert(members@.take(members@.len() as int) =~= members@);
}

/// `BASE-*`: every key of an envelope's `_meta` (`params._meta`,
/// `result._meta`) follows the key grammar.
pub fn meta_key_format(context: &TraceContext<'_>, sink: &mut FindingSink)
    ensures
        final(sink).check_id() == old(sink).check_id(),
        final(sink).subject_count() == old(sink).subject_count(),
        entry_seqs(final(sink).found()) == entry_seqs(old(sink).found())
            + sites(context.trace(), |e: TraceEvent| meta_key_site(e)),
        entry_views(final(sink).found()) == entry_views(old(sink).found())
            + entries(context.trace(), |e: TraceEvent| meta_key_entry(e)),
{
    let ghost f = |e: TraceEvent| meta_key_site(e);
    let ghost h = |e: TraceEvent| meta_key_entry(e);
    let n = context.len();
    let mut i: usize = 0;
    while i < n
        invariant
            n == context.trace().len(),
            i <= n,
            f == (|e: TraceEvent| meta_key_site(e)),
            h == (|e: TraceEvent| meta_key_entry(e)),
            sink.check_id() == old(sink).check_id(),
            sink.subject_count() == old(sink).subject_count(),
            entry_seqs(sink.found()) == entry_seqs(old(sink).found()) + sites(context.trace().take(i as int), f),
            entry_views(sink.found()) == entry_views(old(sink).found()) + entries(context.trace().take(i as int), h),
        decreases n - i,
    {
        let event = context.event(i);
        proof { lemma_sites_take(context.trace(), f, i as int); lemma_entries_take(context.trace(), h, i as int); }
        if let Some(payload) = event.message_payload() {
            check_envelope_meta(payload, "params", event.seq, sink);
            check_envelope_meta(payload, "result", event.seq, sink);
        }
        i = i + 1;
    }
    proof { lemma_sites_all(context.trace(), f); lemma_entries_all(context.trace(), h); }
}

} // verus!
