//! `x-mcp-header` designations: the tool parameters a `2026-07-28` client must
//! mirror into `Mcp-Param-*` headers, read from the tool definitions a trace
//! carries.

use vstd::prelude::*;
use crate::context::TraceContext;
use crate::json::{Json, spec_lookup};
use crate::text::{owned, push_char, push_text, text_eq, chars_of, texts};
use crate::trace::TraceEvent;

verus! {

/// One `x-mcp-header` annotation, as plain values.
pub struct DesignationView {
    /// The chain of `properties` keys leading to the annotated property.
    pub path: Seq<Seq<char>>,
    /// The `x-mcp-header` value, verbatim.
    pub name: Seq<char>,
    /// The annotated property's declared `type`, when it declares one as a string.
    pub declared_type: Option<Seq<char>>,
}

/// One `x-mcp-header` annotation found in a tool's `inputSchema`.
pub struct Designation {
    /// The chain of `properties` keys leading to the annotated property.
    pub path: Vec<String>,
    /// The `x-mcp-header` value, verbatim.
    pub name: String,
    /// The header it constructs: `mcp-param-` and the name, lowercased.
    pub header: String,
    /// The annotated property's declared `type`, when it declares one.
    pub declared_type: Option<String>,
}

/// ASCII lowercase of one character.
pub open spec fn lower_char(c: char) -> char {
    if 'A' <= c && c <= 'Z' { ((c as u32) + 32) as char } else { c }
}

/// ASCII lowercase of a text.
pub open spec fn ascii_lower(s: Seq<char>) -> Seq<char> {
    s.map_values(|c: char| lower_char(c))
}

/// The header a designation constructs.
pub open spec fn header_of(name: Seq<char>) -> Seq<char> {
    "mcp-param-"@ + ascii_lower(name)
}

impl Designation {
    /// The designation as plain values.
    pub open spec fn view_of(self) -> DesignationView {
        DesignationView { path: texts(self.path@), name: self.name@, declared_type: match self.declared_type {
            Some(t) => Some(t@),
            None => None,
        } }
    }

    /// Whether the header field agrees with the name.
    pub open spec fn header_agrees(self) -> bool {
        self.header@ == header_of(self.name@)
    }
}

/// The views of a list of designations.
pub open spec fn designation_views(v: Seq<Designation>) -> Seq<DesignationView> {
    v.map_values(|d: Designation| d.view_of())
}

/// Whether every designation's header agrees with its name.
pub open spec fn headers_agree(v: Seq<Designation>) -> bool {
    forall|i: int| 0 <= i < v.len() ==> #[trigger] v[i].header_agrees()
}

/// The annotation a property at `path` carries, if any.
pub open spec fn annotation_at(sub: Json, path: Seq<Seq<char>>) -> Seq<DesignationView> {
    match sub.at("x-mcp-header"@) {
        Some(Json::Str(n)) => seq![DesignationView {
            path: path,
            name: n@,
            declared_type: match sub.at("type"@) {
                Some(t) => t.text(),
                None => None,
            },
        }],
        _ => Seq::empty(),
    }
}

/// The annotations `schema` declares along chains of `properties` keys, in
/// schema order: a property's own annotation, then those beneath it.
pub open spec fn designations_of(schema: Json, path: Seq<Seq<char>>) -> Seq<DesignationView>
    decreases schema, 2nat,
{
    match schema {
        Json::Object(members) => props_in(members@, path),
        _ => Seq::empty(),
    }
}

/// The annotations under the first `properties` member of an object.
pub open spec fn props_in(members: Seq<(String, Json)>, path: Seq<Seq<char>>) -> Seq<DesignationView>
    decreases members, 1nat,
{
    if members.len() == 0 {
        Seq::empty()
    } else if members[0].0@ == "properties"@ {
        match members[0].1 {
            Json::Object(props) => props_designations(props@, path),
            _ => Seq::empty(),
        }
    } else {
        props_in(members.drop_first(), path)
    }
}

/// The annotations of a `properties` object's members, in order.
pub open spec fn props_designations(props: Seq<(String, Json)>, path: Seq<Seq<char>>) -> Seq<DesignationView>
    decreases props, 0nat,
{
    if props.len() == 0 {
        Seq::empty()
    } else {
        let p = path.push(props.last().0@);
        props_designations(props.drop_last(), path) + annotation_at(props.last().1, p)
            + designations_of(props.last().1, p)
    }
}

proof fn lemma_props_in(members: Seq<(String, Json)>, path: Seq<Seq<char>>)
    ensures
        props_in(members, path) == match spec_lookup(members, "properties"@) {
            Some(Json::Object(props)) => props_designations(props@, path),
            _ => Seq::empty(),
        },
    decreases members.len(),
{
    if members.len() > 0 && members[0].0@ != "properties"@ {
        lemma_props_in(members.drop_first(), path);
    }
}

pub fn lower_text(s: &str) -> (r: String)
    ensures
        r@ == ascii_lower(s@),
{
    let cs = chars_of(s);
    let mut out = String::new();
    let mut i: usize = 0;
    while i < cs.len()
        invariant
            i <= cs@.len(),
            cs@ == s@,
            out@ == ascii_lower(s@.take(i as int)),
        decreases cs@.len() - i,
    {
        let c = cs[i];
        let l = if 'A' <= c && c <= 'Z' {
            ((c as u8) + 32) as char
        } else {
            c
        };
        assert(l == lower_char(c));
        push_char(&mut out, l);
        assert(out@ =~= ascii_lower(s@.take(i + 1)));
        i = i + 1;
    }
    assert(s@.take(s@.len() as int) =~= s@);
    out
}

/// The header a designation named `name` constructs.
pub fn param_header(name: &str) -> (r: String)
    ensures
        r@ == header_of(name@),
{
    let lowered = lower_text(name);
    let mut h = owned("mcp-param-");
    push_text(&mut h, lowered.as_str());
    h
}

fn clone_path(path: &Vec<String>) -> (r: Vec<String>)
    ensures
        texts(r@) == texts(path@),
{
    let mut out: Vec<String> = Vec::new();
    let mut i: usize = 0;
    while i < path.len()
        invariant
            i <= path@.len(),
            texts(out@) == texts(path@.take(i as int)),
        decreases path@.len() - i,
    {
        let ghost before = out@;
        let t = owned(path[i].as_str());
        out.push(t);
        assert(out@ == before.push(t));
        assert(texts(out@) =~= texts(before).push(path@[i as int]@));
        assert(texts(path@.take(i + 1)) =~= texts(path@.take(i as int)).push(path@[i as int]@));
        i = i + 1;
    }
    assert(path@.take(path@.len() as int) =~= path@);
    out
}

/// Appends the annotations `schema` declares beneath `path`.
#[verifier::loop_isolation(false)]
fn collect_designations(schema: &Json, path: &mut Vec<String>, out: &mut Vec<Designation>)
    ensures
        texts(final(path)@) == texts(old(path)@),
        designation_views(final(out)@) == designation_views(old(out)@) + designations_of(*schema, texts(old(path)@)),
        headers_agree(old(out)@) ==> headers_agree(final(out)@),
    decreases schema,
{
    let ghost base = texts(path@);
    let ghost start = out@;
    let members = match schema {
        Json::Object(m) => m,
        _ => {
            assert(designation_views(out@) =~= designation_views(start) + Seq::<DesignationView>::empty());
            return;
        },
    };
    let mut at: usize = 0;
    let mut found = false;
    while at < members.len() && !found
        invariant
            at <= members@.len(),
            found ==> at < members@.len() && members@[at as int].0@ == "properties"@,
            forall|j: int| 0 <= j < at ==> members@[j].0@ != "properties"@,
        decreases members@.len() - at, if found { 0int } else { 1int },
    {
        if text_eq(members[at].0.as_str(), "properties") {
            found = true;
        } else {
            at = at + 1;
        }
    }
    proof { lemma_props_in(members@, base); }
    if !found {
        proof { crate::json::lemma_lookup_none(members@, "properties"@); }
        assert(designation_views(out@) =~= designation_views(start) + designations_of(*schema, base));
        return;
    }
    proof { crate::json::lemma_lookup_first(members@, "properties"@, at as int); }
    let props = match &members[at].1 {
        Json::Object(p) => p,
        _ => {
            assert(designation_views(out@) =~= designation_views(start) + designations_of(*schema, base));
            return;
        },
    };
    proof {
        vstd::std_specs::vec::axiom_vec_index_decreases(*members, at as int);
        assert(decreases_to!(*schema => (*schema)->Object_0));
        assert(decreases_to!(members[at as int] => members[at as int].1));
    }
    let mut k: usize = 0;
    while k < props.len()
        invariant
            k <= props@.len(),
            texts(path@) == base,
            designation_views(out@) == designation_views(start) + props_designations(props@.take(k as int), base),
            headers_agree(start) ==> headers_agree(out@),
        decreases props@.len() - k,
    {
        proof {
            assert(props@.take(k + 1).drop_last() =~= props@.take(k as int));
        }
        let key = &props[k].0;
        let sub = &props[k].1;
        proof {
            vstd::std_specs::vec::axiom_vec_index_decreases(*members, at as int);
            vstd::std_specs::vec::axiom_vec_index_decreases(*props, k as int);
            assert(decreases_to!(*schema => (*schema)->Object_0));
            assert(decreases_to!(members[at as int] => members[at as int].1));
            assert(decreases_to!(members[at as int].1 => (members[at as int].1)->Object_0));
            assert(decreases_to!(props[k as int] => props[k as int].1));
            assert(decreases_to!(*schema => *sub));
        }
        let ghost p = base.push(key@);
        let ghost before_path = path@;
        path.push(owned(key.as_str()));
        assert(texts(path@) =~= p);
        let ghost mid = out@;
        match sub.get("x-mcp-header") {
            Some(Json::Str(name)) => {
                let declared_type = match sub.get("type") {
                    Some(t) => match t.as_str() {
                        Some(s) => Some(owned(s)),
                        None => None,
                    },
                    None => None,
                };
                let d = Designation {
                    path: clone_path(path),
                    name: owned(name.as_str()),
                    header: param_header(name.as_str()),
                    declared_type,
                };
                out.push(d);
                assert(designation_views(out@) =~= designation_views(mid) + annotation_at(*sub, p));
            },
            _ => {
                assert(designation_views(out@) =~= designation_views(mid) + annotation_at(*sub, p));
            },
        }
        let ghost mid2 = out@;
        collect_designations(sub, path, out);
        let last = path.len() - 1;
        let ghost pv = path@;
        path.remove(last);
        assert(path@ =~= pv.drop_last());
        assert(texts(path@) =~= texts(pv).drop_last());
        assert(texts(path@) =~= base);
        assert(designation_views(out@) =~= designation_views(start) + props_designations(props@.take(k + 1), base));
        k = k + 1;
    }
    assert(props@.take(props@.len() as int) =~= props@);
}

/// The `x-mcp-header` annotations `schema` declares, in schema order.
pub fn designations(schema: &Json) -> (r: Vec<Designation>)
    ensures
        designation_views(r@) == designations_of(*schema, Seq::empty()),
        headers_agree(r@),
{
    let mut out: Vec<Designation> = Vec::new();
    let mut path: Vec<String> = Vec::new();
    assert(texts(path@) =~= Seq::<Seq<char>>::empty());
    collect_designations(schema, &mut path, &mut out);
    assert(designation_views(out@) =~= designations_of(*schema, Seq::empty()));
    out
}

/// The tool definitions a message carries: its `result.tools` array.
pub open spec fn tools_of(e: TraceEvent) -> Seq<Json> {
    match e.payload() {
        Some(p) => match p.at("result"@) {
            Some(r) => match r.at("tools"@) {
                Some(Json::Array(t)) => t@,
                _ => Seq::empty(),
            },
            None => Seq::empty(),
        },
        None => Seq::empty(),
    }
}

/// Every tool definition the trace carried, as (seq of the result, tool).
pub open spec fn tool_definitions(events: Seq<TraceEvent>) -> Seq<(u64, Json)>
    decreases events.len(),
{
    if events.len() == 0 {
        Seq::empty()
    } else {
        tool_definitions(events.drop_last()) + tools_of(events.last()).map_values(|t: Json| (events.last().seq, t))
    }
}

/// The tools that designate headers, as (name, designations), in order.
pub open spec fn declared_tools(defs: Seq<(u64, Json)>) -> Seq<(Seq<char>, Seq<DesignationView>)>
    decreases defs.len(),
{
    if defs.len() == 0 {
        Seq::empty()
    } else {
        let t = defs.last().1;
        let prev = declared_tools(defs.drop_last());
        match t.at("name"@) {
            Some(n) => match n.text() {
                Some(name) => match t.at("inputSchema"@) {
                    Some(schema) => if designations_of(schema, Seq::empty()).len() > 0 {
                        prev.push((name, designations_of(schema, Seq::empty())))
                    } else {
                        prev
                    },
                    None => prev,
                },
                None => prev,
            },
            None => prev,
        }
    }
}

/// The designations recorded last for tool `name`.
pub open spec fn designated_for(list: Seq<(Seq<char>, Seq<DesignationView>)>, name: Seq<char>) -> Option<Seq<DesignationView>>
    decreases list.len(),
{
    if list.len() == 0 {
        None
    } else if list.last().0 == name {
        Some(list.last().1)
    } else {
        designated_for(list.drop_last(), name)
    }
}

/// The designations each tool of the trace declares, by tool name.
pub open spec fn trace_designations(events: Seq<TraceEvent>) -> Seq<(Seq<char>, Seq<DesignationView>)> {
    declared_tools(tool_definitions(events))
}

/// The views of (name, designations) entries.
pub open spec fn tool_views(v: Seq<(String, Vec<Designation>)>) -> Seq<(Seq<char>, Seq<DesignationView>)> {
    v.map_values(|x: (String, Vec<Designation>)| (x.0@, designation_views(x.1@)))
}

/// Whether every entry's designations carry agreeing headers.
pub open spec fn tool_headers_agree(v: Seq<(String, Vec<Designation>)>) -> bool {
    forall|i: int| 0 <= i < v.len() ==> headers_agree(#[trigger] v[i].1@)
}

/// The tool definitions of the message at `i`.
pub fn tools_at<'a>(context: &TraceContext<'a>, i: usize) -> (r: Option<&'a Vec<Json>>)
    requires
        i < context.trace().len(),
    ensures
        match r {
            Some(t) => tools_of(context.trace()[i as int]) == t@,
            None => tools_of(context.trace()[i as int]) == Seq::<Json>::empty(),
        },
{
    match context.event(i).message_payload() {
        Some(p) => match p.get("result") {
            Some(r) => match r.get("tools") {
                Some(Json::Array(t)) => Some(t),
                _ => None,
            },
            None => None,
        },
        None => None,
    }
}

/// The designations declared per tool name, across every tool list in the trace.
pub fn designations_by_tool(context: &TraceContext<'_>) -> (r: Vec<(String, Vec<Designation>)>)
    ensures
        tool_views(r@) == trace_designations(context.trace()),
        tool_headers_agree(r@),
{
    let ghost events = context.trace();
    let n = context.len();
    let mut out: Vec<(String, Vec<Designation>)> = Vec::new();
    let mut i: usize = 0;
    while i < n
        invariant
            n == events.len(),
            events == context.trace(),
            i <= n,
            tool_views(out@) == declared_tools(tool_definitions(events.take(i as int))),
            tool_headers_agree(out@),
        decreases n - i,
    {
        let ghost prefix = tool_definitions(events.take(i as int));
        let ghost seq = events[i as int].seq;
        proof {
            assert(events.take(i + 1).drop_last() =~= events.take(i as int));
            assert(events.take(i + 1).last() == events[i as int]);
        }
        if let Some(tools) = tools_at(context, i) {
            let ghost all = tools_of(events[i as int]).map_values(|t: Json| (seq, t));
            let mut k: usize = 0;
            assert(prefix + all.take(0) =~= prefix);
            while k < tools.len()
                invariant
                    k <= tools@.len(),
                    all == tools@.map_values(|t: Json| (seq, t)),
                    tool_views(out@) == declared_tools(prefix + all.take(k as int)),
                    tool_headers_agree(out@),
                decreases tools@.len() - k,
            {
                let tool = &tools[k];
                let ghost before = out@;
                proof {
                    assert((prefix + all.take(k + 1)).drop_last() =~= prefix + all.take(k as int));
                    assert((prefix + all.take(k + 1)).last() == (seq, tools@[k as int]));
                }
                let name = match tool.get("name") {
                    Some(v) => v.as_str(),
                    None => None,
                };
                if let Some(name) = name {
                    if let Some(schema) = tool.get("inputSchema") {
                        let declared = designations(schema);
                        if declared.len() > 0 {
                            out.push((owned(name), declared));
                            assert(tool_views(out@) =~= tool_views(before).push((name@, designations_of(*schema, Seq::empty()))));
                        }
                    }
                }
                k = k + 1;
            }
            assert(all.take(tools@.len() as int) =~= all);
            assert(tool_definitions(events.take(i + 1)) == prefix + all);
        } else {
            assert(tool_definitions(events.take(i + 1)) =~= prefix);
        }
        i = i + 1;
    }
    assert(events.take(n as int) =~= events);
    out
}

/// The designations recorded last for tool `name`.
pub fn lookup_designations<'a>(list: &'a Vec<(String, Vec<Designation>)>, name: &str) -> (r: Option<&'a Vec<Designation>>)
    requires
        tool_headers_agree(list@),
    ensures
        match r {
            Some(v) => designated_for(tool_views(list@), name@) == Some(designation_views(v@)) && headers_agree(v@),
            None => designated_for(tool_views(list@), name@) is None,
        },
{
    let ghost views = tool_views(list@);
    let mut i = list.len();
    assert(views.take(i as int) =~= views);
    while i > 0
        invariant
            i <= list@.len(),
            views == tool_views(list@),
            tool_headers_agree(list@),
            designated_for(views, name@) == designated_for(views.take(i as int), name@),
        decreases i,
    {
        i = i - 1;
        proof {
            assert(views.take(i + 1).drop_last() =~= views.take(i as int));
            assert(views.take(i + 1).last() == views[i as int]);
        }
        if text_eq(list[i].0.as_str(), name) {
            assert(headers_agree(list@[i as int].1@));
            return Some(&list[i].1);
        }
    }
    None
}

} // verus!
