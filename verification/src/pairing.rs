//! Request/response pairing over a whole trace.

use vstd::prelude::*;
use crate::json::Json;
use crate::message::{MessageKind, Tag, classifies, spec_tag};
use crate::context::{same_json, same_value};
use crate::trace::TraceEvent;

verus! {

/// The pairing records one entry per event.
pub proof fn lemma_pairing_len(events: Seq<TraceEvent>, n: nat)
    requires
        n <= events.len(),
    ensures
        pairing_after(events, n).1.len() == n,
    decreases n,
{
    if n > 0 {
        lemma_pairing_len(events, (n - 1) as nat);
    }
}

/// Every open entry, and every pairing, names an earlier request; a paired
/// response answers the request it is paired with.
pub proof fn lemma_pairing_laws(events: Seq<TraceEvent>, n: nat)
    requires
        n <= events.len(),
        events.len() <= usize::MAX,
    ensures
        ({
            let (open, pairs) = pairing_after(events, n);
            &&& pairs.len() == n
            &&& forall|k: int| 0 <= k < open.len() ==> #[trigger] open[k] < n && request_id(events[open[k] as int]) is Some
            &&& forall|i: int| 0 <= i < n ==> (#[trigger] pairs[i] matches Some(r) ==>
                    r < i && request_id(events[r as int]) is Some && answers(events[r as int], events[i]))
        }),
    decreases n,
{
    if n > 0 {
        lemma_pairing_laws(events, (n - 1) as nat);
        let (open, pairs) = pairing_after(events, (n - 1) as nat);
        lemma_first_answered_answers(open, events, events[n - 1]);
        assert(pairing_after(events, n) == pairing_step(events, open, pairs, n - 1));
        let (open2, pairs2) = pairing_after(events, n);
        assert forall|k: int| 0 <= k < open2.len() implies #[trigger] open2[k] < n && request_id(events[open2[k] as int]) is Some by {
            if request_id(events[n - 1]) is Some {
                if k < open.len() { assert(open2[k] == open[k]); }
            } else if response_id(events[n - 1]) is Some {
                match first_answered(open, events, events[n - 1]) {
                    Some(m) => { if k < m { assert(open2[k] == open[k]); } else { assert(open2[k] == open[k + 1]); } },
                    None => {},
                }
            }
        }
        assert forall|i: int| 0 <= i < n implies (#[trigger] pairs2[i] matches Some(r) ==>
            r < i && request_id(events[r as int]) is Some && answers(events[r as int], events[i])) by {
            if i < n - 1 {
                assert(pairs2[i] == pairs[i]);
            }
        }
    }
}

/// The id of a request event.
pub open spec fn request_id(e: TraceEvent) -> Option<Json> {
    match e.payload() {
        Some(p) => if spec_tag(p) == Tag::Request { p.at("id"@) } else { None },
        None => None,
    }
}

/// The id a response event answers: a result or error with an `id` member.
pub open spec fn response_id(e: TraceEvent) -> Option<Json> {
    match e.payload() {
        Some(p) => if spec_tag(p) == Tag::Result || spec_tag(p) == Tag::Error { p.at("id"@) } else { None },
        None => None,
    }
}

/// Whether response `resp` answers request `req`: sent the other way, with the
/// same id.
pub open spec fn answers(req: TraceEvent, resp: TraceEvent) -> bool {
    &&& req.direction != resp.direction
    &&& request_id(req) is Some
    &&& response_id(resp) is Some
    &&& same_value(request_id(req).unwrap(), response_id(resp).unwrap())
}

/// The first position in `open` whose request `resp` answers.
pub open spec fn first_answered(open: Seq<usize>, events: Seq<TraceEvent>, resp: TraceEvent) -> Option<int>
    decreases open.len(),
{
    if open.len() == 0 {
        None
    } else if answers(events[open[0] as int], resp) {
        Some(0)
    } else {
        match first_answered(open.drop_first(), events, resp) {
            Some(k) => Some(k + 1),
            None => None,
        }
    }
}

/// One pairing step at event `i`: a request joins the open list; a response is
/// paired with the earliest open request it answers, which then leaves the list.
pub open spec fn pairing_step(events: Seq<TraceEvent>, open: Seq<usize>, pairs: Seq<Option<usize>>, i: int)
    -> (Seq<usize>, Seq<Option<usize>>)
{
    let e = events[i];
    if request_id(e) is Some {
        (open.push(i as usize), pairs.push(None))
    } else if response_id(e) is Some {
        match first_answered(open, events, e) {
            Some(k) => (open.remove(k), pairs.push(Some(open[k]))),
            None => (open, pairs.push(None)),
        }
    } else {
        (open, pairs.push(None))
    }
}

/// The still-open requests and each event's paired request after the first `n`
/// events.
pub open spec fn pairing_after(events: Seq<TraceEvent>, n: nat) -> (Seq<usize>, Seq<Option<usize>>)
    decreases n,
{
    if n == 0 {
        (Seq::empty(), Seq::empty())
    } else {
        let prev = pairing_after(events, (n - 1) as nat);
        pairing_step(events, prev.0, prev.1, n - 1)
    }
}

proof fn lemma_first_answered_found(open: Seq<usize>, events: Seq<TraceEvent>, resp: TraceEvent, k: int)
    requires
        0 <= k < open.len(),
        answers(events[open[k] as int], resp),
        forall|j: int| 0 <= j < k ==> !answers(events[open[j] as int], resp),
    ensures
        first_answered(open, events, resp) == Some(k),
    decreases k,
{
    if k > 0 {
        lemma_first_answered_found(open.drop_first(), events, resp, k - 1);
    }
}

proof fn lemma_first_answered_none(open: Seq<usize>, events: Seq<TraceEvent>, resp: TraceEvent)
    requires
        forall|j: int| 0 <= j < open.len() ==> !answers(events[open[j] as int], resp),
    ensures
        first_answered(open, events, resp) is None,
    decreases open.len(),
{
    if open.len() > 0 {
        lemma_first_answered_none(open.drop_first(), events, resp);
    }
}

proof fn lemma_first_answered_answers(open: Seq<usize>, events: Seq<TraceEvent>, resp: TraceEvent)
    ensures
        first_answered(open, events, resp) matches Some(k) ==>
            0 <= k < open.len() && answers(events[open[k] as int], resp),
    decreases open.len(),
{
    if open.len() > 0 {
        lemma_first_answered_answers(open.drop_first(), events, resp);
    }
}

fn find_answer<'a>(
    open: &Vec<usize>,
    events: &'a [TraceEvent],
    kinds: &Vec<Option<MessageKind<'a>>>,
    i: usize,
    id: &Json,
) -> (found: Option<usize>)
    requires
        kinds@.len() == events@.len(),
        forall|i: int| 0 <= i < events@.len() ==> match #[trigger] kinds@[i] {
            Some(k) => events@[i].payload() matches Some(p) && classifies(p, k),
            None => events@[i].payload() is None,
        },
        i < events@.len(),
        response_id(events@[i as int]) == Some(*id),
        forall|j: int| 0 <= j < open@.len() ==> open@[j] < events@.len(),
    ensures
        found matches Some(k) ==> first_answered(open@, events@, events@[i as int]) == Some(k as int),
        found is None ==> first_answered(open@, events@, events@[i as int]) is None,
{
    let event = &events[i];
    let mut k: usize = 0;
    while k < open.len()
        invariant
            k <= open@.len(),
            kinds@.len() == events@.len(),
            forall|i: int| 0 <= i < events@.len() ==> match #[trigger] kinds@[i] {
                Some(k) => events@[i].payload() matches Some(p) && classifies(p, k),
                None => events@[i].payload() is None,
            },
            i < events@.len(),
            *event == events@[i as int],
            response_id(events@[i as int]) == Some(*id),
            forall|j: int| 0 <= j < k ==> !answers(events@[open@[j] as int], events@[i as int]),
            forall|j: int| 0 <= j < open@.len() ==> open@[j] < events@.len(),
        decreases open@.len() - k,
    {
        let r = open[k];
        let request = &events[r];
        let candidate = match &kinds[r] {
            Some(MessageKind::Request { id: request_id, .. }) =>
                request.direction != event.direction && same_json(request_id, id),
            _ => false,
        };
        if candidate {
            proof { lemma_first_answered_found(open@, events@, events@[i as int], k as int); }
            return Some(k);
        }
        k = k + 1;
    }
    proof { lemma_first_answered_none(open@, events@, events@[i as int]); }
    None
}

/// Each event's pairing: `pairs[i] == Some(j)` when the response at `i`
/// answers the request at `j`.
pub fn pair_responses<'a>(events: &'a [TraceEvent], kinds: &Vec<Option<MessageKind<'a>>>) -> (pairs: Vec<Option<usize>>)
    requires
        kinds@.len() == events@.len(),
        forall|i: int| 0 <= i < events@.len() ==> match #[trigger] kinds@[i] {
            Some(k) => events@[i].payload() matches Some(p) && classifies(p, k),
            None => events@[i].payload() is None,
        },
    ensures
        pairs@ == pairing_after(events@, events@.len() as nat).1,
{
    let mut open: Vec<usize> = Vec::new();
    let mut pairs: Vec<Option<usize>> = Vec::new();
    let mut i: usize = 0;
    while i < events.len()
        invariant
            i <= events@.len(),
            kinds@.len() == events@.len(),
            forall|i: int| 0 <= i < events@.len() ==> match #[trigger] kinds@[i] {
                Some(k) => events@[i].payload() matches Some(p) && classifies(p, k),
                None => events@[i].payload() is None,
            },
            (open@, pairs@) == pairing_after(events@, i as nat),
            forall|j: int| 0 <= j < open@.len() ==> open@[j] < i,
        decreases events@.len() - i,
    {
        let ghost before = pairing_after(events@, i as nat);
        let event = &events[i];
        match &kinds[i] {
            Some(MessageKind::Request { .. }) => {
                open.push(i);
                pairs.push(None);
                assert(request_id(events@[i as int]) is Some);
                assert(open@ =~= pairing_step(events@, before.0, before.1, i as int).0);
                assert(pairs@ =~= pairing_step(events@, before.0, before.1, i as int).1);
            },
            Some(MessageKind::Result { id: Some(id) }) | Some(MessageKind::Error { id: Some(id), .. }) => {
                let found = find_answer(&open, events, kinds, i, id);
                match found {
                    Some(k) => {
                        proof { lemma_first_answered_answers(open@, events@, events@[i as int]); }
                        let ghost old_open = open@;
                        let r = open.remove(k);
                        assert(r == old_open[k as int]);
                        pairs.push(Some(r));
                        assert(pairs@ =~= before.1.push(Some(old_open[k as int])));
                        assert(request_id(events@[i as int]) is None);
                        assert(open@ =~= pairing_step(events@, before.0, before.1, i as int).0);
                        assert(pairs@ =~= pairing_step(events@, before.0, before.1, i as int).1);
                    },
                    None => {
                        pairs.push(None);
                    },
                }
            },
            _ => {
                pairs.push(None);
                assert(request_id(events@[i as int]) is None);
                assert(response_id(events@[i as int]) is None);
            },
        }
        proof {
            assert(pairing_after(events@, (i + 1) as nat) == pairing_step(events@, before.0, before.1, i as int));
            let after = pairing_after(events@, (i + 1) as nat);
            assert(open@ =~= after.0);
            assert(pairs@ =~= after.1);
        }
        i = i + 1;
    }
    pairs
}

} // verus!
