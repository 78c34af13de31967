//! One recorded trace: its events, and how a JSON record becomes one.

use vstd::prelude::*;
use crate::json::{Json, Number};
use crate::text::{owned, text_eq};

verus! {

/// Which party sent an event.
#[derive(Clone, Copy, Debug, PartialEq, Eq, Structural)]
pub enum Direction {
    ClientToServer,
    ServerToClient,
}

/// The transport a trace was captured on.
#[derive(Clone, Copy, Debug, PartialEq, Eq, Structural)]
pub enum TransportKind {
    Stdio,
    StreamableHttp,
}

/// A transport-level lifecycle observation.
#[derive(Clone, Copy, Debug, PartialEq, Eq, Structural)]
pub enum LifecycleEvent {
    TransportOpen,
    TransportClose,
    TransportAbort,
}

/// What an event recorded.
pub enum EventBody {
    /// A JSON-RPC message, as sent.
    Message { payload: Json },
    /// An HTTP request or response frame: its method (requests), status
    /// (responses) and headers, names as recorded.
    Http { method: Option<String>, status: Option<u16>, headers: Vec<(String, String)> },
    /// A transport open, close or abort.
    Lifecycle { event: LifecycleEvent },
}

/// One event of a trace.
pub struct TraceEvent {
    pub seq: u64,
    pub direction: Direction,
    pub transport: TransportKind,
    pub body: EventBody,
}

impl TraceEvent {
    /// The JSON-RPC payload, when the event is a message.
    pub open spec fn payload(self) -> Option<Json> {
        match self.body {
            EventBody::Message { payload } => Some(payload),
            _ => None,
        }
    }

    /// The JSON-RPC payload, when the event is a message.
    pub fn message_payload(&self) -> (r: Option<&Json>)
        ensures
            r matches Some(p) ==> self.payload() == Some(*p),
            r is None ==> self.payload() is None,
    {
        match &self.body {
            EventBody::Message { payload } => Some(payload),
            _ => None,
        }
    }
}

/// Why a record is not a trace event.
#[derive(Clone, Copy, Debug, PartialEq, Eq, Structural)]
pub enum RecordError {
    /// The record is not a JSON object.
    NotAnObject,
    /// `seq` is missing or not a non-negative integer.
    BadSeq,
    /// `direction` is missing or not one of the two directions.
    BadDirection,
    /// `transport` is missing or not a known transport.
    BadTransport,
    /// `kind` is missing or not `message`, `http` or `lifecycle`.
    BadKind,
    /// A `message` record without a `payload`.
    MissingPayload,
    /// An `http` record whose `method`, `status` or `headers` has the wrong type.
    BadHttp,
    /// A `lifecycle` record whose `event` is missing or unknown.
    BadLifecycleEvent,
}

/// The direction a record's `direction` names.
pub open spec fn spec_direction(j: Option<Json>) -> Option<Direction> {
    match j {
        Some(Json::Str(s)) => if s@ == "client-to-server"@ {
            Some(Direction::ClientToServer)
        } else if s@ == "server-to-client"@ {
            Some(Direction::ServerToClient)
        } else {
            None
        },
        _ => None,
    }
}

/// The transport a record's `transport` names.
pub open spec fn spec_transport(j: Option<Json>) -> Option<TransportKind> {
    match j {
        Some(Json::Str(s)) => if s@ == "stdio"@ {
            Some(TransportKind::Stdio)
        } else if s@ == "streamable-http"@ {
            Some(TransportKind::StreamableHttp)
        } else {
            None
        },
        _ => None,
    }
}

/// The lifecycle event a record's `event` names.
pub open spec fn spec_lifecycle(j: Option<Json>) -> Option<LifecycleEvent> {
    match j {
        Some(Json::Str(s)) => if s@ == "transport-open"@ {
            Some(LifecycleEvent::TransportOpen)
        } else if s@ == "transport-close"@ {
            Some(LifecycleEvent::TransportClose)
        } else if s@ == "transport-abort"@ {
            Some(LifecycleEvent::TransportAbort)
        } else {
            None
        },
        _ => None,
    }
}

fn direction_of(j: Option<&Json>) -> (r: Option<Direction>)
    ensures
        r == spec_direction(match j { Some(v) => Some(*v), None => None }),
{
    match j {
        Some(Json::Str(s)) => {
            proof { reveal_strlit("client-to-server"); reveal_strlit("server-to-client"); }
            if text_eq(s.as_str(), "client-to-server") {
                Some(Direction::ClientToServer)
            } else if text_eq(s.as_str(), "server-to-client") {
                Some(Direction::ServerToClient)
            } else {
                None
            }
        },
        _ => None,
    }
}

fn transport_of(j: Option<&Json>) -> (r: Option<TransportKind>)
    ensures
        r == spec_transport(match j { Some(v) => Some(*v), None => None }),
{
    match j {
        Some(Json::Str(s)) => {
            if text_eq(s.as_str(), "stdio") {
                Some(TransportKind::Stdio)
            } else if text_eq(s.as_str(), "streamable-http") {
                Some(TransportKind::StreamableHttp)
            } else {
                None
            }
        },
        _ => None,
    }
}

fn lifecycle_of(j: Option<&Json>) -> (r: Option<LifecycleEvent>)
    ensures
        r == spec_lifecycle(match j { Some(v) => Some(*v), None => None }),
{
    match j {
        Some(Json::Str(s)) => {
            if text_eq(s.as_str(), "transport-open") {
                Some(LifecycleEvent::TransportOpen)
            } else if text_eq(s.as_str(), "transport-close") {
                Some(LifecycleEvent::TransportClose)
            } else if text_eq(s.as_str(), "transport-abort") {
                Some(LifecycleEvent::TransportAbort)
            } else {
                None
            }
        },
        _ => None,
    }
}

/// Removes the first member named `key` and returns its value.
fn take_member(members: &mut Vec<(String, Json)>, key: &str) -> (r: Option<Json>)
    ensures
        r == crate::json::spec_lookup(old(members)@, key@),
{
    let mut i: usize = 0;
    while i < members.len()
        invariant
            i <= members@.len(),
            members@ == old(members)@,
            forall|j: int| 0 <= j < i ==> members@[j].0@ != key@,
        decreases members@.len() - i,
    {
        if text_eq(members[i].0.as_str(), key) {
            proof {
                crate::json::lemma_lookup_first(members@, key@, i as int);
            }
            let (_, value) = members.remove(i);
            return Some(value);
        }
        i = i + 1;
    }
    proof {
        crate::json::lemma_lookup_none(members@, key@);
    }
    None
}

/// Whether `headers` holds, in order, exactly the members of `members` with
/// their string values.
pub open spec fn headers_match(headers: Seq<(String, String)>, members: Seq<(String, Json)>) -> bool {
    &&& headers.len() == members.len()
    &&& forall|i: int| 0 <= i < headers.len() ==>
            #[trigger] headers[i].0@ == members[i].0@ && members[i].1 == Json::Str(headers[i].1)
}

/// Whether every member's value is a string.
pub open spec fn all_string_values(members: Seq<(String, Json)>) -> bool {
    forall|i: int| 0 <= i < members.len() ==> #[trigger] members[i].1 is Str
}

/// The header list of an object whose values are all strings.
fn string_members(members: &Vec<(String, Json)>) -> (r: Option<Vec<(String, String)>>)
    ensures
        r matches Some(h) ==> headers_match(h@, members@),
        r is None <==> !all_string_values(members@),
{
    let mut out: Vec<(String, String)> = Vec::new();
    let mut i: usize = 0;
    while i < members.len()
        invariant
            i <= members@.len(),
            out@.len() == i,
            headers_match(out@, members@.take(i as int)),
            all_string_values(members@.take(i as int)),
        decreases members@.len() - i,
    {
        match &members[i].1 {
            Json::Str(text) => {
                out.push((members[i].0.clone(), text.clone()));
                i = i + 1;
                assert(headers_match(out@, members@.take(i as int)));
                assert(all_string_values(members@.take(i as int)));
            },
            _ => {
                assert(!(members@[i as int].1 is Str));
                return None;
            },
        }
    }
    assert(members@.take(members@.len() as int) =~= members@);
    Some(out)
}

/// The `kind` a record names.
pub open spec fn kind_text(record: Json) -> Option<Seq<char>> {
    match record.at("kind"@) {
        Some(k) => k.text(),
        None => None,
    }
}

/// Whether an optional member is absent or `null`.
pub open spec fn absent(j: Option<Json>) -> bool {
    j is None || j == Some(Json::Null)
}

/// The first reason a record is not a well-formed trace event, if any.
pub open spec fn record_fault(record: Json) -> Option<RecordError> {
    if !(record is Object) {
        Some(RecordError::NotAnObject)
    } else if !(record.at("seq"@) matches Some(s) && s.nat_value() is Some) {
        Some(RecordError::BadSeq)
    } else if spec_direction(record.at("direction"@)) is None {
        Some(RecordError::BadDirection)
    } else if spec_transport(record.at("transport"@)) is None {
        Some(RecordError::BadTransport)
    } else if kind_text(record) == Some("message"@) {
        if record.at("payload"@) is None { Some(RecordError::MissingPayload) } else { None }
    } else if kind_text(record) == Some("http"@) {
        if !http_fields_ok(record) { Some(RecordError::BadHttp) } else { None }
    } else if kind_text(record) == Some("lifecycle"@) {
        if spec_lifecycle(record.at("event"@)) is None { Some(RecordError::BadLifecycleEvent) } else { None }
    } else {
        Some(RecordError::BadKind)
    }
}

/// Whether an `http` record's optional members have their types: `method` a
/// string, `status` an integer below 65536, `headers` an object of strings.
pub open spec fn http_fields_ok(record: Json) -> bool {
    &&& (absent(record.at("method"@)) || record.at("method"@).unwrap() is Str)
    &&& (absent(record.at("status"@)) || (record.at("status"@).unwrap().nat_value() matches Some(n) && n < 65536))
    &&& (absent(record.at("headers"@)) || (record.at("headers"@).unwrap() is Object
            && all_string_values(record.at("headers"@).unwrap()->Object_0@)))
}

/// Whether `event` is what the well-formed `record` describes.
pub open spec fn describes(record: Json, event: TraceEvent) -> bool {
    &&& record.at("seq"@) == Some(Json::Num(Number::Unsigned(event.seq)))
    &&& spec_direction(record.at("direction"@)) == Some(event.direction)
    &&& spec_transport(record.at("transport"@)) == Some(event.transport)
    &&& match event.body {
        EventBody::Message { payload } =>
            kind_text(record) == Some("message"@) && record.at("payload"@) == Some(payload),
        EventBody::Http { method, status, headers } => {
            &&& kind_text(record) == Some("http"@)
            &&& (match method {
                Some(m) => record.at("method"@) == Some(Json::Str(m)),
                None => absent(record.at("method"@)),
            })
            &&& (match status {
                Some(n) => record.at("status"@) == Some(Json::Num(Number::Unsigned(n as u64))),
                None => absent(record.at("status"@)),
            })
            &&& (match record.at("headers"@) {
                Some(Json::Object(m)) => headers_match(headers@, m@),
                _ => headers@.len() == 0,
            })
        },
        EventBody::Lifecycle { event: l } =>
            kind_text(record) == Some("lifecycle"@) && spec_lifecycle(record.at("event"@)) == Some(l),
    }
}

/// Reads one trace record: an object with `seq`, `direction`, `transport`,
/// `kind`, and the members that kind carries.
pub fn event_from_record(record: Json) -> (r: Result<TraceEvent, RecordError>)
    ensures
        r matches Err(e) ==> record_fault(record) == Some(e),
        r matches Ok(event) ==> record_fault(record) is None && describes(record, event),
{
    proof {
        reveal_strlit("message");
        reveal_strlit("http");
        reveal_strlit("lifecycle");
    }
    let seq = match record.get("seq") {
        Some(s) => match s.as_u64() {
            Some(n) => n,
            None => { return Err(if record.is_object() { RecordError::BadSeq } else { RecordError::NotAnObject }); },
        },
        None => { return Err(if record.is_object() { RecordError::BadSeq } else { RecordError::NotAnObject }); },
    };
    let direction = match direction_of(record.get("direction")) {
        Some(d) => d,
        None => { return Err(RecordError::BadDirection); },
    };
    let transport = match transport_of(record.get("transport")) {
        Some(t) => t,
        None => { return Err(RecordError::BadTransport); },
    };
    let kind = match record.get("kind") {
        Some(k) => match k.as_str() {
            Some(text) => owned(text),
            None => { return Err(RecordError::BadKind); },
        },
        None => { return Err(RecordError::BadKind); },
    };
    if text_eq(kind.as_str(), "message") {
        let ghost original = record;
        let mut members = match record {
            Json::Object(m) => m,
            _ => { return Err(RecordError::NotAnObject); },
        };
        assert(original == Json::Object(members));
        match take_member(&mut members, "payload") {
            Some(payload) => Ok(TraceEvent { seq, direction, transport, body: EventBody::Message { payload } }),
            None => Err(RecordError::MissingPayload),
        }
    } else if text_eq(kind.as_str(), "http") {
        let method = match record.get("method") {
            None | Some(Json::Null) => None,
            Some(Json::Str(m)) => Some(m.clone()),
            Some(_) => { return Err(RecordError::BadHttp); },
        };
        let status: Option<u16> = match record.get("status") {
            None | Some(Json::Null) => None,
            Some(Json::Num(Number::Unsigned(n))) => if *n < 65536 { Some(*n as u16) } else { return Err(RecordError::BadHttp); },
            Some(_) => { return Err(RecordError::BadHttp); },
        };
        let headers = match record.get("headers") {
            None | Some(Json::Null) => Vec::new(),
            Some(Json::Object(m)) => match string_members(m) {
                Some(h) => h,
                None => { return Err(RecordError::BadHttp); },
            },
            Some(_) => { return Err(RecordError::BadHttp); },
        };
        Ok(TraceEvent { seq, direction, transport, body: EventBody::Http { method, status, headers } })
    } else if text_eq(kind.as_str(), "lifecycle") {
        match lifecycle_of(record.get("event")) {
            Some(event) => Ok(TraceEvent { seq, direction, transport, body: EventBody::Lifecycle { event } }),
            None => Err(RecordError::BadLifecycleEvent),
        }
    } else {
        Err(RecordError::BadKind)
    }
}

/// Why a sequence of records is not a trace.
#[derive(Clone, Copy, Debug, PartialEq, Eq, Structural)]
pub enum TraceError {
    /// The record at `index` is not a trace event.
    Record { index: usize, error: RecordError },
    /// The record at `index` has a `seq` not greater than its predecessor's.
    SeqOrder { index: usize, seq: u64, previous: u64 },
}

/// Whether `seq` strictly increases across `events`.
pub open spec fn seq_increasing(events: Seq<TraceEvent>) -> bool {
    forall|i: int| 0 < i < events.len() ==> #[trigger] events[i].seq > events[i - 1].seq
}

/// The `seq` a record carries, when it is a non-negative integer.
pub open spec fn record_seq(record: Json) -> u64 {
    match record.at("seq"@) {
        Some(s) => match s.nat_value() {
            Some(n) => n,
            None => 0,
        },
        None => 0,
    }
}

/// Whether records form a trace: each is a well-formed event, and `seq`
/// strictly increases.
pub open spec fn records_ok(records: Seq<Json>) -> bool {
    &&& forall|i: int| 0 <= i < records.len() ==> record_fault(#[trigger] records[i]) is None
    &&& forall|i: int| 0 < i < records.len() ==> #[trigger] record_seq(records[i]) > record_seq(records[i - 1])
}

/// Reads a trace from its records, in order: every record must be a trace
/// event, and `seq` must strictly increase.
pub fn events_from_records(records: Vec<Json>) -> (r: Result<Vec<TraceEvent>, TraceError>)
    ensures
        r is Ok <==> records_ok(records@),
        r matches Ok(events) ==> events@.len() == records@.len() && seq_increasing(events@)
            && forall|i: int| 0 <= i < records@.len() ==> record_fault(#[trigger] records@[i]) is None
                && describes(records@[i], events@[i]),
        r matches Err(TraceError::Record { index, error }) ==> index < records@.len()
            && record_fault(records@[index as int]) == Some(error)
            && records_ok(records@.take(index as int)),
        r matches Err(TraceError::SeqOrder { index, seq, previous }) ==> 0 < index < records@.len()
            && records_ok(records@.take(index as int))
            && record_fault(records@[index as int]) is None
            && seq == record_seq(records@[index as int])
            && previous == record_seq(records@[index - 1])
            && seq <= previous,
{
    let ghost original = records@;
    let mut rest = records;
    let mut events: Vec<TraceEvent> = Vec::new();
    while rest.len() > 0
        invariant
            events@.len() + rest@.len() == original.len(),
            original == records@,
            rest@ == original.subrange(events@.len() as int, original.len() as int),
            seq_increasing(events@),
            forall|i: int| 0 <= i < events@.len() ==> record_fault(#[trigger] original[i]) is None
                && describes(original[i], events@[i]),
            records_ok(original.take(events@.len() as int)),
        decreases rest@.len(),
    {
        let index = events.len();
        let record = rest.remove(0);
        assert(record == original[index as int]);
        match event_from_record(record) {
            Ok(event) => {
                assert(event.seq == record_seq(original[index as int]));
                if index > 0 {
                    assert(events@[index - 1].seq == record_seq(original[index - 1]));
                }
                if index > 0 && event.seq <= events[index - 1].seq {
                    proof {
                        assert(original.take(index as int + 1)[index as int] == original[index as int]);
                        assert(!records_ok(original)) by {
                            assert(record_seq(original[index as int]) <= record_seq(original[index - 1]));
                        }
                    }
                    return Err(TraceError::SeqOrder { index, seq: event.seq, previous: events[index - 1].seq });
                }
                let ghost before = events@;
                events.push(event);
                proof {
                    let t = original.take(events@.len() as int);
                    assert forall|i: int| 0 <= i < t.len() implies record_fault(#[trigger] t[i]) is None by {
                        if i < index {
                            assert(original.take(index as int)[i] == t[i]);
                        }
                    }
                    assert forall|i: int| 0 < i < t.len() implies #[trigger] record_seq(t[i]) > record_seq(t[i - 1]) by {
                        if i < index {
                            assert(original.take(index as int)[i] == t[i]);
                            assert(original.take(index as int)[i - 1] == t[i - 1]);
                        }
                    }
                }
            },
            Err(error) => {
                proof {
                    assert(!records_ok(original)) by {
                        assert(record_fault(original[index as int]) is Some);
                    }
                }
                return Err(TraceError::Record { index, error });
            },
        }
    }
    assert(original.take(original.len() as int) =~= original);
    Ok(events)
}

} // verus!
