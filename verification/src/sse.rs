//! Server-sent events: the event payload, its wire frame, and the filters that
//! decide which events reach a stream.
use vstd::prelude::*;
use crate::topic::topic_matches;

verus! {

/// Decides which events pass to a stream; implement it for custom filters.
pub trait EventFilter {
    /// Whether an event of this name passes.
    spec fn accepts(&self, event_name: Seq<char>) -> bool;

    fn matches(&self, event_name: &str) -> (r: bool)
        ensures
            r == self.accepts(event_name@),
    ;
}

/// The names of a list of strings.
pub open spec fn names_view(names: Seq<String>) -> Seq<Seq<char>> {
    names.map_values(|n: String| n@)
}

/// The characters of a list of string slices.
pub open spec fn strs_view(names: Seq<&str>) -> Seq<Seq<char>> {
    names.map_values(|n: &str| n@)
}

/// Whether `name` is one of `names`.
pub open spec fn listed(names: Seq<Seq<char>>, name: Seq<char>) -> bool {
    exists|i: int| 0 <= i < names.len() && #[trigger] names[i] == name
}

fn copy_names(names: Vec<&str>) -> (r: Vec<String>)
    ensures
        names_view(r@) == strs_view(names@),
{
    let mut out: Vec<String> = Vec::new();
    let mut i: usize = 0;
    while i < names.len()
        invariant
            i <= names.len(),
            out@.len() == i,
            names_view(out@) == strs_view(names@.take(i as int)),
        decreases names.len() - i,
    {
        let ghost prev = out@;
        let item = String::from_str(names[i]);
        out.push(item);
        assert forall|k: int| 0 <= k < i + 1 implies #[trigger] names_view(out@)[k] == strs_view(names@.take(i + 1))[k] by {
            if k < i {
                assert(names_view(prev)[k] == strs_view(names@.take(i as int))[k]);
                assert(out@[k] == prev[k]);
            }
        }
        assert(names_view(out@) =~= strs_view(names@.take(i + 1)));
        i = i + 1;
    }
    assert(names@.take(names@.len() as int) =~= names@);
    out
}

/// Whether `name` is one of `names`.
pub fn is_listed(names: &Vec<String>, name: &str) -> (r: bool)
    ensures
        r == listed(names_view(names@), name@),
{
    let mut i: usize = 0;
    while i < names.len()
        invariant
            i <= names.len(),
            forall|k: int| 0 <= k < i ==> #[trigger] names@[k]@ != name@,
        decreases names.len() - i,
    {
        if crate::text::str_equal(names[i].as_str(), name) {
            assert(names_view(names@)[i as int] == name@);
            return true;
        }
        i = i + 1;
    }
    assert forall|k: int| 0 <= k < names_view(names@).len() implies #[trigger] names_view(names@)[k] != name@ by {
        assert(names_view(names@)[k] == names@[k]@);
    }
    false
}

/// Lets through only the listed event names.
pub struct AllowFilter {
    names: Vec<String>,
}

impl AllowFilter {
    /// The listed names.
    pub closed spec fn names(&self) -> Seq<Seq<char>> {
        names_view(self.names@)
    }

    /// A filter that lets through exactly these names.
    pub fn new(names: Vec<&str>) -> (r: Self)
        ensures
            r.names() == strs_view(names@),
    {
        AllowFilter { names: copy_names(names) }
    }
}

impl EventFilter for AllowFilter {
    open spec fn accepts(&self, event_name: Seq<char>) -> bool {
        listed(self.names(), event_name)
    }

    fn matches(&self, event_name: &str) -> (r: bool) {
        is_listed(&self.names, event_name)
    }
}

/// Lets through every event name but the listed ones.
pub struct DenyFilter {
    names: Vec<String>,
}

impl DenyFilter {
    /// The listed names.
    pub closed spec fn names(&self) -> Seq<Seq<char>> {
        names_view(self.names@)
    }

    /// A filter that holds back exactly these names.
    pub fn new(names: Vec<&str>) -> (r: Self)
        ensures
            r.names() == strs_view(names@),
    {
        DenyFilter { names: copy_names(names) }
    }
}

impl EventFilter for DenyFilter {
    open spec fn accepts(&self, event_name: Seq<char>) -> bool {
        !listed(self.names(), event_name)
    }

    fn matches(&self, event_name: &str) -> (r: bool) {
        !is_listed(&self.names, event_name)
    }
}

/// Lets through the event names that a topic pattern matches.
pub struct PatternFilter {
    pattern: String,
}

impl PatternFilter {
    /// The pattern.
    pub closed spec fn pattern(&self) -> Seq<char> {
        self.pattern@
    }

    /// A filter by the pattern (`*` for one segment, `**` for any number).
    pub fn new(pattern: &str) -> (r: Self)
        ensures
            r.pattern() == pattern@,
    {
        PatternFilter { pattern: String::from_str(pattern) }
    }
}

impl EventFilter for PatternFilter {
    open spec fn accepts(&self, event_name: Seq<char>) -> bool {
        topic_matches(self.pattern(), event_name)
    }

    fn matches(&self, event_name: &str) -> (r: bool) {
        crate::topic::matches(self.pattern.as_str(), event_name)
    }
}

/// A deny filter over some names lets through exactly what an allow filter
/// over the same names holds back.
pub proof fn law_deny_complements_allow(allow: AllowFilter, deny: DenyFilter, event_name: Seq<char>)
    requires
        allow.names() == deny.names(),
    ensures
        deny.accepts(event_name) == !allow.accepts(event_name),
{
}

/// An event for a server-sent-event stream.
#[derive(Clone, Debug)]
pub struct SseEvent {
    /// The event's name.
    pub event_type: String,
    /// The event serialized as JSON.
    pub data: String,
    /// An id, for resuming a stream after `Last-Event-ID`.
    pub id: Option<String>,
}

impl SseEvent {
    /// The same event with an id.
    pub fn with_id(self, id: &str) -> (r: Self)
        ensures
            r.event_type == self.event_type,
            r.data == self.data,
            r.id matches Some(i) && i@ == id@,
    {
        SseEvent { event_type: self.event_type, data: self.data, id: Some(String::from_str(id)) }
    }
}

/// The characters of an optional string.
pub open spec fn opt_str_view(o: Option<String>) -> Option<Seq<char>> {
    match o {
        Some(s) => Some(s@),
        None => None,
    }
}

/// The wire frame of an event: an `event:` line unless the type is empty, an
/// `id:` line when there is an id, a `data:` line, and a blank line.
pub open spec fn sse_frame(event_type: Seq<char>, id: Option<Seq<char>>, data: Seq<char>) -> Seq<char> {
    (if event_type.len() > 0 { "event: "@ + event_type + "\n"@ } else { Seq::<char>::empty() })
        + (match id { Some(i) => "id: "@ + i + "\n"@, None => Seq::<char>::empty() })
        + "data: "@ + data + "\n\n"@
}

impl SseEvent {
    /// The event's wire frame.
    pub fn to_frame(&self) -> (r: String)
        ensures
            r@ == sse_frame(self.event_type@, opt_str_view(self.id), self.data@),
    {
        let mut out = String::new();
        if self.event_type.as_str().unicode_len() > 0 {
            out.append("event: ");
            out.append(self.event_type.as_str());
            out.append("\n");
        }
        let ghost first = out@;
        match &self.id {
            Some(i) => {
                out.append("id: ");
                out.append(i.as_str());
                out.append("\n");
            },
            None => {},
        }
        let ghost second = out@;
        out.append("data: ");
        out.append(self.data.as_str());
        out.append("\n\n");
        proof {
            let idv = opt_str_view(self.id);
            assert(first == (if self.event_type@.len() > 0 { "event: "@ + self.event_type@ + "\n"@ } else { Seq::<char>::empty() }));
            assert(second == first + (match idv { Some(i) => "id: "@ + i + "\n"@, None => Seq::<char>::empty() }));
            assert(out@ =~= sse_frame(self.event_type@, idv, self.data@));
        }
        out
    }
}

/// Errors of an event stream.
#[derive(Debug)]
pub enum SseError {
    /// An event could not be serialized.
    Serialization(String),
    /// The stream failed.
    Stream(String),
}

/// The text of an error.
pub open spec fn sse_error_message(e: SseError) -> Seq<char> {
    match e {
        SseError::Serialization(m) => "serialization error: "@ + m@,
        SseError::Stream(m) => "stream error: "@ + m@,
    }
}

impl SseError {
    /// The text of the error.
    pub fn message(&self) -> (r: String)
        ensures
            r@ == sse_error_message(*self),
    {
        match self {
            SseError::Serialization(m) => crate::error::prefixed("serialization error: ", m.as_str()),
            SseError::Stream(m) => crate::error::prefixed("stream error: ", m.as_str()),
        }
    }
}

} // verus!
