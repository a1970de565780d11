//! The event registry: the event types a bus knows, with their metadata, and
//! filtered, name-ordered, paginated queries over them.
//!
//! Times are nanoseconds since the UNIX epoch.
use vstd::prelude::*;
use crate::clock::now_nanos;
use crate::execution_log::{lemma_page_slice, lemma_page_view_eq, offset_of, page, page_len, take_page};
use crate::json::{json_clone, Json, JsonValue};
use crate::sort::{
    is_sorted, lemma_sort_stable_contains, lemma_sort_stable_sorted, lemma_sort_stable_view, order_by_view,
    sort_stable, stable_sort, view_eq_seq, SortOrder, SpecOrder,
};
use crate::sse::{is_listed, listed, names_view, opt_str_view};
use crate::text::{
    chars_contain, chars_equal, chars_less, chars_starts_with, is_prefix, is_substring, lemma_seq_lt_asymmetric,
    lemma_seq_lt_total, lemma_seq_lt_transitive, seq_lt, str_equal, to_chars,
};

verus! {

/// Metadata of one registered event type.
#[derive(Clone, Debug)]
pub struct EventDescriptor {
    /// The event's unique name, such as `user.created`.
    pub event_name: String,
    /// The topic the event belongs to.
    pub topic: String,
    pub description: String,
    /// The JSON Schema of the payload.
    pub schema: Option<JsonValue>,
    /// The module that registered the event.
    pub source_module: Option<String>,
    pub tags: Vec<String>,
    /// When the event was first registered.
    pub registered_at: u128,
    /// How many times the event was published.
    pub publish_count: u64,
    /// How many subscribers it has now.
    pub subscriber_count: usize,
}

/// The mathematical form of an [`EventDescriptor`].
pub struct DescriptorView {
    pub event_name: Seq<char>,
    pub topic: Seq<char>,
    pub description: Seq<char>,
    pub schema: Option<Json>,
    pub source_module: Option<Seq<char>>,
    pub tags: Seq<Seq<char>>,
    pub registered_at: u128,
    pub publish_count: u64,
    pub subscriber_count: usize,
}

pub open spec fn opt_json_view(o: Option<JsonValue>) -> Option<Json> {
    match o {
        Some(v) => Some(v@),
        None => None,
    }
}

impl View for EventDescriptor {
    type V = DescriptorView;

    open spec fn view(&self) -> DescriptorView {
        DescriptorView {
            event_name: self.event_name@,
            topic: self.topic@,
            description: self.description@,
            schema: opt_json_view(self.schema),
            source_module: opt_str_view(self.source_module),
            tags: names_view(self.tags@),
            registered_at: self.registered_at,
            publish_count: self.publish_count,
            subscriber_count: self.subscriber_count,
        }
    }
}

/// The views of a list of descriptors.
pub open spec fn views(ds: Seq<EventDescriptor>) -> Seq<DescriptorView> {
    ds.map_values(|d: EventDescriptor| d@)
}

pub open spec fn opt_descriptor_view(o: Option<EventDescriptor>) -> Option<DescriptorView> {
    match o {
        Some(d) => Some(d@),
        None => None,
    }
}

/// A copy of a list of strings.
pub fn copy_strings(v: &Vec<String>) -> (r: Vec<String>)
    ensures
        r@ == v@,
{
    let mut out: Vec<String> = Vec::new();
    let mut i: usize = 0;
    while i < v.len()
        invariant
            i <= v.len(),
            out@ == v@.take(i as int),
        decreases v.len() - i,
    {
        out.push(v[i].clone());
        assert(out@ =~= v@.take(i + 1));
        i = i + 1;
    }
    assert(v@.take(v@.len() as int) =~= v@);
    out
}

/// A copy of an optional string.
pub fn copy_opt_string(o: &Option<String>) -> (r: Option<String>)
    ensures
        r == *o,
{
    match o {
        Some(s) => Some(s.clone()),
        None => None,
    }
}

/// A copy of an optional JSON value.
pub fn copy_opt_json(o: &Option<JsonValue>) -> (r: Option<JsonValue>)
    ensures
        opt_json_view(r) == opt_json_view(*o),
{
    match o {
        Some(v) => Some(json_clone(v)),
        None => None,
    }
}

/// A copy of a descriptor.
pub fn copy_descriptor(d: &EventDescriptor) -> (r: EventDescriptor)
    ensures
        r@ == d@,
{
    EventDescriptor {
        event_name: d.event_name.clone(),
        topic: d.topic.clone(),
        description: d.description.clone(),
        schema: copy_opt_json(&d.schema),
        source_module: copy_opt_string(&d.source_module),
        tags: copy_strings(&d.tags),
        registered_at: d.registered_at,
        publish_count: d.publish_count,
        subscriber_count: d.subscriber_count,
    }
}

/// No two entries share a name.
pub open spec fn names_unique(es: Seq<DescriptorView>) -> bool {
    forall|i: int, j: int| 0 <= i < j < es.len() ==> #[trigger] es[i].event_name != #[trigger] es[j].event_name
}

/// The position of the last entry with this name, or -1.
pub open spec fn index_of_name(es: Seq<DescriptorView>, name: Seq<char>) -> int
    decreases es.len(),
{
    if es.len() == 0 {
        -1
    } else if es.last().event_name == name {
        es.len() - 1
    } else {
        index_of_name(es.drop_last(), name)
    }
}

/// The entry with this name.
pub open spec fn lookup(es: Seq<DescriptorView>, name: Seq<char>) -> Option<DescriptorView> {
    let i = index_of_name(es, name);
    if i < 0 {
        None
    } else {
        Some(es[i])
    }
}

/// The entries after registering `d`: it replaces the entry of its name, or
/// comes last.
pub open spec fn registered(es: Seq<DescriptorView>, d: DescriptorView) -> Seq<DescriptorView> {
    let i = index_of_name(es, d.event_name);
    if i < 0 {
        es.push(d)
    } else {
        es.update(i, d)
    }
}

/// The entries after removing the one of this name.
pub open spec fn unregistered(es: Seq<DescriptorView>, name: Seq<char>) -> Seq<DescriptorView> {
    let i = index_of_name(es, name);
    if i < 0 {
        es
    } else {
        es.remove(i)
    }
}

/// The entries after applying `f` to the entry of this name.
pub open spec fn updated(es: Seq<DescriptorView>, name: Seq<char>, f: spec_fn(DescriptorView) -> DescriptorView) -> Seq<DescriptorView> {
    let i = index_of_name(es, name);
    if i < 0 {
        es
    } else {
        es.update(i, f(es[i]))
    }
}

/// One more publish.
pub open spec fn bump_publish(d: DescriptorView) -> DescriptorView {
    DescriptorView { publish_count: (d.publish_count + 1) as u64, ..d }
}

/// The new subscriber count.
pub open spec fn with_subscribers(count: usize) -> spec_fn(DescriptorView) -> DescriptorView {
    |d: DescriptorView| DescriptorView { subscriber_count: count, ..d }
}

/// What `register_simple` registers.
pub open spec fn simple_descriptor(event_name: Seq<char>, topic: Seq<char>, registered_at: u128) -> DescriptorView {
    DescriptorView {
        event_name,
        topic,
        description: Seq::empty(),
        schema: None,
        source_module: None,
        tags: Seq::empty(),
        registered_at,
        publish_count: 0,
        subscriber_count: 0,
    }
}

/// The names of the entries.
pub open spec fn entry_names(es: Seq<DescriptorView>) -> Seq<Seq<char>> {
    es.map_values(|d: DescriptorView| d.event_name)
}

/// What `index_of_name` finds.
pub proof fn lemma_index_of_name(es: Seq<DescriptorView>, name: Seq<char>)
    ensures
        -1 <= index_of_name(es, name) < es.len(),
        index_of_name(es, name) >= 0 ==> es[index_of_name(es, name)].event_name == name,
        forall|j: int| index_of_name(es, name) < j < es.len() ==> #[trigger] es[j].event_name != name,
    decreases es.len(),
{
    if es.len() > 0 {
        lemma_index_of_name(es.drop_last(), name);
        let i = index_of_name(es, name);
        assert forall|j: int| i < j < es.len() implies #[trigger] es[j].event_name != name by {
            if j < es.len() - 1 {
                assert(es.drop_last()[j] == es[j]);
            }
        }
    }
}

/// With unique names, the entry of a name is the one `index_of_name` finds.
pub proof fn lemma_index_of_unique(es: Seq<DescriptorView>, name: Seq<char>, j: int)
    requires
        names_unique(es),
        0 <= j < es.len(),
        es[j].event_name == name,
    ensures
        index_of_name(es, name) == j,
{
    lemma_index_of_name(es, name);
    let i = index_of_name(es, name);
    if i < j {
    } else if i > j {
        assert(es[j].event_name != es[i].event_name);
    }
}

/// Filters on event names: `prefix*` matches the names that start with
/// `prefix`; any other pattern matches itself only.
pub open spec fn name_filter_holds(pattern: Seq<char>, name: Seq<char>) -> bool {
    if pattern.len() > 0 && pattern.last() == '*' {
        is_prefix(pattern.drop_last(), name)
    } else {
        name == pattern
    }
}

/// What `str::to_lowercase` gives (Unicode lowercase mapping).
pub uninterp spec fn lowercase(s: Seq<char>) -> Seq<char>;

/// The lowercased search text occurs in the lowercased name or description.
pub open spec fn search_holds(search_lower: Seq<char>, name_lower: Seq<char>, description_lower: Seq<char>) -> bool {
    is_substring(search_lower, name_lower) || is_substring(search_lower, description_lower)
}

/// No tags are asked for, or the event has one of them.
pub open spec fn tags_hold(wanted: Seq<Seq<char>>, tags: Seq<Seq<char>>) -> bool {
    wanted.len() == 0 || exists|i: int| 0 <= i < wanted.len() && listed(tags, #[trigger] wanted[i])
}

/// A filter over the registered events, with paging; `None` fields do not
/// filter.
#[derive(Clone, Debug)]
pub struct EventQuery {
    /// An exact name, or a prefix followed by `*`.
    pub name: Option<String>,
    pub topic: Option<String>,
    pub source_module: Option<String>,
    /// Events with any of these tags; none filters nothing.
    pub tags: Vec<String>,
    /// Text to find, ignoring case, in the name or the description.
    pub search: Option<String>,
    pub limit: Option<usize>,
    pub offset: Option<usize>,
}

impl Default for EventQuery {
    fn default() -> (r: Self)
        ensures
            r.name is None,
            r.topic is None,
            r.source_module is None,
            r.tags@.len() == 0,
            r.search is None,
            r.limit is None,
            r.offset is None,
    {
        EventQuery {
            name: None,
            topic: None,
            source_module: None,
            tags: Vec::new(),
            search: None,
            limit: None,
            offset: None,
        }
    }
}

/// Whether a descriptor passes a query's filters.
pub open spec fn descriptor_matches(d: DescriptorView, q: EventQuery) -> bool {
    &&& (q.name matches Some(n) ==> name_filter_holds(n@, d.event_name))
    &&& (q.topic matches Some(t) ==> d.topic == t@)
    &&& (q.source_module matches Some(m) ==> d.source_module == Some(m@))
    &&& tags_hold(names_view(q.tags@), d.tags)
    &&& (q.search matches Some(s) ==> search_holds(lowercase(s@), lowercase(d.event_name), lowercase(d.description)))
}

/// A query's filters as a predicate.
pub open spec fn query_pred(q: EventQuery) -> spec_fn(EventDescriptor) -> bool {
    |d: EventDescriptor| descriptor_matches(d@, q)
}

/// The descriptors that pass a query's filters, in registry order.
pub open spec fn matching_descriptors(ds: Seq<EventDescriptor>, q: EventQuery) -> Seq<EventDescriptor> {
    ds.filter(query_pred(q))
}

/// What a query answers: the matching descriptors ordered by name, then the
/// requested page.
pub open spec fn query_answer(ds: Seq<EventDescriptor>, q: EventQuery) -> Seq<EventDescriptor> {
    page(sort_stable(matching_descriptors(ds, q)), q.offset, q.limit)
}

impl SpecOrder for EventDescriptor {
    /// By name.
    open spec fn precedes(&self, other: &Self) -> bool {
        !seq_lt(other.event_name@, self.event_name@)
    }

    proof fn lemma_total(a: &Self, b: &Self) {
        lemma_seq_lt_asymmetric(a.event_name@, b.event_name@);
    }

    proof fn lemma_transitive(a: &Self, b: &Self, c: &Self) {
        let (x, y, z) = (a.event_name@, b.event_name@, c.event_name@);
        if seq_lt(z, x) && x != y {
            lemma_seq_lt_total(x, y);
            lemma_seq_lt_transitive(z, x, y);
        }
    }
}

impl SortOrder for EventDescriptor {
    fn precedes_exec(&self, other: &Self) -> (r: bool) {
        let a = to_chars(other.event_name.as_str());
        let b = to_chars(self.event_name.as_str());
        !chars_less(&a, &b)
    }
}

proof fn lemma_descriptor_order_by_view()
    ensures
        order_by_view::<EventDescriptor>(),
{
    assert forall|x: EventDescriptor, y: EventDescriptor, x2: EventDescriptor, y2: EventDescriptor|
        x@ == x2@ && y@ == y2@ implies #[trigger] x.precedes(&y) == #[trigger] x2.precedes(&y2) by {
        assert(x@.event_name == x2@.event_name);
        assert(y@.event_name == y2@.event_name);
    }
}

/// Whether a name passes a name filter.
pub fn name_filter(pattern: &str, name: &str) -> (r: bool)
    ensures
        r == name_filter_holds(pattern@, name@),
{
    let p = to_chars(pattern);
    let n = to_chars(name);
    if p.len() > 0 && p[p.len() - 1] == '*' {
        let mut prefix = p;
        prefix.pop();
        chars_starts_with(&n, &prefix)
    } else {
        chars_equal(&n, &p)
    }
}

/// Whether an event with these tags passes a tag filter.
pub fn tags_match(wanted: &Vec<String>, tags: &Vec<String>) -> (r: bool)
    ensures
        r == tags_hold(names_view(wanted@), names_view(tags@)),
{
    if wanted.len() == 0 {
        return true;
    }
    let mut i: usize = 0;
    while i < wanted.len()
        invariant
            i <= wanted.len(),
            forall|k: int| 0 <= k < i ==> !listed(names_view(tags@), #[trigger] names_view(wanted@)[k]),
        decreases wanted.len() - i,
    {
        if is_listed(tags, wanted[i].as_str()) {
            assert(names_view(wanted@)[i as int] == wanted@[i as int]@);
            return true;
        }
        assert(names_view(wanted@)[i as int] == wanted@[i as int]@);
        i = i + 1;
    }
    false
}

/// Lowercases a string (`str::to_lowercase`).
#[verifier::external_body]
fn to_lowercase(s: &str) -> (r: String)
    ensures
        r@ == lowercase(s@),
{
    s.to_lowercase()
}

/// Whether the lowercased search text occurs in the lowercased name or
/// description.
pub fn search_hit(search_lower: &str, name_lower: &str, description_lower: &str) -> (r: bool)
    ensures
        r == search_holds(search_lower@, name_lower@, description_lower@),
{
    let s = to_chars(search_lower);
    let n = to_chars(name_lower);
    if chars_contain(&n, &s) {
        return true;
    }
    let d = to_chars(description_lower);
    chars_contain(&d, &s)
}

/// Whether a descriptor passes a query's filters.
pub fn matches_event_query(d: &EventDescriptor, q: &EventQuery) -> (r: bool)
    ensures
        r == descriptor_matches(d@, *q),
{
    match &q.name {
        Some(n) => {
            if !name_filter(n.as_str(), d.event_name.as_str()) {
                return false;
            }
        },
        None => {},
    }
    match &q.topic {
        Some(t) => {
            if !str_equal(d.topic.as_str(), t.as_str()) {
                return false;
            }
        },
        None => {},
    }
    match &q.source_module {
        Some(m) => {
            match &d.source_module {
                Some(dm) => {
                    if !str_equal(dm.as_str(), m.as_str()) {
                        return false;
                    }
                },
                None => {
                    return false;
                },
            }
        },
        None => {},
    }
    if !tags_match(&q.tags, &d.tags) {
        return false;
    }
    match &q.search {
        Some(s) => {
            let sl = to_lowercase(s.as_str());
            let nl = to_lowercase(d.event_name.as_str());
            let dl = to_lowercase(d.description.as_str());
            search_hit(sl.as_str(), nl.as_str(), dl.as_str())
        },
        None => true,
    }
}

/// The event types a bus knows, one descriptor per name.
pub struct EventRegistry {
    events: Vec<EventDescriptor>,
}

impl EventRegistry {
    /// The descriptors, in registration order.
    pub closed spec fn descriptors(&self) -> Seq<EventDescriptor> {
        self.events@
    }

    /// Their views.
    pub open spec fn entries(&self) -> Seq<DescriptorView> {
        views(self.descriptors())
    }

    /// The registry's invariant: one descriptor per name.
    #[verifier::type_invariant]
    pub open spec fn wf(&self) -> bool {
        names_unique(self.entries())
    }

    /// An empty registry.
    pub fn new() -> (r: Self)
        ensures
            r.wf(),
            r.entries().len() == 0,
    {
        EventRegistry { events: Vec::new() }
    }

    /// Where the descriptor of this name is.
    fn position(&self, name: &str) -> (r: Option<usize>)
        ensures
            match r {
                Some(i) => i < self.descriptors().len() && index_of_name(self.entries(), name@) == i
                    && self.descriptors()[i as int]@.event_name == name@,
                None => index_of_name(self.entries(), name@) == -1,
            },
    {
        let ghost es = self.entries();
        let mut i: usize = self.events.len();
        assert(es.take(i as int) =~= es);
        while i > 0
            invariant
                i <= self.events@.len(),
                es == views(self.events@),
                index_of_name(es, name@) == index_of_name(es.take(i as int), name@),
            decreases i,
        {
            let j = i - 1;
            let ghost t = es.take(i as int);
            assert(t.last() == self.events@[j as int]@);
            assert(t.drop_last() =~= es.take(j as int));
            if str_equal(self.events[j].event_name.as_str(), name) {
                assert(index_of_name(t, name@) == j);
                return Some(j);
            }
            i = j;
        }
        None
    }

    /// Hands the descriptors out, leaving the registry empty.
    fn take_events(&mut self) -> (r: Vec<EventDescriptor>)
        ensures
            r@ == old(self).events@,
            final(self).events@.len() == 0,
    {
        let mut v: Vec<EventDescriptor> = Vec::new();
        std::mem::swap(&mut v, &mut self.events);
        v
    }

    /// Registers a descriptor, replacing the one of the same name.
    pub fn register(&mut self, descriptor: EventDescriptor)
        ensures
            final(self).wf(),
            final(self).entries() == registered(old(self).entries(), descriptor@),
    {
        proof {
            use_type_invariant(&*self);
        }
        let ghost es = self.entries();
        let ghost d = descriptor@;
        proof {
            lemma_index_of_name(es, d.event_name);
            law_register_then_lookup(es, d);
        }
        let pos = self.position(descriptor.event_name.as_str());
        let mut v = self.take_events();
        match pos {
            Some(i) => {
                v.set(i, descriptor);
            },
            None => {
                v.push(descriptor);
            },
        }
        assert(views(v@) =~= registered(es, d));
        self.events = v;
    }

    /// Registers an event with just a name and a topic, registered now.
    pub fn register_simple(&mut self, event_name: &str, topic: &str)
        ensures
            final(self).wf(),
            lookup(final(self).entries(), event_name@) is Some,
            final(self).entries() == registered(
                old(self).entries(),
                simple_descriptor(event_name@, topic@, lookup(final(self).entries(), event_name@)->0.registered_at),
            ),
    {
        proof {
            use_type_invariant(&*self);
        }
        let now = now_nanos();
        let descriptor = EventDescriptor {
            event_name: String::from_str(event_name),
            topic: String::from_str(topic),
            description: String::new(),
            schema: None,
            source_module: None,
            tags: Vec::new(),
            registered_at: now,
            publish_count: 0,
            subscriber_count: 0,
        };
        assert(descriptor@.tags =~= Seq::<Seq<char>>::empty());
        assert(descriptor@ == simple_descriptor(event_name@, topic@, now));
        let ghost es = self.entries();
        self.register(descriptor);
        proof {
            law_register_then_lookup(es, simple_descriptor(event_name@, topic@, now));
        }
    }

    /// Removes the event of this name; says whether there was one.
    pub fn unregister(&mut self, event_name: &str) -> (r: bool)
        ensures
            final(self).wf(),
            r == (lookup(old(self).entries(), event_name@) is Some),
            final(self).entries() == unregistered(old(self).entries(), event_name@),
    {
        proof {
            use_type_invariant(&*self);
        }
        let ghost es = self.entries();
        match self.position(event_name) {
            Some(i) => {
                proof {
                    law_unregister_removes(es, event_name@);
                }
                let mut v = self.take_events();
                v.remove(i);
                assert(views(v@) =~= unregistered(es, event_name@));
                self.events = v;
                true
            },
            None => {
                false
            },
        }
    }

    /// The descriptor of this name.
    pub fn get(&self, event_name: &str) -> (r: Option<EventDescriptor>)
        ensures
            opt_descriptor_view(r) == lookup(self.entries(), event_name@),
    {
        match self.position(event_name) {
            Some(i) => {
                assert(self.entries()[i as int] == self.events@[i as int]@);
                Some(copy_descriptor(&self.events[i]))
            },
            None => None,
        }
    }

    /// Whether an event of this name is registered.
    pub fn contains(&self, event_name: &str) -> (r: bool)
        ensures
            r == (lookup(self.entries(), event_name@) is Some),
    {
        self.position(event_name).is_some()
    }

    /// Every descriptor, in registration order.
    pub fn list_all(&self) -> (r: Vec<EventDescriptor>)
        ensures
            views(r@) == self.entries(),
    {
        let mut out: Vec<EventDescriptor> = Vec::new();
        let mut i: usize = 0;
        while i < self.events.len()
            invariant
                i <= self.events@.len(),
                out@.len() == i,
                forall|k: int| 0 <= k < i ==> #[trigger] out@[k]@ == self.events@[k]@,
            decreases self.events@.len() - i,
        {
            out.push(copy_descriptor(&self.events[i]));
            i = i + 1;
        }
        assert(views(out@) =~= self.entries());
        out
    }

    /// Every event name, in registration order.
    pub fn list_names(&self) -> (r: Vec<String>)
        ensures
            names_view(r@) == entry_names(self.entries()),
    {
        let mut out: Vec<String> = Vec::new();
        let mut i: usize = 0;
        while i < self.events.len()
            invariant
                i <= self.events@.len(),
                out@.len() == i,
                forall|k: int| 0 <= k < i ==> #[trigger] out@[k]@ == self.events@[k].event_name@,
            decreases self.events@.len() - i,
        {
            out.push(self.events[i].event_name.clone());
            i = i + 1;
        }
        assert(names_view(out@) =~= entry_names(self.entries()));
        out
    }

    /// The descriptors that pass the query, ordered by name, paged.
    pub fn query(&self, query: EventQuery) -> (r: Vec<EventDescriptor>)
        ensures
            views(r@) == views(query_answer(self.descriptors(), query)),
    {
        let ghost pred = query_pred(query);
        let mut results: Vec<EventDescriptor> = Vec::new();
        let mut i: usize = 0;
        assert(self.events@.take(0) =~= Seq::<EventDescriptor>::empty());
        while i < self.events.len()
            invariant
                i <= self.events@.len(),
                pred == query_pred(query),
                view_eq_seq(results@, self.events@.take(i as int).filter(pred)),
            decreases self.events@.len() - i,
        {
            let ghost t = self.events@.take(i + 1);
            let ghost before = results@;
            proof {
                assert(t.drop_last() =~= self.events@.take(i as int));
                assert(t.last() == self.events@[i as int]);
                reveal_with_fuel(Seq::filter, 1);
                assert(t.filter(pred) == if pred(t.last()) {
                    t.drop_last().filter(pred).push(t.last())
                } else {
                    t.drop_last().filter(pred)
                });
            }
            if matches_event_query(&self.events[i], &query) {
                let c = copy_descriptor(&self.events[i]);
                results.push(c);
                proof {
                    let f = t.drop_last().filter(pred);
                    assert forall|k: int| 0 <= k < results@.len() implies #[trigger] results@[k]@ == f.push(t.last())[k]@ by {
                        if k < before.len() {
                            assert(before[k]@ == f[k]@);
                        }
                    }
                }
            }
            i = i + 1;
        }
        assert(self.events@.take(self.events@.len() as int) =~= self.events@);
        let ghost filtered = matching_descriptors(self.events@, query);
        assert(self.events@.filter(pred) == filtered);
        proof {
            lemma_descriptor_order_by_view();
            lemma_sort_stable_view(results@, filtered);
        }
        let sorted = stable_sort(results);
        proof {
            lemma_page_view_eq(sorted@, sort_stable(filtered), query.offset, query.limit);
        }
        let r = take_page(sorted, query.offset, query.limit);
        assert(views(r@) =~= views(query_answer(self.events@, query)));
        r
    }

    /// Counts one more publish of the event of this name, if registered.
    pub fn increment_publish_count(&mut self, event_name: &str)
        requires
            lookup(old(self).entries(), event_name@) matches Some(d) ==> d.publish_count < u64::MAX,
        ensures
            final(self).wf(),
            final(self).entries() == updated(old(self).entries(), event_name@, |d: DescriptorView| bump_publish(d)),
    {
        proof {
            use_type_invariant(&*self);
        }
        let ghost es = self.entries();
        match self.position(event_name) {
            Some(i) => {
                let mut v = self.take_events();
                let c = v[i].publish_count;
                v[i].publish_count = c + 1;
                assert(views(v@) =~= updated(es, event_name@, |d: DescriptorView| bump_publish(d)));
                proof {
                    assert forall|a: int, b: int| 0 <= a < b < views(v@).len() implies
                        #[trigger] views(v@)[a].event_name != #[trigger] views(v@)[b].event_name by {
                        assert(es[a].event_name != es[b].event_name);
                    }
                }
                self.events = v;
            },
            None => {
                assert(self.entries() =~= updated(es, event_name@, |d: DescriptorView| bump_publish(d)));
            },
        }
    }

    /// Sets the subscriber count of the event of this name, if registered.
    pub fn set_subscriber_count(&mut self, event_name: &str, count: usize)
        ensures
            final(self).wf(),
            final(self).entries() == updated(old(self).entries(), event_name@, with_subscribers(count)),
    {
        proof {
            use_type_invariant(&*self);
        }
        let ghost es = self.entries();
        match self.position(event_name) {
            Some(i) => {
                let mut v = self.take_events();
                v[i].subscriber_count = count;
                assert(views(v@) =~= updated(es, event_name@, with_subscribers(count)));
                proof {
                    assert forall|a: int, b: int| 0 <= a < b < views(v@).len() implies
                        #[trigger] views(v@)[a].event_name != #[trigger] views(v@)[b].event_name by {
                        assert(es[a].event_name != es[b].event_name);
                    }
                }
                self.events = v;
            },
            None => {
                assert(self.entries() =~= updated(es, event_name@, with_subscribers(count)));
            },
        }
    }

    /// How many events are registered.
    pub fn count(&self) -> (r: usize)
        ensures
            r == self.entries().len(),
    {
        self.events.len()
    }

    /// Removes every event.
    pub fn clear(&mut self)
        ensures
            final(self).wf(),
            final(self).entries().len() == 0,
    {
        self.events = Vec::new();
    }
}

/// After registering a descriptor, looking up its name gives it, and names
/// stay unique.
pub proof fn law_register_then_lookup(es: Seq<DescriptorView>, d: DescriptorView)
    requires
        names_unique(es),
    ensures
        names_unique(registered(es, d)),
        lookup(registered(es, d), d.event_name) == Some(d),
{
    lemma_index_of_name(es, d.event_name);
    let i = index_of_name(es, d.event_name);
    let r = registered(es, d);
    assert forall|a: int, b: int| 0 <= a < b < r.len() implies #[trigger] r[a].event_name != #[trigger] r[b].event_name by {
        if i < 0 {
            if b < es.len() {
                assert(es[a].event_name != es[b].event_name);
            } else {
                assert(es[a].event_name != d.event_name);
            }
        } else {
            if a == i {
                assert(es[b].event_name != es[i].event_name);
            } else if b == i {
                assert(es[a].event_name != es[i].event_name);
            } else {
                assert(es[a].event_name != es[b].event_name);
            }
        }
    }
    if i < 0 {
        lemma_index_of_unique(r, d.event_name, es.len() as int);
    } else {
        lemma_index_of_unique(r, d.event_name, i);
    }
}

/// Registering a descriptor leaves the other names as they were.
pub proof fn law_register_keeps_other_names(es: Seq<DescriptorView>, d: DescriptorView, name: Seq<char>)
    requires
        names_unique(es),
        name != d.event_name,
    ensures
        lookup(registered(es, d), name) == lookup(es, name),
{
    law_register_then_lookup(es, d);
    let r = registered(es, d);
    lemma_index_of_name(es, name);
    lemma_index_of_name(r, name);
    lemma_index_of_name(es, d.event_name);
    let j = index_of_name(es, name);
    let k = index_of_name(r, name);
    if j >= 0 {
        assert(r[j] == es[j]);
        lemma_index_of_unique(r, name, j);
    } else if k >= 0 {
        assert(r[k].event_name == name);
        assert(k < es.len());
        assert(r[k] == es[k]);
    }
}

/// Registering adds an entry exactly when the name was new.
pub proof fn law_register_count(es: Seq<DescriptorView>, d: DescriptorView)
    ensures
        registered(es, d).len() == es.len() + (if lookup(es, d.event_name) is Some { 0int } else { 1int }),
{
    lemma_index_of_name(es, d.event_name);
}

/// After unregistering a name, looking it up gives nothing, the other names
/// stay as they were, and names stay unique.
pub proof fn law_unregister_removes(es: Seq<DescriptorView>, name: Seq<char>)
    requires
        names_unique(es),
    ensures
        names_unique(unregistered(es, name)),
        lookup(unregistered(es, name), name) is None,
        forall|other: Seq<char>| other != name ==> #[trigger] lookup(unregistered(es, name), other) == lookup(es, other),
{
    lemma_index_of_name(es, name);
    let i = index_of_name(es, name);
    let r = unregistered(es, name);
    if i >= 0 {
        assert forall|a: int, b: int| 0 <= a < b < r.len() implies #[trigger] r[a].event_name != #[trigger] r[b].event_name by {
            let a2 = if a < i { a } else { a + 1 };
            let b2 = if b < i { b } else { b + 1 };
            assert(r[a] == es[a2] && r[b] == es[b2]);
            assert(es[a2].event_name != es[b2].event_name);
        }
        lemma_index_of_name(r, name);
        let k = index_of_name(r, name);
        if k >= 0 {
            let k2 = if k < i { k } else { k + 1 };
            assert(r[k] == es[k2]);
            assert(es[k2].event_name != es[i].event_name);
        }
        assert forall|other: Seq<char>| other != name implies #[trigger] lookup(r, other) == lookup(es, other) by {
            lemma_index_of_name(es, other);
            lemma_index_of_name(r, other);
            let j = index_of_name(es, other);
            let m = index_of_name(r, other);
            if j >= 0 {
                assert(j != i);
                let j2 = if j < i { j } else { j - 1 };
                assert(r[j2] == es[j]);
                lemma_index_of_unique(r, other, j2);
            } else if m >= 0 {
                let m2 = if m < i { m } else { m + 1 };
                assert(r[m] == es[m2]);
            }
        }
    } else {
        lemma_index_of_name(r, name);
    }
}

/// A publish count goes up by one for the named event and for no other.
pub proof fn law_increment_counts_one(es: Seq<DescriptorView>, name: Seq<char>, other: Seq<char>)
    requires
        names_unique(es),
    ensures
        lookup(es, name) matches Some(d) ==> lookup(updated(es, name, |x: DescriptorView| bump_publish(x)), name) == Some(
            bump_publish(d),
        ),
        other != name ==> lookup(updated(es, name, |x: DescriptorView| bump_publish(x)), other) == lookup(es, other),
{
    let r = updated(es, name, |x: DescriptorView| bump_publish(x));
    lemma_index_of_name(es, name);
    lemma_index_of_name(es, other);
    lemma_index_of_name(r, name);
    lemma_index_of_name(r, other);
    let i = index_of_name(es, name);
    if i >= 0 {
        assert(r[i].event_name == name);
        assert forall|a: int, b: int| 0 <= a < b < r.len() implies #[trigger] r[a].event_name != #[trigger] r[b].event_name by {
            assert(es[a].event_name != es[b].event_name);
        }
        lemma_index_of_unique(r, name, i);
        if other != name {
            let j = index_of_name(es, other);
            let m = index_of_name(r, other);
            if j >= 0 {
                assert(r[j] == es[j]);
                lemma_index_of_unique(r, other, j);
            } else if m >= 0 {
                assert(m != i);
                assert(r[m] == es[m]);
            }
        }
    } else {
        assert(r == es);
    }
}

/// A query answers in name order, and answers only events that pass its
/// filters; without paging it answers every such event.
pub proof fn law_query_sorted_and_matching(ds: Seq<EventDescriptor>, q: EventQuery)
    ensures
        is_sorted(query_answer(ds, q)),
        forall|k: int| 0 <= k < query_answer(ds, q).len() ==> descriptor_matches(#[trigger] query_answer(ds, q)[k]@, q),
        q.offset is None && q.limit is None ==> query_answer(ds, q).len() == matching_descriptors(ds, q).len(),
{
    let m = matching_descriptors(ds, q);
    let s = sort_stable(m);
    lemma_sort_stable_sorted(m);
    lemma_sort_stable_contains(m);
    let a = query_answer(ds, q);
    let off = match q.offset { Some(o) => o as int, None => 0 };
    let start = if off > s.len() { s.len() as int } else { off };
    assert forall|i: int, j: int| 0 <= i < j < a.len() implies a[i].precedes(&a[j]) by {
        assert(a[i] == s[start + i] && a[j] == s[start + j]);
    }
    assert forall|k: int| 0 <= k < a.len() implies descriptor_matches(#[trigger] a[k]@, q) by {
        assert(a[k] == s[start + k]);
        assert(m.contains(s[start + k]));
        let n = choose|n: int| 0 <= n < m.len() && m[n] == s[start + k];
        ds.lemma_filter_pred(query_pred(q), n);
    }
}


/// The query with its paging left out.
pub open spec fn unpaged_query(q: EventQuery) -> EventQuery {
    EventQuery { limit: None, offset: None, ..q }
}

/// A paged query answers a slice of the unpaged, name-ordered answer: from
/// the offset on, at most `limit` descriptors. So the pages at offsets 0, l,
/// 2l, ... follow one another through the whole answer.
pub proof fn law_query_page_is_slice(ds: Seq<EventDescriptor>, q: EventQuery)
    ensures
        query_answer(ds, q).len() == page_len(query_answer(ds, unpaged_query(q)).len() as int, q.offset, q.limit),
        forall|i: int|
            0 <= i < query_answer(ds, q).len() ==> #[trigger] query_answer(ds, q)[i] == query_answer(
                ds,
                unpaged_query(q),
            )[offset_of(q.offset) + i],
{
    let u = unpaged_query(q);
    assert(matching_descriptors(ds, u) == matching_descriptors(ds, q)) by {
        assert(query_pred(u) =~= query_pred(q));
    }
    let s = sort_stable(matching_descriptors(ds, q));
    lemma_page_slice(s, q.offset, q.limit);
    lemma_page_slice(s, None, None);
}
} // verus!
