//! Trigger rules: an event whose name matches a rule's pattern, and whose
//! payload meets the rule's condition, sets off the action the rule names.
//!
//! The rule store keeps its rules in priority order (lower first; equal
//! priorities in the order they came), and the engine picks, for each event,
//! the actions to run in that order.
use vstd::prelude::*;
use crate::condition::{condition_holds, matches_condition};
use crate::json::{json_clone, Json, JsonValue};
use crate::registry::opt_json_view;
use crate::sort::{
    is_sorted, lemma_sort_stable_contains, lemma_sort_stable_has, lemma_sort_stable_map_view, lemma_sort_stable_sorted,
    lemma_sorted_is_fixed, law_sort_stable_permutes, order_is_view_order, rank_of, seq_view, sort_stable, stable_sort,
    SortOrder, SpecOrder,
};
use crate::sse::{is_listed, listed, names_view};
use crate::text::str_equal;
use crate::topic::topic_matches;

pub use crate::condition::ConditionLimits;

verus! {

/// A rule: events whose name matches `event_pattern`, and whose payload meets
/// `condition`, set off the action named `action_type`.
#[derive(Clone, Debug)]
pub struct TriggerRule {
    pub id: String,
    /// A name to show.
    pub name: String,
    /// An event name pattern: `*` matches one segment, `**` any number.
    pub event_pattern: String,
    /// A condition on the payload, such as `{"status": {"$eq": "published"}}`.
    pub condition: Option<JsonValue>,
    /// The registered action to run.
    pub action_type: String,
    /// What the action is handed.
    pub action_config: JsonValue,
    pub enabled: bool,
    /// Lower runs first.
    pub priority: i32,
}

/// The mathematical form of a [`TriggerRule`].
pub struct RuleView {
    pub id: Seq<char>,
    pub name: Seq<char>,
    pub event_pattern: Seq<char>,
    pub condition: Option<Json>,
    pub action_type: Seq<char>,
    pub action_config: Json,
    pub enabled: bool,
    pub priority: i32,
}

impl View for TriggerRule {
    type V = RuleView;

    open spec fn view(&self) -> RuleView {
        RuleView {
            id: self.id@,
            name: self.name@,
            event_pattern: self.event_pattern@,
            condition: opt_json_view(self.condition),
            action_type: self.action_type@,
            action_config: self.action_config@,
            enabled: self.enabled,
            priority: self.priority,
        }
    }
}

/// A rule is enabled unless it says otherwise.
pub fn default_true() -> (r: bool)
    ensures
        r,
{
    true
}

/// A copy of a rule.
pub fn copy_rule(r: &TriggerRule) -> (c: TriggerRule)
    ensures
        c@ == r@,
{
    TriggerRule {
        id: r.id.clone(),
        name: r.name.clone(),
        event_pattern: r.event_pattern.clone(),
        condition: match &r.condition {
            Some(c) => Some(json_clone(c)),
            None => None,
        },
        action_type: r.action_type.clone(),
        action_config: json_clone(&r.action_config),
        enabled: r.enabled,
        priority: r.priority,
    }
}

impl SpecOrder for RuleView {
    /// By priority, lower first.
    open spec fn precedes(&self, other: &Self) -> bool {
        self.priority <= other.priority
    }

    proof fn lemma_total(a: &Self, b: &Self) {
    }

    proof fn lemma_transitive(a: &Self, b: &Self, c: &Self) {
    }
}

impl SpecOrder for TriggerRule {
    /// By priority, lower first.
    open spec fn precedes(&self, other: &Self) -> bool {
        self.priority <= other.priority
    }

    proof fn lemma_total(a: &Self, b: &Self) {
    }

    proof fn lemma_transitive(a: &Self, b: &Self, c: &Self) {
    }
}

impl SortOrder for TriggerRule {
    fn precedes_exec(&self, other: &Self) -> (r: bool) {
        self.priority <= other.priority
    }
}

proof fn lemma_rule_order_is_view_order()
    ensures
        order_is_view_order::<TriggerRule>(),
{
}

/// The position of the first rule with this id, or -1.
pub open spec fn index_of_id(rules: Seq<RuleView>, id: Seq<char>) -> int
    decreases rules.len(),
{
    if rules.len() == 0 {
        -1
    } else if rules[0].id == id {
        0
    } else {
        let k = index_of_id(rules.drop_first(), id);
        if k < 0 {
            -1
        } else {
            k + 1
        }
    }
}

/// What `index_of_id` finds: a rule with the id, before which none has it.
pub proof fn lemma_index_of_id(rules: Seq<RuleView>, id: Seq<char>)
    ensures
        -1 <= index_of_id(rules, id) < rules.len(),
        index_of_id(rules, id) >= 0 ==> rules[index_of_id(rules, id)].id == id,
        forall|j: int|
            0 <= j < rules.len() && (index_of_id(rules, id) < 0 || j < index_of_id(rules, id)) ==> #[trigger] rules[j].id
                != id,
    decreases rules.len(),
{
    if rules.len() > 0 && rules[0].id != id {
        let t = rules.drop_first();
        lemma_index_of_id(t, id);
        assert forall|j: int|
            0 <= j < rules.len() && (index_of_id(rules, id) < 0 || j < index_of_id(rules, id)) implies #[trigger] rules[j].id
                != id by {
            if j > 0 {
                assert(rules[j] == t[j - 1]);
            }
        }
    }
}

/// A rule with the id, before which none has it, is the one `index_of_id` finds.
pub proof fn lemma_index_of_id_at(rules: Seq<RuleView>, id: Seq<char>, k: int)
    requires
        0 <= k < rules.len(),
        rules[k].id == id,
        forall|j: int| 0 <= j < k ==> #[trigger] rules[j].id != id,
    ensures
        index_of_id(rules, id) == k,
{
    lemma_index_of_id(rules, id);
    let i = index_of_id(rules, id);
    if i < 0 || i > k {
        assert(rules[k].id != id);
    } else if i < k {
        assert(rules[i].id != id);
    }
}

/// No rule has the id.
pub proof fn lemma_index_of_id_none(rules: Seq<RuleView>, id: Seq<char>)
    requires
        forall|j: int| 0 <= j < rules.len() ==> #[trigger] rules[j].id != id,
    ensures
        index_of_id(rules, id) == -1,
{
    lemma_index_of_id(rules, id);
    let i = index_of_id(rules, id);
    if i >= 0 {
        assert(rules[i].id != id);
    }
}

/// The first rule with this id.
pub open spec fn rule_with_id(rules: Seq<RuleView>, id: Seq<char>) -> Option<RuleView> {
    let i = index_of_id(rules, id);
    if i < 0 {
        None
    } else {
        Some(rules[i])
    }
}

pub open spec fn opt_rule_view(o: Option<TriggerRule>) -> Option<RuleView> {
    match o {
        Some(r) => Some(r@),
        None => None,
    }
}

/// The rules after adding one: appended, then sorted stably by priority.
pub open spec fn after_add(rules: Seq<RuleView>, rule: RuleView) -> Seq<RuleView> {
    sort_stable(rules.push(rule))
}

/// The rules after adding several, one after the other.
pub open spec fn after_add_all(rules: Seq<RuleView>, new_rules: Seq<RuleView>) -> Seq<RuleView>
    decreases new_rules.len(),
{
    if new_rules.len() == 0 {
        rules
    } else {
        after_add(after_add_all(rules, new_rules.drop_last()), new_rules.last())
    }
}

/// The rules after removing the first one with this id.
pub open spec fn after_remove(rules: Seq<RuleView>, id: Seq<char>) -> Seq<RuleView> {
    let i = index_of_id(rules, id);
    if i < 0 {
        rules
    } else {
        rules.remove(i)
    }
}

/// The rules after replacing the first one with the new rule's id, then
/// sorting stably by priority; unchanged when no rule has that id.
pub open spec fn after_update(rules: Seq<RuleView>, rule: RuleView) -> Seq<RuleView> {
    let i = index_of_id(rules, rule.id);
    if i < 0 {
        rules
    } else {
        sort_stable(rules.update(i, rule))
    }
}

/// A rule with its `enabled` flag set.
pub open spec fn with_enabled(rule: RuleView, enabled: bool) -> RuleView {
    RuleView { enabled, ..rule }
}

/// The rules after enabling or disabling the one with this id.
pub open spec fn after_set_enabled(rules: Seq<RuleView>, id: Seq<char>, enabled: bool) -> Seq<RuleView> {
    match rule_with_id(rules, id) {
        Some(r) => after_update(rules, with_enabled(r, enabled)),
        None => rules,
    }
}

/// A store of trigger rules; implement it to keep the rules elsewhere.
///
/// `stored` is the list of rules in the order `list` gives them: by priority,
/// lower first, and in the order they came among equal priorities.
pub trait RuleStorage {
    spec fn stored(&self) -> Seq<RuleView>;

    /// Adds a rule.
    fn add(&mut self, rule: TriggerRule)
        ensures
            final(self).stored() == after_add(old(self).stored(), rule@),
    ;

    /// Removes the first rule with this id and hands it back.
    fn remove(&mut self, rule_id: &str) -> (r: Option<TriggerRule>)
        ensures
            opt_rule_view(r) == rule_with_id(old(self).stored(), rule_id@),
            final(self).stored() == after_remove(old(self).stored(), rule_id@),
    ;

    /// The first rule with this id.
    fn get(&self, rule_id: &str) -> (r: Option<TriggerRule>)
        ensures
            opt_rule_view(r) == rule_with_id(self.stored(), rule_id@),
    ;

    /// Replaces the first rule with the new rule's id; says whether there was one.
    fn update(&mut self, rule: TriggerRule) -> (r: bool)
        ensures
            r == (rule_with_id(old(self).stored(), rule@.id) is Some),
            final(self).stored() == after_update(old(self).stored(), rule@),
    ;

    /// Every rule, in order.
    fn list(&self) -> (r: Vec<TriggerRule>)
        ensures
            seq_view(r@) == self.stored(),
    ;

    /// How many rules there are.
    fn count(&self) -> (r: usize)
        ensures
            r == self.stored().len(),
    ;
}

/// Rules kept in memory, always in priority order.
pub struct InMemoryRuleStorage {
    rules: Vec<TriggerRule>,
}

impl InMemoryRuleStorage {
    /// The rules, in order.
    pub closed spec fn rules_view(&self) -> Seq<RuleView> {
        seq_view(self.rules@)
    }

    /// The store's invariant: its rules are in priority order.
    #[verifier::type_invariant]
    closed spec fn in_priority_order(self) -> bool {
        is_sorted(seq_view(self.rules@))
    }

    /// An empty store.
    pub fn new() -> (r: Self)
        ensures
            r.rules_view().len() == 0,
            is_sorted(r.rules_view()),
    {
        InMemoryRuleStorage { rules: Vec::new() }
    }

    fn find(&self, rule_id: &str) -> (r: Option<usize>)
        ensures
            match r {
                Some(i) => i < self.rules@.len() && index_of_id(self.rules_view(), rule_id@) == i,
                None => index_of_id(self.rules_view(), rule_id@) == -1,
            },
    {
        let ghost rv = self.rules_view();
        let mut i: usize = 0;
        while i < self.rules.len()
            invariant
                i <= self.rules@.len(),
                rv == seq_view(self.rules@),
                forall|j: int| 0 <= j < i ==> #[trigger] rv[j].id != rule_id@,
            decreases self.rules@.len() - i,
        {
            assert(rv[i as int] == self.rules@[i as int]@);
            if str_equal(self.rules[i].id.as_str(), rule_id) {
                proof {
                    lemma_index_of_id_at(rv, rule_id@, i as int);
                }
                return Some(i);
            }
            i = i + 1;
        }
        proof {
            lemma_index_of_id_none(rv, rule_id@);
        }
        None
    }

    /// Hands the rules out, leaving the store empty.
    fn take_rules(&mut self) -> (r: Vec<TriggerRule>)
        ensures
            r@ == old(self).rules@,
            final(self).rules@.len() == 0,
    {
        let mut v: Vec<TriggerRule> = Vec::new();
        std::mem::swap(&mut v, &mut self.rules);
        v
    }
}

/// The rules sorted stably by priority.
fn sorted_rules(v: Vec<TriggerRule>) -> (r: Vec<TriggerRule>)
    ensures
        seq_view(r@) == sort_stable(seq_view(v@)),
        is_sorted(seq_view(r@)),
{
    proof {
        lemma_rule_order_is_view_order();
        lemma_sort_stable_map_view(v@);
        lemma_sort_stable_sorted(seq_view(v@));
    }
    stable_sort(v)
}

impl Default for InMemoryRuleStorage {
    fn default() -> (r: Self)
        ensures
            r.rules_view().len() == 0,
    {
        InMemoryRuleStorage::new()
    }
}

impl RuleStorage for InMemoryRuleStorage {
    open spec fn stored(&self) -> Seq<RuleView> {
        self.rules_view()
    }

    fn add(&mut self, rule: TriggerRule)
        ensures
            is_sorted(final(self).stored()),
    {
        let ghost rule_view = rule@;
        let mut v = self.take_rules();
        let ghost before = v@;
        v.push(rule);
        assert(seq_view(v@) =~= seq_view(before).push(rule_view));
        self.rules = sorted_rules(v);
    }

    fn remove(&mut self, rule_id: &str) -> (r: Option<TriggerRule>)
        ensures
            is_sorted(final(self).stored()),
    {
        proof {
            use_type_invariant(&*self);
        }
        match self.find(rule_id) {
            Some(i) => {
                let mut v = self.take_rules();
                let ghost before = seq_view(v@);
                let removed = v.remove(i);
                assert(seq_view(v@) =~= before.remove(i as int));
                assert(is_sorted(seq_view(v@))) by {
                    let r = seq_view(v@);
                    assert forall|a: int, b: int| 0 <= a < b < r.len() implies r[a].precedes(&r[b]) by {
                        let a2 = if a < i { a } else { a + 1 };
                        let b2 = if b < i { b } else { b + 1 };
                        assert(r[a] == before[a2] && r[b] == before[b2]);
                    }
                }
                self.rules = v;
                Some(removed)
            },
            None => None,
        }
    }

    fn get(&self, rule_id: &str) -> (r: Option<TriggerRule>)
        ensures
            is_sorted(self.stored()),
    {
        proof {
            use_type_invariant(self);
        }
        match self.find(rule_id) {
            Some(i) => Some(copy_rule(&self.rules[i])),
            None => None,
        }
    }

    fn update(&mut self, rule: TriggerRule) -> (r: bool)
        ensures
            is_sorted(final(self).stored()),
    {
        proof {
            use_type_invariant(&*self);
        }
        let ghost rule_view = rule@;
        match self.find(rule.id.as_str()) {
            Some(i) => {
                let mut v = self.take_rules();
                let ghost before = v@;
                v.set(i, rule);
                assert(seq_view(v@) =~= seq_view(before).update(i as int, rule_view));
                self.rules = sorted_rules(v);
                true
            },
            None => false,
        }
    }

    fn list(&self) -> (r: Vec<TriggerRule>)
        ensures
            is_sorted(self.stored()),
    {
        proof {
            use_type_invariant(self);
        }
        let mut out: Vec<TriggerRule> = Vec::new();
        let mut i: usize = 0;
        while i < self.rules.len()
            invariant
                i <= self.rules@.len(),
                out@.len() == i,
                forall|k: int| 0 <= k < i ==> #[trigger] out@[k]@ == self.rules@[k]@,
            decreases self.rules@.len() - i,
        {
            out.push(copy_rule(&self.rules[i]));
            i = i + 1;
        }
        assert(seq_view(out@) =~= self.rules_view());
        out
    }

    fn count(&self) -> (r: usize)
        ensures
            is_sorted(self.stored()),
    {
        proof {
            use_type_invariant(self);
        }
        self.rules.len()
    }
}

/// What an action is handed when its rule fires.
#[derive(Clone, Debug)]
pub struct TriggerContext {
    /// The event that fired the rule.
    pub event_name: String,
    /// The event's payload.
    pub event_data: JsonValue,
    pub rule_id: String,
    pub rule_name: String,
    /// The rule's action configuration.
    pub action_config: JsonValue,
}

/// The mathematical form of a [`TriggerContext`].
pub struct ContextView {
    pub event_name: Seq<char>,
    pub event_data: Json,
    pub rule_id: Seq<char>,
    pub rule_name: Seq<char>,
    pub action_config: Json,
}

impl View for TriggerContext {
    type V = ContextView;

    open spec fn view(&self) -> ContextView {
        ContextView {
            event_name: self.event_name@,
            event_data: self.event_data@,
            rule_id: self.rule_id@,
            rule_name: self.rule_name@,
            action_config: self.action_config@,
        }
    }
}

/// One action to run: the action type and what it is handed.
#[derive(Clone, Debug)]
pub struct ActionInvocation {
    pub action_type: String,
    pub context: TriggerContext,
}

/// The mathematical form of an [`ActionInvocation`].
pub struct InvocationView {
    pub action_type: Seq<char>,
    pub context: ContextView,
}

impl View for ActionInvocation {
    type V = InvocationView;

    open spec fn view(&self) -> InvocationView {
        InvocationView { action_type: self.action_type@, context: self.context@ }
    }
}

/// Whether a rule fires for an event: it is enabled, its pattern matches the
/// event name, its condition (if any) holds of the payload, and its action
/// type is registered.
pub open spec fn rule_fires(
    rule: RuleView,
    event_name: Seq<char>,
    data: Json,
    action_types: Seq<Seq<char>>,
    limits: ConditionLimits,
) -> bool {
    &&& rule.enabled
    &&& topic_matches(rule.event_pattern, event_name)
    &&& (rule.condition matches Some(c) ==> condition_holds(data, c, limits))
    &&& listed(action_types, rule.action_type)
}

pub open spec fn fires_pred(
    event_name: Seq<char>,
    data: Json,
    action_types: Seq<Seq<char>>,
    limits: ConditionLimits,
) -> spec_fn(RuleView) -> bool {
    |rule: RuleView| rule_fires(rule, event_name, data, action_types, limits)
}

/// The action a firing rule runs.
pub open spec fn invocation_for(rule: RuleView, event_name: Seq<char>, data: Json) -> InvocationView {
    InvocationView {
        action_type: rule.action_type,
        context: ContextView {
            event_name,
            event_data: data,
            rule_id: rule.id,
            rule_name: rule.name,
            action_config: rule.action_config,
        },
    }
}

pub open spec fn invocation_fn(event_name: Seq<char>, data: Json) -> spec_fn(RuleView) -> InvocationView {
    |rule: RuleView| invocation_for(rule, event_name, data)
}

/// The actions an event sets off: one for each firing rule, in rule order.
pub open spec fn planned(
    rules: Seq<RuleView>,
    event_name: Seq<char>,
    data: Json,
    action_types: Seq<Seq<char>>,
    limits: ConditionLimits,
) -> Seq<InvocationView> {
    rules.filter(fires_pred(event_name, data, action_types, limits)).map_values(invocation_fn(event_name, data))
}

/// Whether a rule fires for an event.
pub fn fires(
    rule: &TriggerRule,
    event_name: &str,
    data: &JsonValue,
    action_types: &Vec<String>,
    limits: &ConditionLimits,
) -> (r: bool)
    ensures
        r == rule_fires(rule@, event_name@, data@, names_view(action_types@), *limits),
{
    if !rule.enabled {
        return false;
    }
    if !crate::topic::matches(rule.event_pattern.as_str(), event_name) {
        return false;
    }
    match &rule.condition {
        Some(c) => {
            if !matches_condition(data, c, limits) {
                return false;
            }
        },
        None => {},
    }
    is_listed(action_types, rule.action_type.as_str())
}

/// The action types after registering one: a new name is added at the end.
pub open spec fn with_action(types: Seq<Seq<char>>, action_type: Seq<char>) -> Seq<Seq<char>> {
    if listed(types, action_type) {
        types
    } else {
        types.push(action_type)
    }
}

/// Picks the actions to run for published events, by the rules in a store.
///
/// The action handlers themselves are run by the caller: the engine keeps
/// the names of the registered action types.
pub struct TriggerRuleEngine<S: RuleStorage> {
    storage: S,
    action_types: Vec<String>,
    running: bool,
    limits: ConditionLimits,
}

impl TriggerRuleEngine<InMemoryRuleStorage> {
    /// An engine over an empty in-memory store, with the default limits.
    pub fn new() -> (r: Self)
        ensures
            r.rules().len() == 0,
            r.action_types().len() == 0,
            !r.running(),
            r.condition_limits() == (ConditionLimits { max_path_depth: 10, max_operators: 20, max_string_length: 10_000 }),
    {
        Self::with_storage(InMemoryRuleStorage::new())
    }

    /// An engine over an empty in-memory store, with these limits.
    pub fn with_limits(limits: ConditionLimits) -> (r: Self)
        ensures
            r.rules().len() == 0,
            r.action_types().len() == 0,
            !r.running(),
            r.condition_limits() == limits,
    {
        Self::with_storage_and_limits(InMemoryRuleStorage::new(), limits)
    }
}

impl<S: RuleStorage> TriggerRuleEngine<S> {
    /// The store.
    pub closed spec fn store(&self) -> S {
        self.storage
    }

    /// The rules, in order.
    pub open spec fn rules(&self) -> Seq<RuleView> {
        self.store().stored()
    }

    /// The registered action types.
    pub closed spec fn action_types(&self) -> Seq<Seq<char>> {
        names_view(self.action_types@)
    }

    /// Whether the engine reacts to published events.
    pub closed spec fn running(&self) -> bool {
        self.running
    }

    /// The limits of condition evaluation.
    pub closed spec fn condition_limits(&self) -> ConditionLimits {
        self.limits
    }

    /// The same action types, running state and limits.
    pub open spec fn same_setup(&self, other: &Self) -> bool {
        &&& self.action_types() == other.action_types()
        &&& self.running() == other.running()
        &&& self.condition_limits() == other.condition_limits()
    }

    /// An engine over the given store, with the default limits.
    pub fn with_storage(storage: S) -> (r: Self)
        ensures
            r.store() == storage,
            r.action_types().len() == 0,
            !r.running(),
            r.condition_limits() == (ConditionLimits { max_path_depth: 10, max_operators: 20, max_string_length: 10_000 }),
    {
        Self::with_storage_and_limits(storage, ConditionLimits::new())
    }

    /// An engine over the given store, with these limits.
    pub fn with_storage_and_limits(storage: S, limits: ConditionLimits) -> (r: Self)
        ensures
            r.store() == storage,
            r.action_types().len() == 0,
            !r.running(),
            r.condition_limits() == limits,
    {
        let r = TriggerRuleEngine { storage, action_types: Vec::new(), running: false, limits };
        assert(r.action_types() =~= Seq::<Seq<char>>::empty());
        r
    }

    /// The store.
    pub fn storage(&self) -> (r: &S)
        ensures
            *r == self.store(),
    {
        &self.storage
    }

    /// Registers an action type; rules that name it can fire.
    pub fn register_action(&mut self, action_type: &str)
        ensures
            final(self).action_types() == with_action(old(self).action_types(), action_type@),
            final(self).store() == old(self).store(),
            final(self).running() == old(self).running(),
            final(self).condition_limits() == old(self).condition_limits(),
    {
        if !is_listed(&self.action_types, action_type) {
            let ghost before = self.action_types@;
            self.action_types.push(String::from_str(action_type));
            assert(names_view(self.action_types@) =~= names_view(before).push(action_type@));
        }
    }

    /// Adds a rule.
    pub fn add_rule(&mut self, rule: TriggerRule)
        ensures
            final(self).rules() == after_add(old(self).rules(), rule@),
            final(self).same_setup(old(self)),
            is_sorted(final(self).rules()),
    {
        self.storage.add(rule);
        proof {
            lemma_sort_stable_sorted(old(self).rules().push(rule@));
        }
    }

    /// Adds rules, one after the other.
    pub fn add_rules(&mut self, new_rules: Vec<TriggerRule>)
        ensures
            final(self).rules() == after_add_all(old(self).rules(), seq_view(new_rules@)),
            final(self).same_setup(old(self)),
            is_sorted(old(self).rules()) ==> is_sorted(final(self).rules()),
    {
        let ghost start = self.rules();
        let ghost all = seq_view(new_rules@);
        let mut rest = new_rules;
        let ghost mut n: int = 0;
        assert(all.take(0) =~= Seq::<RuleView>::empty());
        while rest.len() > 0
            invariant
                0 <= n <= all.len(),
                seq_view(rest@) == all.skip(n),
                self.rules() == after_add_all(start, all.take(n)),
                self.same_setup(old(self)),
                start == old(self).rules(),
                is_sorted(start) ==> is_sorted(self.rules()),
            decreases rest.len(),
        {
            let ghost old_vec = rest@;
            let ghost old_rest = seq_view(rest@);
            let rule = rest.remove(0);
            proof {
                assert(old_rest[0] == rule@);
                assert(all.skip(n).len() == all.len() - n);
                assert(all[n] == rule@);
                assert(all.take(n + 1).drop_last() =~= all.take(n));
                assert(all.take(n + 1).last() == rule@);
                assert forall|k: int| 0 <= k < rest@.len() implies #[trigger] seq_view(rest@)[k] == all.skip(n + 1)[k] by {
                    assert(rest@[k] == old_vec[k + 1]);
                    assert(old_rest[k + 1] == all.skip(n)[k + 1]);
                }
                assert(seq_view(rest@) =~= all.skip(n + 1));
                n = n + 1;
            }
            let ghost prev = self.rules();
            self.storage.add(rule);
            proof {
                lemma_sort_stable_sorted(prev.push(rule@));
            }
        }
        assert(all.take(all.len() as int) =~= all);
    }

    /// Removes the first rule with this id and hands it back.
    pub fn remove_rule(&mut self, rule_id: &str) -> (r: Option<TriggerRule>)
        ensures
            opt_rule_view(r) == rule_with_id(old(self).rules(), rule_id@),
            final(self).rules() == after_remove(old(self).rules(), rule_id@),
            final(self).same_setup(old(self)),
            is_sorted(old(self).rules()) ==> is_sorted(final(self).rules()),
    {
        proof {
            if is_sorted(old(self).rules()) {
                law_store_stays_sorted(old(self).rules(), old(self).rules()[0], rule_id@);
            }
        }
        self.storage.remove(rule_id)
    }

    /// Replaces the rule with the new rule's id; says whether there was one.
    pub fn update_rule(&mut self, rule: TriggerRule) -> (r: bool)
        ensures
            r == (rule_with_id(old(self).rules(), rule@.id) is Some),
            final(self).rules() == after_update(old(self).rules(), rule@),
            final(self).same_setup(old(self)),
            is_sorted(old(self).rules()) ==> is_sorted(final(self).rules()),
    {
        proof {
            if is_sorted(old(self).rules()) {
                law_store_stays_sorted(old(self).rules(), rule@, rule@.id);
            }
        }
        self.storage.update(rule)
    }

    fn set_enabled(&mut self, rule_id: &str, enabled: bool) -> (r: bool)
        ensures
            r == (rule_with_id(old(self).rules(), rule_id@) is Some),
            final(self).rules() == after_set_enabled(old(self).rules(), rule_id@, enabled),
            final(self).same_setup(old(self)),
            is_sorted(old(self).rules()) ==> is_sorted(final(self).rules()),
            is_sorted(old(self).rules()) && index_of_id(old(self).rules(), rule_id@) >= 0 ==> final(self).rules()
                == old(self).rules().update(
                index_of_id(old(self).rules(), rule_id@),
                with_enabled(old(self).rules()[index_of_id(old(self).rules(), rule_id@)], enabled),
            ),
    {
        proof {
            lemma_index_of_id(self.rules(), rule_id@);
            if is_sorted(self.rules()) && index_of_id(self.rules(), rule_id@) >= 0 {
                law_set_enabled_in_place(self.rules(), rule_id@, enabled);
            }
        }
        match self.storage.get(rule_id) {
            Some(rule) => {
                let mut rule = rule;
                rule.enabled = enabled;
                self.storage.update(rule)
            },
            None => false,
        }
    }

    /// Enables the rule with this id; says whether there was one.
    pub fn enable_rule(&mut self, rule_id: &str) -> (r: bool)
        ensures
            r == (rule_with_id(old(self).rules(), rule_id@) is Some),
            final(self).rules() == after_set_enabled(old(self).rules(), rule_id@, true),
            final(self).same_setup(old(self)),
            is_sorted(old(self).rules()) ==> is_sorted(final(self).rules()),
            is_sorted(old(self).rules()) && index_of_id(old(self).rules(), rule_id@) >= 0 ==> final(self).rules()
                == old(self).rules().update(
                index_of_id(old(self).rules(), rule_id@),
                with_enabled(old(self).rules()[index_of_id(old(self).rules(), rule_id@)], true),
            ),
    {
        self.set_enabled(rule_id, true)
    }

    /// Disables the rule with this id; says whether there was one.
    pub fn disable_rule(&mut self, rule_id: &str) -> (r: bool)
        ensures
            r == (rule_with_id(old(self).rules(), rule_id@) is Some),
            final(self).rules() == after_set_enabled(old(self).rules(), rule_id@, false),
            final(self).same_setup(old(self)),
            is_sorted(old(self).rules()) ==> is_sorted(final(self).rules()),
            is_sorted(old(self).rules()) && index_of_id(old(self).rules(), rule_id@) >= 0 ==> final(self).rules()
                == old(self).rules().update(
                index_of_id(old(self).rules(), rule_id@),
                with_enabled(old(self).rules()[index_of_id(old(self).rules(), rule_id@)], false),
            ),
    {
        self.set_enabled(rule_id, false)
    }

    /// Every rule, in order.
    pub fn list_rules(&self) -> (r: Vec<TriggerRule>)
        ensures
            seq_view(r@) == self.rules(),
    {
        self.storage.list()
    }

    /// The first rule with this id.
    pub fn get_rule(&self, rule_id: &str) -> (r: Option<TriggerRule>)
        ensures
            opt_rule_view(r) == rule_with_id(self.rules(), rule_id@),
    {
        self.storage.get(rule_id)
    }

    /// How many rules there are.
    pub fn rule_count(&self) -> (r: usize)
        ensures
            r == self.rules().len(),
    {
        self.storage.count()
    }

    /// The limits of condition evaluation.
    pub fn limits(&self) -> (r: &ConditionLimits)
        ensures
            *r == self.condition_limits(),
    {
        &self.limits
    }

    /// The registered action types, in the order they came.
    pub fn list_action_types(&self) -> (r: Vec<String>)
        ensures
            names_view(r@) == self.action_types(),
    {
        let mut out: Vec<String> = Vec::new();
        let mut i: usize = 0;
        while i < self.action_types.len()
            invariant
                i <= self.action_types@.len(),
                out@ == self.action_types@.take(i as int),
            decreases self.action_types@.len() - i,
        {
            out.push(self.action_types[i].clone());
            assert(out@ =~= self.action_types@.take(i + 1));
            i = i + 1;
        }
        assert(self.action_types@.take(self.action_types@.len() as int) =~= self.action_types@);
        out
    }

    /// Whether the engine reacts to published events.
    pub fn is_running(&self) -> (r: bool)
        ensures
            r == self.running(),
    {
        self.running
    }

    /// Starts reacting to published events; says whether it was stopped, that
    /// is, whether the caller must now hook the engine to the bus.
    pub fn start(&mut self) -> (r: bool)
        ensures
            r == !old(self).running(),
            final(self).running(),
            final(self).store() == old(self).store(),
            final(self).action_types() == old(self).action_types(),
            final(self).condition_limits() == old(self).condition_limits(),
    {
        if self.running {
            return false;
        }
        self.running = true;
        true
    }

    /// Stops reacting to published events.
    pub fn stop(&mut self)
        ensures
            !final(self).running(),
            final(self).store() == old(self).store(),
            final(self).action_types() == old(self).action_types(),
            final(self).condition_limits() == old(self).condition_limits(),
    {
        self.running = false;
    }

    /// The actions an event sets off, in rule order.
    pub fn matching_actions(&self, event_name: &str, event_data: &JsonValue) -> (r: Vec<ActionInvocation>)
        ensures
            seq_view(r@) == planned(self.rules(), event_name@, event_data@, self.action_types(), self.condition_limits()),
    {
        let rules = self.storage.list();
        let ghost rv = seq_view(rules@);
        let ghost pred = fires_pred(event_name@, event_data@, self.action_types(), self.limits);
        let ghost f = invocation_fn(event_name@, event_data@);
        let mut out: Vec<ActionInvocation> = Vec::new();
        let mut i: usize = 0;
        assert(rv.take(0) =~= Seq::<RuleView>::empty());
        assert(rv.take(0).filter(pred) =~= Seq::<RuleView>::empty()) by {
            reveal_with_fuel(Seq::filter, 1);
        }
        assert(seq_view(out@) =~= rv.take(0).filter(pred).map_values(f));
        while i < rules.len()
            invariant
                i <= rules@.len(),
                rv == seq_view(rules@),
                pred == fires_pred(event_name@, event_data@, self.action_types(), self.limits),
                f == invocation_fn(event_name@, event_data@),
                seq_view(out@) == rv.take(i as int).filter(pred).map_values(f),
            decreases rules@.len() - i,
        {
            let ghost t = rv.take(i + 1);
            let ghost before = seq_view(out@);
            proof {
                assert(t.drop_last() =~= rv.take(i as int));
                assert(t.last() == rules@[i as int]@);
                reveal_with_fuel(Seq::filter, 1);
                assert(t.filter(pred) == if pred(t.last()) {
                    t.drop_last().filter(pred).push(t.last())
                } else {
                    t.drop_last().filter(pred)
                });
            }
            let rule = &rules[i];
            if fires(rule, event_name, event_data, &self.action_types, &self.limits) {
                let inv = ActionInvocation {
                    action_type: rule.action_type.clone(),
                    context: TriggerContext {
                        event_name: String::from_str(event_name),
                        event_data: json_clone(event_data),
                        rule_id: rule.id.clone(),
                        rule_name: rule.name.clone(),
                        action_config: json_clone(&rule.action_config),
                    },
                };
                assert(inv@ == f(t.last()));
                out.push(inv);
                proof {
                    let fl = t.drop_last().filter(pred);
                    assert(seq_view(out@) =~= before.push(f(t.last())));
                    assert(fl.push(t.last()).map_values(f) =~= fl.map_values(f).push(f(t.last())));
                }
            } else {
                assert(t.filter(pred) == t.drop_last().filter(pred));
            }
            i = i + 1;
        }
        assert(rv.take(rules@.len() as int) =~= rv);
        out
    }
}

/// Every action an event sets off comes from a rule that fires for it: an
/// enabled rule whose pattern matches, whose condition holds and whose
/// action type is registered. A disabled rule never acts.
pub proof fn law_actions_come_from_firing_rules(
    rules: Seq<RuleView>,
    event_name: Seq<char>,
    data: Json,
    action_types: Seq<Seq<char>>,
    limits: ConditionLimits,
)
    ensures
        forall|k: int|
            0 <= k < planned(rules, event_name, data, action_types, limits).len() ==> exists|j: int|
                0 <= j < rules.len() && rule_fires(rules[j], event_name, data, action_types, limits)
                    && #[trigger] planned(rules, event_name, data, action_types, limits)[k] == invocation_for(
                    rules[j],
                    event_name,
                    data,
                ),
{
    let pred = fires_pred(event_name, data, action_types, limits);
    let fl = rules.filter(pred);
    assert forall|k: int| 0 <= k < planned(rules, event_name, data, action_types, limits).len() implies exists|j: int|
        0 <= j < rules.len() && rule_fires(rules[j], event_name, data, action_types, limits)
            && #[trigger] planned(rules, event_name, data, action_types, limits)[k] == invocation_for(
            rules[j],
            event_name,
            data,
        ) by {
        rules.lemma_filter_pred(pred, k);
        assert(fl.contains(fl[k]));
        rules.lemma_filter_contains_rev(pred, fl[k]);
        let j = choose|j: int| 0 <= j < rules.len() && rules[j] == fl[k];
        assert(planned(rules, event_name, data, action_types, limits)[k] == invocation_for(rules[j], event_name, data));
        assert(rule_fires(rules[j], event_name, data, action_types, limits));
    }
}

/// Every rule that fires for an event sets off its action.
pub proof fn law_firing_rule_acts(
    rules: Seq<RuleView>,
    event_name: Seq<char>,
    data: Json,
    action_types: Seq<Seq<char>>,
    limits: ConditionLimits,
    j: int,
)
    requires
        0 <= j < rules.len(),
        rule_fires(rules[j], event_name, data, action_types, limits),
    ensures
        planned(rules, event_name, data, action_types, limits).contains(invocation_for(rules[j], event_name, data)),
{
    let pred = fires_pred(event_name, data, action_types, limits);
    let fl = rules.filter(pred);
    rules.lemma_filter_contains(pred, j);
    let k = choose|k: int| 0 <= k < fl.len() && fl[k] == rules[j];
    let p = planned(rules, event_name, data, action_types, limits);
    assert(p[k] == invocation_for(rules[j], event_name, data));
}

/// The store stays in priority order: adding and updating sort it, and
/// removing keeps it sorted.
pub proof fn law_store_stays_sorted(rules: Seq<RuleView>, rule: RuleView, id: Seq<char>)
    requires
        is_sorted(rules),
    ensures
        is_sorted(after_add(rules, rule)),
        is_sorted(after_update(rules, rule)),
        is_sorted(after_remove(rules, id)),
{
    lemma_sort_stable_sorted(rules.push(rule));
    lemma_index_of_id(rules, rule.id);
    let i = index_of_id(rules, rule.id);
    if i >= 0 {
        lemma_sort_stable_sorted(rules.update(i, rule));
    }
    lemma_index_of_id(rules, id);
    let k = index_of_id(rules, id);
    if k >= 0 {
        let r = rules.remove(k);
        assert forall|a: int, b: int| 0 <= a < b < r.len() implies r[a].precedes(&r[b]) by {
            let a2 = if a < k { a } else { a + 1 };
            let b2 = if b < k { b } else { b + 1 };
            assert(r[a] == rules[a2] && r[b] == rules[b2]);
        }
    }
}

/// Adding a rule only reorders the old rules and the new one: each is kept
/// once, the list is in priority order, and the rules of any one priority
/// (those of `c`'s) stand in the order they were added, the new one last.
pub proof fn law_add_is_stable_permutation(rules: Seq<RuleView>, rule: RuleView, c: RuleView)
    ensures
        after_add(rules, rule).to_multiset() == rules.push(rule).to_multiset(),
        after_add(rules, rule).len() == rules.len() + 1,
        is_sorted(after_add(rules, rule)),
        after_add(rules, rule).filter(rank_of(c)) == rules.push(rule).filter(rank_of(c)),
{
    law_sort_stable_permutes(rules.push(rule), c);
    lemma_sort_stable_sorted(rules.push(rule));
}

/// In a store in priority order, enabling or disabling a rule changes that
/// rule in place: every other rule stays where it was, and the order holds.
pub proof fn law_set_enabled_in_place(rules: Seq<RuleView>, id: Seq<char>, enabled: bool)
    requires
        is_sorted(rules),
        index_of_id(rules, id) >= 0,
    ensures
        after_set_enabled(rules, id, enabled) == rules.update(
            index_of_id(rules, id),
            with_enabled(rules[index_of_id(rules, id)], enabled),
        ),
        is_sorted(after_set_enabled(rules, id, enabled)),
{
    lemma_index_of_id(rules, id);
    let i = index_of_id(rules, id);
    let changed = with_enabled(rules[i], enabled);
    let u = rules.update(i, changed);
    lemma_index_of_id_at(rules, id, i);
    assert(rule_with_id(rules, id) == Some(rules[i]));
    assert(is_sorted(u)) by {
        assert forall|a: int, b: int| 0 <= a < b < u.len() implies u[a].precedes(&u[b]) by {
            assert(rules[a].precedes(&rules[b]));
        }
    }
    lemma_sorted_is_fixed(u);
}

/// After adding a rule with a new id, getting that id gives the rule.
pub proof fn law_add_then_get(rules: Seq<RuleView>, rule: RuleView)
    requires
        rule_with_id(rules, rule.id) is None,
    ensures
        rule_with_id(after_add(rules, rule), rule.id) == Some(rule),
{
    let s = rules.push(rule);
    let r = after_add(rules, rule);
    lemma_index_of_id(rules, rule.id);
    lemma_sort_stable_has(s);
    lemma_sort_stable_contains(s);
    assert(s[rules.len() as int] == rule);
    assert(r.contains(rule));
    let m = choose|m: int| 0 <= m < r.len() && r[m] == rule;
    lemma_index_of_id(r, rule.id);
    let k = index_of_id(r, rule.id);
    assert(k >= 0) by {
        if k < 0 {
            assert(r[m].id != rule.id);
        }
    }
    assert(s.contains(r[k]));
    let n = choose|n: int| 0 <= n < s.len() && s[n] == r[k];
    if n < rules.len() {
        assert(rules[n] == s[n]);
        assert(rules[n].id != rule.id);
    }
}

/// Once the only rule with an id is removed, getting that id gives nothing.
pub proof fn law_remove_then_get(rules: Seq<RuleView>, id: Seq<char>)
    requires
        forall|a: int, b: int| 0 <= a < b < rules.len() ==> #[trigger] rules[a].id != #[trigger] rules[b].id,
    ensures
        rule_with_id(after_remove(rules, id), id) is None,
{
    lemma_index_of_id(rules, id);
    let i = index_of_id(rules, id);
    if i >= 0 {
        let r = rules.remove(i);
        assert forall|j: int| 0 <= j < r.len() implies #[trigger] r[j].id != id by {
            let j2 = if j < i { j } else { j + 1 };
            assert(r[j] == rules[j2]);
            if j2 < i {
                assert(rules[j2].id != rules[i].id);
            } else {
                assert(rules[i].id != rules[j2].id);
            }
        }
        lemma_index_of_id_none(r, id);
    }
}

/// In a sorted store, disabling an enabled rule and enabling it again gives
/// the store back as it was.
pub proof fn law_disable_then_enable(rules: Seq<RuleView>, id: Seq<char>)
    requires
        is_sorted(rules),
        rule_with_id(rules, id) matches Some(r) && r.enabled,
    ensures
        after_set_enabled(after_set_enabled(rules, id, false), id, true) == rules,
{
    lemma_index_of_id(rules, id);
    let i = index_of_id(rules, id);
    let r = rules[i];
    let off = with_enabled(r, false);
    let u = rules.update(i, off);
    assert(is_sorted(u)) by {
        assert forall|a: int, b: int| 0 <= a < b < u.len() implies u[a].precedes(&u[b]) by {
            assert(rules[a].precedes(&rules[b]));
        }
    }
    lemma_sorted_is_fixed(u);
    assert(after_set_enabled(rules, id, false) == u);
    assert forall|j: int| 0 <= j < i implies #[trigger] u[j].id != id by {
        assert(u[j] == rules[j]);
    }
    lemma_index_of_id_at(u, id, i);
    let back = u.update(i, with_enabled(off, true));
    assert(back =~= rules);
    lemma_sorted_is_fixed(rules);
}


/// Every planned action is handed the event itself, its name and its
/// payload, together with the configuration of the rule that fired it.
pub proof fn law_invocations_carry_the_event(
    rules: Seq<RuleView>,
    event_name: Seq<char>,
    data: Json,
    action_types: Seq<Seq<char>>,
    limits: ConditionLimits,
)
    ensures
        forall|k: int|
            0 <= k < planned(rules, event_name, data, action_types, limits).len() ==> {
                let inv = #[trigger] planned(rules, event_name, data, action_types, limits)[k];
                &&& inv.context.event_name == event_name
                &&& inv.context.event_data == data
                &&& exists|i: int|
                    0 <= i < rules.len() && inv.context.action_config == rules[i].action_config && inv.action_type
                        == rules[i].action_type && inv.context.rule_id == rules[i].id
            },
{
    let f = rules.filter(fires_pred(event_name, data, action_types, limits));
    assert forall|k: int|
        0 <= k < planned(rules, event_name, data, action_types, limits).len() implies {
            let inv = #[trigger] planned(rules, event_name, data, action_types, limits)[k];
            &&& inv.context.event_name == event_name
            &&& inv.context.event_data == data
            &&& exists|i: int|
                0 <= i < rules.len() && inv.context.action_config == rules[i].action_config && inv.action_type
                    == rules[i].action_type && inv.context.rule_id == rules[i].id
        } by {
        let r = f[k];
        rules.lemma_filter_contains_rev(fires_pred(event_name, data, action_types, limits), r);
        assert(f.contains(r));
        let i = choose|i: int| 0 <= i < rules.len() && rules[i] == r;
        assert(rules[i] == r);
    }
}

} // verus!
