//! The decisions of the event bus: how a subscriber retries a failing
//! handler and when an event becomes a dead letter, and the registry
//! bookkeeping of publishes and subscriptions.
//!
//! Durations are nanoseconds.
use vstd::prelude::*;
use crate::topic::topic_matches;
use crate::registry::{bump_publish, lookup, registered, simple_descriptor, updated, with_subscribers, EventRegistry};

verus! {

/// How long to wait before a retry.
#[derive(Clone, Copy, Debug, PartialEq, Eq, Structural)]
pub enum RetryBackoff {
    /// Always the same wait.
    Fixed(u128),
    /// `base * 2^attempt`, at most `max`.
    Exponential { base: u128, max: u128 },
}

impl Default for RetryBackoff {
    /// 100 ms doubling up to 10 s.
    fn default() -> (r: Self)
        ensures
            r == (RetryBackoff::Exponential { base: 100_000_000, max: 10_000_000_000 }),
    {
        RetryBackoff::Exponential { base: 100_000_000, max: 10_000_000_000 }
    }
}

/// How a subscriber retries a failing handler.
#[derive(Clone, Copy, Debug)]
pub struct RetryPolicy {
    /// Retries after the first attempt; 0 does not retry.
    pub max_retries: usize,
    pub backoff: RetryBackoff,
    /// How long one attempt may run.
    pub timeout_per_attempt: u128,
}

impl Default for RetryPolicy {
    /// No retries, the default backoff, 30 s per attempt.
    fn default() -> (r: Self)
        ensures
            r.max_retries == 0,
            r.backoff == (RetryBackoff::Exponential { base: 100_000_000, max: 10_000_000_000 }),
            r.timeout_per_attempt == 30_000_000_000,
    {
        RetryPolicy { max_retries: 0, backoff: RetryBackoff::default(), timeout_per_attempt: 30_000_000_000 }
    }
}

/// Two to the power `n`.
pub open spec fn two_pow(n: nat) -> nat
    decreases n,
{
    if n == 0 {
        1
    } else {
        2 * two_pow((n - 1) as nat)
    }
}

/// The wait before retry number `attempt + 1`.
pub open spec fn retry_delay(backoff: RetryBackoff, attempt: usize) -> u128 {
    match backoff {
        RetryBackoff::Fixed(d) => d,
        RetryBackoff::Exponential { base, max } => {
            let d = base * two_pow(attempt as nat);
            if d < max { d as u128 } else { max }
        },
    }
}

proof fn lemma_scaled_monotone(base: u128, n: nat, m: nat)
    requires
        n <= m,
    ensures
        base * two_pow(n) <= base * two_pow(m),
{
    lemma_two_pow_monotone(n, m);
    let (a, b) = (two_pow(n), two_pow(m));
    assert(base * a <= base * b) by (nonlinear_arith)
        requires
            a <= b,
    ;
}

proof fn lemma_scaled_step(base: u128, i: nat)
    ensures
        base * two_pow(i + 1) == 2 * (base * two_pow(i)),
{
    assert(two_pow(i + 1) == 2 * two_pow(i));
    let x = two_pow(i);
    assert(base * (2 * x) == 2 * (base * x)) by (nonlinear_arith);
}

impl RetryPolicy {
    /// The wait before retry number `attempt + 1`.
    pub fn delay_for_attempt(&self, attempt: usize) -> (r: u128)
        ensures
            r == retry_delay(self.backoff, attempt),
    {
        match self.backoff {
            RetryBackoff::Fixed(d) => d,
            RetryBackoff::Exponential { base, max } => {
                assert(two_pow(0) == 1);
                assert(base * two_pow(0) == base);
                if base >= max {
                    proof {
                        lemma_scaled_monotone(base, 0, attempt as nat);
                    }
                    return max;
                }
                if base == 0 {
                    assert(base * two_pow(attempt as nat) == 0);
                    return 0;
                }
                let mut d: u128 = base;
                let mut i: usize = 0;
                while i < attempt
                    invariant
                        self.backoff == (RetryBackoff::Exponential { base, max }),
                        i <= attempt,
                        d == base * two_pow(i as nat),
                        d < max,
                    decreases attempt - i,
                {
                    proof {
                        lemma_scaled_step(base, i as nat);
                    }
                    if d > max / 2 {
                        proof {
                            lemma_scaled_monotone(base, (i + 1) as nat, attempt as nat);
                        }
                        return max;
                    }
                    d = d * 2;
                    i = i + 1;
                    if d >= max {
                        proof {
                            lemma_scaled_monotone(base, i as nat, attempt as nat);
                        }
                        return max;
                    }
                }
                d
            },
        }
    }
}

pub proof fn lemma_two_pow_monotone(n: nat, m: nat)
    requires
        n <= m,
    ensures
        two_pow(n) <= two_pow(m),
    decreases m,
{
    if n < m {
        lemma_two_pow_monotone(n, (m - 1) as nat);
    }
}

/// Two to the power of less than 8 is at most 128.
pub proof fn lemma_two_pow_small(n: nat)
    requires
        n < 8,
    ensures
        2 * two_pow(n) <= 256,
{
    lemma_two_pow_monotone(n, 7);
    assert(two_pow(7) == 128) by {
        reveal_with_fuel(two_pow, 8);
    }
}

/// Told about events whose handler failed every attempt.
pub trait DeadLetterHandler {
    /// `event_name`'s handler failed `attempts` times; the last error was `error`.
    fn on_dead_letter(&self, event_name: &str, attempts: usize, error: &str);
}

/// What one call of a handler came to.
#[derive(Debug)]
pub enum AttemptOutcome {
    Succeeded,
    /// The handler returned this error text.
    Failed(String),
    /// The handler ran past the attempt's timeout.
    TimedOut,
}

/// The error text of a timed out attempt.
pub open spec fn timeout_message() -> Seq<char> {
    "Handler timeout"@
}

/// The error an outcome leaves, if any.
pub open spec fn outcome_error(o: AttemptOutcome) -> Option<Seq<char>> {
    match o {
        AttemptOutcome::Succeeded => None,
        AttemptOutcome::Failed(m) => Some(m@),
        AttemptOutcome::TimedOut => Some(timeout_message()),
    }
}

/// The state of one event's handling.
pub struct RunView {
    /// Attempts made.
    pub attempts: nat,
    /// The last attempt succeeded.
    pub succeeded: bool,
    /// The error of the last failed attempt.
    pub last_error: Option<Seq<char>>,
}

/// One event's way through a handler under a retry policy.
pub struct HandlerRun {
    attempts: usize,
    succeeded: bool,
    last_error: Option<String>,
}

impl View for HandlerRun {
    type V = RunView;

    closed spec fn view(&self) -> RunView {
        RunView {
            attempts: self.attempts as nat,
            succeeded: self.succeeded,
            last_error: match self.last_error {
                Some(e) => Some(e@),
                None => None,
            },
        }
    }
}

/// Before the first attempt.
pub open spec fn run_start() -> RunView {
    RunView { attempts: 0, succeeded: false, last_error: None }
}

/// The state after an attempt.
pub open spec fn recorded(run: RunView, o: AttemptOutcome) -> RunView {
    RunView {
        attempts: run.attempts + 1,
        succeeded: o is Succeeded,
        last_error: match outcome_error(o) {
            Some(e) => Some(e),
            None => run.last_error,
        },
    }
}

/// No attempt follows: the last one succeeded, or all allowed were made.
pub open spec fn run_over(run: RunView, policy: RetryPolicy) -> bool {
    run.succeeded || run.attempts > policy.max_retries
}

/// The wait before the next attempt: none before the first.
pub open spec fn next_delay(run: RunView, policy: RetryPolicy) -> Option<u128> {
    if run.attempts == 0 {
        None
    } else {
        Some(retry_delay(policy.backoff, (run.attempts - 1) as usize))
    }
}

/// What the subscriber does next.
#[derive(Debug, PartialEq, Eq, Structural)]
pub enum RetryStep {
    /// Wait this long, if at all, then call the handler.
    Attempt { delay: Option<u128> },
    /// Stop.
    Finish,
}

/// The step after a state.
pub open spec fn step_after(run: RunView, policy: RetryPolicy) -> RetryStep {
    if run_over(run, policy) {
        RetryStep::Finish
    } else {
        RetryStep::Attempt { delay: next_delay(run, policy) }
    }
}

/// A dead letter: an event whose handler failed every attempt.
#[derive(Debug)]
pub struct DeadLetter {
    pub attempts: usize,
    /// The last error, or `unknown`.
    pub error: String,
}

/// How an event's handling ended.
#[derive(Debug)]
pub struct RunOutcome {
    pub success: bool,
    /// The last error, when it failed.
    pub error: Option<String>,
    /// What the dead letter handler is told, when it failed.
    pub dead_letter: Option<DeadLetter>,
}

impl HandlerRun {
    /// Before the first attempt.
    pub fn new() -> (r: Self)
        ensures
            r@ == run_start(),
    {
        HandlerRun { attempts: 0, succeeded: false, last_error: None }
    }

    /// How many attempts were made.
    pub fn attempts(&self) -> (r: usize)
        ensures
            r == self@.attempts,
    {
        self.attempts
    }

    /// What to do next.
    pub fn next_step(&self, policy: &RetryPolicy) -> (r: RetryStep)
        ensures
            r == step_after(self@, *policy),
    {
        if self.succeeded || self.attempts > policy.max_retries {
            RetryStep::Finish
        } else if self.attempts == 0 {
            RetryStep::Attempt { delay: None }
        } else {
            RetryStep::Attempt { delay: Some(policy.delay_for_attempt(self.attempts - 1)) }
        }
    }

    /// Notes how an attempt went.
    pub fn record(&mut self, outcome: AttemptOutcome)
        requires
            old(self)@.attempts < usize::MAX,
        ensures
            final(self)@ == recorded(old(self)@, outcome),
    {
        let ghost o = outcome_error(outcome);
        self.attempts = self.attempts + 1;
        match outcome {
            AttemptOutcome::Succeeded => {
                self.succeeded = true;
            },
            AttemptOutcome::Failed(m) => {
                self.succeeded = false;
                self.last_error = Some(m);
            },
            AttemptOutcome::TimedOut => {
                self.succeeded = false;
                self.last_error = Some(String::from_str("Handler timeout"));
            },
        }
    }

    /// How the handling ended: the dead letter counts every allowed attempt.
    pub fn finish(&self, policy: &RetryPolicy) -> (r: RunOutcome)
        requires
            policy.max_retries < usize::MAX,
        ensures
            r.success == self@.succeeded,
            r.error matches Some(e) ==> !self@.succeeded && self@.last_error == Some(e@),
            r.error is None ==> self@.succeeded || self@.last_error is None,
            r.dead_letter is Some <==> !self@.succeeded,
            r.dead_letter matches Some(d) ==> d.attempts == policy.max_retries + 1 && d.error@ == match self@.last_error {
                Some(e) => e,
                None => "unknown"@,
            },
    {
        if self.succeeded {
            RunOutcome { success: true, error: None, dead_letter: None }
        } else {
            let error = match &self.last_error {
                Some(e) => e.clone(),
                None => String::from_str("unknown"),
            };
            let copy = match &self.last_error {
                Some(e) => Some(e.clone()),
                None => None,
            };
            RunOutcome {
                success: false,
                error: copy,
                dead_letter: Some(DeadLetter { attempts: policy.max_retries + 1, error }),
            }
        }
    }
}

/// The state after the handler's outcomes are fed to a run in order;
/// outcomes after the run is over are not used.
pub open spec fn drive(policy: RetryPolicy, outcomes: Seq<AttemptOutcome>) -> RunView
    decreases outcomes.len(),
{
    if outcomes.len() == 0 {
        run_start()
    } else {
        let run = drive(policy, outcomes.drop_last());
        if run_over(run, policy) {
            run
        } else {
            recorded(run, outcomes.last())
        }
    }
}

/// A handler runs at most `max_retries + 1` times, once per outcome at most;
/// the run succeeded exactly when one of the attempts made succeeded; and a
/// run that is not over has used every outcome.
pub proof fn law_retry_run(policy: RetryPolicy, outcomes: Seq<AttemptOutcome>)
    ensures
        drive(policy, outcomes).attempts <= policy.max_retries + 1,
        drive(policy, outcomes).attempts <= outcomes.len(),
        drive(policy, outcomes).succeeded <==> exists|i: int|
            0 <= i < drive(policy, outcomes).attempts && #[trigger] outcomes[i] is Succeeded,
        !run_over(drive(policy, outcomes), policy) ==> drive(policy, outcomes).attempts == outcomes.len(),
    decreases outcomes.len(),
{
    if outcomes.len() > 0 {
        let prev = outcomes.drop_last();
        law_retry_run(policy, prev);
        let run = drive(policy, prev);
        let now = drive(policy, outcomes);
        if run_over(run, policy) {
            if run.succeeded {
                let i = choose|i: int| 0 <= i < run.attempts && #[trigger] prev[i] is Succeeded;
                assert(outcomes[i] == prev[i]);
            }
            assert forall|i: int| 0 <= i < now.attempts && #[trigger] outcomes[i] is Succeeded implies run.succeeded by {
                assert(outcomes[i] == prev[i]);
            }
        } else {
            assert(run.attempts == prev.len());
            assert forall|i: int| 0 <= i < now.attempts && #[trigger] outcomes[i] is Succeeded implies now.succeeded by {
                if i < run.attempts {
                    assert(outcomes[i] == prev[i]);
                }
            }
            if now.succeeded {
                assert(outcomes[run.attempts as int] is Succeeded);
            }
        }
    }
}

/// With at least `max_retries + 1` outcomes the run is over, and every event
/// ends either in success or as a dead letter after `max_retries + 1` attempts.
pub proof fn law_retry_run_ends(policy: RetryPolicy, outcomes: Seq<AttemptOutcome>)
    requires
        outcomes.len() > policy.max_retries,
    ensures
        run_over(drive(policy, outcomes), policy),
        !drive(policy, outcomes).succeeded ==> drive(policy, outcomes).attempts == policy.max_retries + 1,
{
    law_retry_run(policy, outcomes);
}

/// The registry after making sure an event is registered: unchanged if it
/// is, else with a simple descriptor registered at `at`.
pub open spec fn ensured(
    es: Seq<crate::registry::DescriptorView>,
    event_name: Seq<char>,
    topic: Seq<char>,
    at: u128,
) -> Seq<crate::registry::DescriptorView> {
    if lookup(es, event_name) is Some {
        es
    } else {
        registered(es, simple_descriptor(event_name, topic, at))
    }
}

/// Registers an event by name and topic unless it is registered.
pub fn ensure_registered(registry: &mut EventRegistry, event_name: &str, topic: &str)
    ensures
        final(registry).wf(),
        lookup(final(registry).entries(), event_name@) is Some,
        final(registry).entries() == ensured(
            old(registry).entries(),
            event_name@,
            topic@,
            lookup(final(registry).entries(), event_name@)->0.registered_at,
        ),
{
    proof {
        use_type_invariant(&*registry);
    }
    if !registry.contains(event_name) {
        registry.register_simple(event_name, topic);
    }
}

/// The bookkeeping of a publish: the event is registered if new, and its
/// publish count goes up by one.
pub fn record_publish(registry: &mut EventRegistry, event_name: &str, topic: &str)
    requires
        lookup(old(registry).entries(), event_name@) matches Some(d) ==> d.publish_count < u64::MAX,
    ensures
        final(registry).wf(),
        lookup(final(registry).entries(), event_name@) matches Some(d) && d.publish_count == match lookup(
            old(registry).entries(),
            event_name@,
        ) {
            Some(o) => o.publish_count + 1,
            None => 1,
        },
        exists|at: u128|
            final(registry).entries() == updated(
                #[trigger] ensured(old(registry).entries(), event_name@, topic@, at),
                event_name@,
                |d: crate::registry::DescriptorView| bump_publish(d),
            ),
{
    proof {
        use_type_invariant(&*registry);
    }
    let ghost before = registry.entries();
    ensure_registered(registry, event_name, topic);
    let ghost mid = registry.entries();
    let ghost at = lookup(mid, event_name@)->0.registered_at;
    proof {
        if lookup(before, event_name@) is None {
            crate::registry::law_register_then_lookup(before, simple_descriptor(event_name@, topic@, at));
        }
        crate::registry::law_increment_counts_one(mid, event_name@, event_name@);
    }
    registry.increment_publish_count(event_name);
    assert(registry.entries() == updated(
        ensured(before, event_name@, topic@, at),
        event_name@,
        |d: crate::registry::DescriptorView| bump_publish(d),
    ));
}

/// The bookkeeping of a subscription: a new channel registers its event, and
/// the event's subscriber count becomes the channel's receiver count.
pub fn record_subscription(
    registry: &mut EventRegistry,
    event_name: &str,
    topic: &str,
    channel_created: bool,
    receivers: usize,
)
    ensures
        final(registry).wf(),
        !channel_created ==> final(registry).entries() == updated(old(registry).entries(), event_name@, with_subscribers(receivers)),
        channel_created ==> exists|at: u128|
            final(registry).entries() == updated(
                #[trigger] ensured(old(registry).entries(), event_name@, topic@, at),
                event_name@,
                with_subscribers(receivers),
            ),
{
    proof {
        use_type_invariant(&*registry);
    }
    let ghost before = registry.entries();
    if channel_created {
        ensure_registered(registry, event_name, topic);
        let ghost at = lookup(registry.entries(), event_name@)->0.registered_at;
        registry.set_subscriber_count(event_name, receivers);
        assert(registry.entries() == updated(ensured(before, event_name@, topic@, at), event_name@, with_subscribers(receivers)));
    } else {
        registry.set_subscriber_count(event_name, receivers);
    }
}

/// What a pattern subscriber's task takes from the bus-wide channel.
#[derive(Debug)]
pub enum Received {
    /// A published event: its name, and whether its payload is of the
    /// subscriber's event type.
    Event { event_name: String, of_subscribed_type: bool },
    /// The task fell behind and this many events were dropped.
    Lagged(u64),
    /// The channel is closed.
    Closed,
}

/// What a pattern subscriber's task does next.
#[derive(Clone, Copy, Debug, PartialEq, Eq, Structural)]
pub enum PatternAction {
    /// Passes the event over.
    Skip,
    /// Runs the handler on the event.
    Handle,
    /// Reports that this many events were dropped.
    ReportLag(u64),
    /// Ends the task.
    Stop,
}

/// The next action of a subscriber of `pattern` on what it received.
pub open spec fn pattern_action(pattern: Seq<char>, received: Received) -> PatternAction {
    match received {
        Received::Event { event_name, of_subscribed_type } => if topic_matches(pattern, event_name@)
            && of_subscribed_type {
            PatternAction::Handle
        } else {
            PatternAction::Skip
        },
        Received::Lagged(n) => PatternAction::ReportLag(n),
        Received::Closed => PatternAction::Stop,
    }
}

/// Decides what a subscriber of `pattern` does with what it received: it
/// handles an event only when the name matches the pattern and the payload
/// is of its type.
pub fn pattern_step(pattern: &str, received: &Received) -> (r: PatternAction)
    ensures
        r == pattern_action(pattern@, *received),
{
    match received {
        Received::Event { event_name, of_subscribed_type } => {
            if crate::topic::matches(pattern, event_name.as_str()) && *of_subscribed_type {
                PatternAction::Handle
            } else {
                PatternAction::Skip
            }
        },
        Received::Lagged(n) => PatternAction::ReportLag(*n),
        Received::Closed => PatternAction::Stop,
    }
}

/// A pattern subscriber runs its handler only on events whose name the
/// pattern matches and whose payload is of its type; what it skips it never
/// handles, and a closed channel ends it.
pub proof fn law_pattern_subscriber_sees_only_matches(pattern: Seq<char>, received: Received)
    ensures
        pattern_action(pattern, received) == PatternAction::Handle <==> (received matches Received::Event {
            event_name,
            of_subscribed_type,
        } && topic_matches(pattern, event_name@) && of_subscribed_type),
        pattern_action(pattern, received) == PatternAction::Stop <==> received is Closed,
{
}

} // verus!
