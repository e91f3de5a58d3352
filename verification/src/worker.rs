//! The worker: which handler a job goes to, and what the worker loop does next.
use vstd::hash_map::StringHashMap;
use vstd::prelude::*;

use crate::duration::Duration;
use crate::job::{Job, JobRow};
use crate::text::wrap;

verus! {

/// The handlers of an application, by the job type that each one handles.
#[verifier::reject_recursive_types(H)]
pub struct HandlerRegistry<H> {
    handlers: StringHashMap<H>,
}

impl<H> View for HandlerRegistry<H> {
    type V = Map<Seq<char>, H>;

    closed spec fn view(&self) -> Map<Seq<char>, H> {
        self.handlers@
    }
}

impl<H> HandlerRegistry<H> {
    pub fn new() -> (r: Self)
        ensures
            r@ == Map::<Seq<char>, H>::empty(),
    {
        HandlerRegistry { handlers: StringHashMap::new() }
    }

    /// Lets `handler` handle the jobs of type `job_type`, in place of the handler that did
    /// so before, if any.
    pub fn register(&mut self, job_type: &str, handler: H) -> (r: &mut Self)
        ensures
            r@ == old(self)@.insert(job_type@, handler),
            *final(self) == *final(r),
    {
        self.handlers.insert(job_type.to_owned(), handler);
        self
    }

    /// The handler of the jobs of type `job_type`.
    pub fn get(&self, job_type: &str) -> (r: Option<&H>)
        ensures
            match r {
                Some(handler) => self@.contains_key(job_type@) && *handler == self@[job_type@],
                None => !self@.contains_key(job_type@),
            },
    {
        self.handlers.get(job_type)
    }
}

impl<H> Default for HandlerRegistry<H> {
    fn default() -> (r: Self)
        ensures
            r@ == Map::<Seq<char>, H>::empty(),
    {
        HandlerRegistry::new()
    }
}

/// How long a worker waits between looks at the queue, and how failed jobs back off.
#[derive(Debug, Clone, Copy, PartialEq, Eq, Structural)]
pub struct WorkerOptions {
    pub poll_interval: Duration,
    pub backoff_base: Duration,
    pub backoff_cap: Duration,
}

impl Default for WorkerOptions {
    /// A look every second; retries after two seconds, then four, and so on up to five
    /// minutes.
    fn default() -> (r: Self)
        ensures
            r.poll_interval == Duration::of_nanos(1_000_000_000),
            r.backoff_base == Duration::of_nanos(2_000_000_000),
            r.backoff_cap == Duration::of_nanos(300_000_000_000),
    {
        WorkerOptions {
            poll_interval: Duration::from_secs(1),
            backoff_base: Duration::from_secs(2),
            backoff_cap: Duration::from_secs(300),
        }
    }
}

/// The channel on which the jobs table announces a new job of `queue_name`.
pub fn channel_name(queue_name: &str) -> (r: String)
    ensures
        r@ == "pgqueue_"@ + queue_name@,
{
    let r = wrap("pgqueue_", queue_name, "");
    proof {
        reveal_strlit("");
        assert(""@ == Seq::<char>::empty());
        assert("pgqueue_"@ + queue_name@ + ""@ == "pgqueue_"@ + queue_name@);
    }
    r
}

/// The error of a job that no handler is registered for.
pub open spec fn no_handler(job_type: Seq<char>) -> Seq<char> {
    "no handler registered for job_type '"@ + job_type + "'"@
}

/// The handler that `job` goes to, or the error that it fails with: a job without a handler
/// is a failed job, not a lost one.
pub fn dispatch<'a, H>(registry: &'a HandlerRegistry<H>, job: &Job) -> (r: Result<&'a H, String>)
    ensures
        match r {
            Ok(handler) => registry@.contains_key(job.job_type@) && *handler
                == registry@[job.job_type@],
            Err(error) => {
                &&& !registry@.contains_key(job.job_type@)
                &&& error@ == no_handler(job.job_type@)
                &&& error@ == "no handler registered for job_type '"@ + job.job_type@ + "'"@
            },
        },
{
    match registry.get(job.job_type.as_str()) {
        Some(handler) => Ok(handler),
        None => Err(wrap("no handler registered for job_type '", job.job_type.as_str(), "'")),
    }
}

/// What the worker loop has just seen.
#[derive(Debug)]
pub enum WorkerEvent {
    /// The worker starts, with a connection that listens for new jobs or without one.
    Started { listening: bool },
    /// A job was claimed.
    Claimed { job: Job },
    /// No job was due.
    NothingDue,
    /// The handler of job `job_id` is through.
    Finished { job_id: i64, result: Result<(), String> },
    /// The outcome of a job is in the jobs table.
    Recorded,
    /// A new job was announced.
    Notified,
    /// The listening connection broke.
    ListenFailed,
    /// The poll interval has passed.
    PollElapsed,
}

/// What the worker loop does next.
#[derive(Debug)]
pub enum WorkerAction {
    /// Claim the next job.
    Claim,
    /// Run the handler of this job.
    Run { job: Job },
    /// Mark the job as done.
    Complete { job_id: i64 },
    /// Record a failed attempt at the job.
    Fail { job_id: i64, error: String, backoff_base: Duration, backoff_cap: Duration },
    /// Wait until a job is announced, but no longer than this.
    Listen { at_most: Duration },
    /// Wait this long.
    Sleep { interval: Duration },
}

/// What a worker event holds.
pub enum Event {
    Started { listening: bool },
    Claimed { job: JobRow },
    NothingDue,
    Finished { job_id: i64, error: Option<Seq<char>> },
    Recorded,
    Notified,
    ListenFailed,
    PollElapsed,
}

/// What a worker action holds.
pub enum Action {
    Claim,
    Run { job: JobRow },
    Complete { job_id: i64 },
    Fail { job_id: i64, error: Seq<char>, backoff_base: Duration, backoff_cap: Duration },
    Listen { at_most: Duration },
    Sleep { interval: Duration },
}

impl View for WorkerEvent {
    type V = Event;

    open spec fn view(&self) -> Event {
        match *self {
            WorkerEvent::Started { listening } => Event::Started { listening },
            WorkerEvent::Claimed { job } => Event::Claimed { job: job@ },
            WorkerEvent::NothingDue => Event::NothingDue,
            WorkerEvent::Finished { job_id, result } => Event::Finished {
                job_id,
                error: match result {
                    Ok(_) => None,
                    Err(error) => Some(error@),
                },
            },
            WorkerEvent::Recorded => Event::Recorded,
            WorkerEvent::Notified => Event::Notified,
            WorkerEvent::ListenFailed => Event::ListenFailed,
            WorkerEvent::PollElapsed => Event::PollElapsed,
        }
    }
}

impl View for WorkerAction {
    type V = Action;

    open spec fn view(&self) -> Action {
        match *self {
            WorkerAction::Claim => Action::Claim,
            WorkerAction::Run { job } => Action::Run { job: job@ },
            WorkerAction::Complete { job_id } => Action::Complete { job_id },
            WorkerAction::Fail { job_id, error, backoff_base, backoff_cap } => Action::Fail {
                job_id,
                error: error@,
                backoff_base,
                backoff_cap,
            },
            WorkerAction::Listen { at_most } => Action::Listen { at_most },
            WorkerAction::Sleep { interval } => Action::Sleep { interval },
        }
    }
}

/// Whether the worker still listens after `event`.
pub open spec fn listens(listening: bool, event: Event) -> bool {
    match event {
        Event::Started { listening } => listening,
        Event::ListenFailed => false,
        _ => listening,
    }
}

/// Recording that the attempt at job `job_id` failed.
pub open spec fn failure(job_id: i64, error: Seq<char>, opts: WorkerOptions) -> Action {
    Action::Fail {
        job_id,
        error,
        backoff_base: opts.backoff_base,
        backoff_cap: opts.backoff_cap,
    }
}

/// What a worker that has handlers for the job types `handled` does after `event`.
pub open spec fn action(
    listening: bool,
    handled: Set<Seq<char>>,
    opts: WorkerOptions,
    event: Event,
) -> Action {
    match event {
        Event::Claimed { job } => if handled.contains(job.job_type) {
            Action::Run { job }
        } else {
            failure(job.id, no_handler(job.job_type), opts)
        },
        Event::Finished { job_id, error } => match error {
            None => Action::Complete { job_id },
            Some(error) => failure(job_id, error, opts),
        },
        Event::NothingDue => if listening {
            Action::Listen { at_most: opts.poll_interval }
        } else {
            Action::Sleep { interval: opts.poll_interval }
        },
        _ => Action::Claim,
    }
}

/// The worker loop. It claims a due job, runs its handler and records the outcome; when
/// nothing is due it waits out the poll interval, or less if a new job is announced.
#[derive(Debug)]
pub struct Worker {
    listening: bool,
}

impl Worker {
    /// Whether announcements of new jobs still reach this worker.
    pub closed spec fn is_listening(self) -> bool {
        self.listening
    }

    pub fn new() -> (r: Worker)
        ensures
            !r.is_listening(),
    {
        Worker { listening: false }
    }

    /// Takes in what has happened and says what to do next. A worker whose listening
    /// connection breaks goes on polling.
    pub fn step<H>(
        &mut self,
        registry: &HandlerRegistry<H>,
        opts: &WorkerOptions,
        event: WorkerEvent,
    ) -> (r: WorkerAction)
        ensures
            final(self).is_listening() == listens(old(self).is_listening(), event@),
            r@ == action(old(self).is_listening(), registry@.dom(), *opts, event@),
    {
        match event {
            WorkerEvent::Started { listening } => {
                self.listening = listening;
                WorkerAction::Claim
            },
            WorkerEvent::Claimed { job } => match dispatch(registry, &job) {
                Ok(_) => WorkerAction::Run { job },
                Err(error) => WorkerAction::Fail {
                    job_id: job.id,
                    error,
                    backoff_base: opts.backoff_base,
                    backoff_cap: opts.backoff_cap,
                },
            },
            WorkerEvent::NothingDue => if self.listening {
                WorkerAction::Listen { at_most: opts.poll_interval }
            } else {
                WorkerAction::Sleep { interval: opts.poll_interval }
            },
            WorkerEvent::Finished { job_id, result } => match result {
                Ok(()) => WorkerAction::Complete { job_id },
                Err(error) => WorkerAction::Fail {
                    job_id,
                    error,
                    backoff_base: opts.backoff_base,
                    backoff_cap: opts.backoff_cap,
                },
            },
            WorkerEvent::ListenFailed => {
                self.listening = false;
                WorkerAction::Claim
            },
            WorkerEvent::Recorded => WorkerAction::Claim,
            WorkerEvent::Notified => WorkerAction::Claim,
            WorkerEvent::PollElapsed => WorkerAction::Claim,
        }
    }
}

/// Whether the worker listens once it has seen `events`.
pub open spec fn listens_after(events: Seq<Event>) -> bool
    decreases events.len(),
{
    events.len() > 0 && listens(listens_after(events.drop_last()), events.last())
}

/// What the worker does after the first `n` events.
pub open spec fn nth_action(
    events: Seq<Event>,
    n: int,
    handled: Set<Seq<char>>,
    opts: WorkerOptions,
) -> Action {
    action(listens_after(events.take(n)), handled, opts, events[n])
}

/// `event` is what an action can lead to.
pub open spec fn answers(done: Action, event: Event) -> bool {
    match done {
        Action::Claim => event is Claimed || event is NothingDue,
        Action::Run { job } => event matches Event::Finished { job_id, .. } && job_id == job.id,
        Action::Complete { .. } | Action::Fail { .. } => event is Recorded,
        Action::Listen { .. } => event is Notified || event is ListenFailed || event is PollElapsed,
        Action::Sleep { .. } => event is PollElapsed,
    }
}

/// `events` is a run of the worker: it starts once, and then every event is what the
/// action before it led to.
pub open spec fn is_run(events: Seq<Event>, handled: Set<Seq<char>>, opts: WorkerOptions) -> bool {
    &&& events.len() > 0 ==> events[0] is Started
    &&& forall|n: int|
        0 <= n < events.len() - 1 ==> answers(
            #[trigger] nth_action(events, n, handled, opts),
            events[n + 1],
        )
}

/// A claimed job is never dropped: before the worker claims another one, it marks the job
/// as done or records a failed attempt at it, in which case the job is retried or parked.
/// A job without a handler fails, with an error that says so.
pub proof fn law_claimed_job_is_recorded(
    events: Seq<Event>,
    n: int,
    job: JobRow,
    handled: Set<Seq<char>>,
    opts: WorkerOptions,
)
    requires
        is_run(events, handled, opts),
        0 <= n < events.len() - 1,
        events[n] == (Event::Claimed { job }),
    ensures
        if handled.contains(job.job_type) {
            &&& nth_action(events, n, handled, opts) == (Action::Run { job })
            &&& events[n + 1] matches Event::Finished { job_id, error }
            &&& job_id == job.id
            &&& nth_action(events, n + 1, handled, opts) == match error {
                None => Action::Complete { job_id: job.id },
                Some(error) => failure(job.id, error, opts),
            }
        } else {
            &&& nth_action(events, n, handled, opts) == failure(
                job.id,
                no_handler(job.job_type),
                opts,
            )
            &&& events[n + 1] is Recorded
        },
{
    assert(answers(nth_action(events, n, handled, opts), events[n + 1]));
}

/// The worker never claims a job while it has one in hand: what comes before a claim is the
/// start, a recorded outcome, or the end of a wait.
pub proof fn law_one_job_at_a_time(
    events: Seq<Event>,
    n: int,
    handled: Set<Seq<char>>,
    opts: WorkerOptions,
)
    requires
        is_run(events, handled, opts),
        0 <= n < events.len(),
        nth_action(events, n, handled, opts) is Claim,
    ensures
        !(events[n] is Claimed) && !(events[n] is Finished),
{
}

/// Once its listening connection is broken, a worker polls for the rest of the run.
pub proof fn law_broken_listener_means_polling(
    events: Seq<Event>,
    k: int,
    n: int,
    handled: Set<Seq<char>>,
    opts: WorkerOptions,
)
    requires
        is_run(events, handled, opts),
        0 <= k < n < events.len(),
        events[k] is ListenFailed,
    ensures
        !listens_after(events.take(n)),
        events[n] is NothingDue ==> nth_action(events, n, handled, opts) == (Action::Sleep {
            interval: opts.poll_interval,
        }),
    decreases n,
{
    let seen = events.take(n);
    assert(seen.drop_last() == events.take(n - 1));
    assert(seen.last() == events[n - 1]);
    if k < n - 1 {
        law_broken_listener_means_polling(events, k, n - 1, handled, opts);
        assert(answers(nth_action(events, n - 2, handled, opts), events[n - 1]));
    }
}

/// An idle worker never waits longer than the poll interval, whether it listens or not.
pub proof fn law_polling_never_stops(
    listening: bool,
    handled: Set<Seq<char>>,
    opts: WorkerOptions,
    event: Event,
)
    ensures
        match action(listening, handled, opts, event) {
            Action::Listen { at_most } => at_most == opts.poll_interval,
            Action::Sleep { interval } => interval == opts.poll_interval,
            _ => true,
        },
        event is NothingDue ==> {
            ||| action(listening, handled, opts, event) is Listen
            ||| action(listening, handled, opts, event) is Sleep
        },
{
}

/// The worker answers every event in one way. A job goes to its handler, or fails if there
/// is none; what the handler reports is recorded; an idle worker waits, for an announcement
/// if it listens; and after anything else it claims.
pub proof fn law_worker_answers(
    listening: bool,
    handled: Set<Seq<char>>,
    opts: WorkerOptions,
    job: JobRow,
    job_id: i64,
    error: Seq<char>,
    started: bool,
)
    ensures
        handled.contains(job.job_type) ==> action(listening, handled, opts, Event::Claimed { job })
            == (Action::Run { job }),
        !handled.contains(job.job_type) ==> action(listening, handled, opts, Event::Claimed { job })
            == (Action::Fail {
            job_id: job.id,
            error: "no handler registered for job_type '"@ + job.job_type + "'"@,
            backoff_base: opts.backoff_base,
            backoff_cap: opts.backoff_cap,
        }),
        action(listening, handled, opts, Event::Finished { job_id, error: None }) == (
        Action::Complete { job_id }),
        action(listening, handled, opts, Event::Finished { job_id, error: Some(error) }) == (
        Action::Fail {
            job_id,
            error,
            backoff_base: opts.backoff_base,
            backoff_cap: opts.backoff_cap,
        }),
        listening ==> action(listening, handled, opts, Event::NothingDue) == (Action::Listen {
            at_most: opts.poll_interval,
        }),
        !listening ==> action(listening, handled, opts, Event::NothingDue) == (Action::Sleep {
            interval: opts.poll_interval,
        }),
        action(listening, handled, opts, Event::Started { listening: started }) is Claim,
        action(listening, handled, opts, Event::Recorded) is Claim,
        action(listening, handled, opts, Event::Notified) is Claim,
        action(listening, handled, opts, Event::ListenFailed) is Claim,
        action(listening, handled, opts, Event::PollElapsed) is Claim,
{
}

/// A worker listens exactly if it started that way and its connection has not broken since.
pub proof fn law_worker_listens_until_the_connection_breaks(
    events: Seq<Event>,
    n: int,
    handled: Set<Seq<char>>,
    opts: WorkerOptions,
)
    requires
        is_run(events, handled, opts),
        0 < n <= events.len(),
    ensures
        listens_after(events.take(n)) <==> {
            &&& events[0] == (Event::Started { listening: true })
            &&& forall|k: int| 0 <= k < n ==> !((#[trigger] events[k]) is ListenFailed)
        },
    decreases n,
{
    let seen = events.take(n);
    assert(seen.drop_last() == events.take(n - 1));
    assert(seen.last() == events[n - 1]);
    if n > 1 {
        law_worker_listens_until_the_connection_breaks(events, n - 1, handled, opts);
        assert(answers(nth_action(events, n - 2, handled, opts), events[n - 1]));
    } else {
        assert(events.take(0) == Seq::<Event>::empty());
    }
}

/// What a worker event and a worker action hold is what is in them.
pub proof fn law_worker_views(event: WorkerEvent, done: WorkerAction)
    ensures
        match event {
            WorkerEvent::Started { listening } => event@ == (Event::Started { listening }),
            WorkerEvent::Claimed { job } => event@ == (Event::Claimed { job: job@ }),
            WorkerEvent::NothingDue => event@ == Event::NothingDue,
            WorkerEvent::Finished { job_id, result: Ok(_) } => event@ == (Event::Finished {
                job_id,
                error: None,
            }),
            WorkerEvent::Finished { job_id, result: Err(error) } => event@ == (Event::Finished {
                job_id,
                error: Some(error@),
            }),
            WorkerEvent::Recorded => event@ == Event::Recorded,
            WorkerEvent::Notified => event@ == Event::Notified,
            WorkerEvent::ListenFailed => event@ == Event::ListenFailed,
            WorkerEvent::PollElapsed => event@ == Event::PollElapsed,
        },
        match done {
            WorkerAction::Claim => done@ == Action::Claim,
            WorkerAction::Run { job } => done@ == (Action::Run { job: job@ }),
            WorkerAction::Complete { job_id } => done@ == (Action::Complete { job_id }),
            WorkerAction::Fail { job_id, error, backoff_base, backoff_cap } => done@ == (
            Action::Fail { job_id, error: error@, backoff_base, backoff_cap }),
            WorkerAction::Listen { at_most } => done@ == (Action::Listen { at_most }),
            WorkerAction::Sleep { interval } => done@ == (Action::Sleep { interval }),
        },
{
}

} // verus!
