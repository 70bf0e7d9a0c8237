//! Serving one request after another on a sensor that may be unplugged at any
//! time.
//!
//! A request is run on the open sensor. Where the port turns out to be gone, it
//! is opened anew, with pauses, and the request is run once more; whatever
//! happens, the request is answered once.

use vstd::prelude::*;
use vstd::string::*;
use crate::sensor::{IoKind, SensorCommand, SensorError, SensorReply};

verus! {

/// How often a lost port is opened before a request is given up.
pub const REOPEN_ATTEMPTS: u32 = 4;

/// Whether an I/O failure of this kind means that the port is gone.
pub open spec fn is_fatal_kind(k: IoKind) -> bool {
    match k {
        IoKind::BrokenPipe => true,
        IoKind::NotFound => true,
        IoKind::NotConnected => true,
        IoKind::UnexpectedEof => true,
        IoKind::PermissionDenied => true,
        IoKind::Other => true,
        IoKind::TimedOut => false,
        IoKind::Unlisted => false,
    }
}

/// Whether an error means that the port is gone.
pub open spec fn is_fatal(e: crate::sensor::SensorErrorView) -> bool {
    match e {
        crate::sensor::SensorErrorView::Io { kind, .. } => is_fatal_kind(kind),
        _ => false,
    }
}

/// Whether an error means that the port is gone, rather than that the sensor
/// said no.
pub fn is_fatal_io(err: &SensorError) -> (r: bool)
    ensures
        r == is_fatal(err@),
{
    match err {
        SensorError::Io { kind, .. } => match kind {
            IoKind::TimedOut => false,
            IoKind::Unlisted => false,
            _ => true,
        },
        _ => false,
    }
}

/// What to do next for a request.
#[derive(Debug)]
pub enum ServiceStep {
    /// Open the port.
    Open,
    /// Wait this many milliseconds, then open the port.
    WaitThenOpen(u64),
    /// Run the request on the open port.
    Run,
    /// Answer; the request is done.
    Respond(Result<SensorReply, SensorError>),
}

/// A [`ServiceStep`] as mathematics.
pub enum ServiceStepView {
    Open,
    WaitThenOpen(u64),
    Run,
    Respond(Result<crate::sensor::SensorReplyView, crate::sensor::SensorErrorView>),
}

impl View for ServiceStep {
    type V = ServiceStepView;

    open spec fn view(&self) -> ServiceStepView {
        match *self {
            ServiceStep::Open => ServiceStepView::Open,
            ServiceStep::WaitThenOpen(ms) => ServiceStepView::WaitThenOpen(ms),
            ServiceStep::Run => ServiceStepView::Run,
            ServiceStep::Respond(r) => ServiceStepView::Respond(
                match r {
                    Ok(x) => Ok(x@),
                    Err(e) => Err(e@),
                },
            ),
        }
    }
}

/// A request being served.
#[derive(Debug)]
pub struct Service {
    /// What was asked.
    pub cmd: SensorCommand,
    /// Whether the port is open.
    pub open: bool,
    /// Whether the request has been run, and lost the port, before.
    pub retried: bool,
    /// How often the port has been opened in vain.
    pub attempts: u32,
}

/// The pause before another attempt at opening, in milliseconds, after `failed`
/// attempts.
pub open spec fn backoff_ms(failed: u32) -> u64 {
    if failed <= 1 {
        150
    } else if failed == 2 {
        300
    } else if failed == 3 {
        600
    } else {
        1200
    }
}

/// An error as the answer to a request: told as it is where the sensor was
/// asked about itself, and as a lost connection, with its words, otherwise.
pub open spec fn error_answer(
    cmd: SensorCommand,
    e: crate::sensor::SensorErrorView,
) -> crate::sensor::SensorErrorView {
    if cmd == SensorCommand::Info {
        e
    } else {
        crate::sensor::SensorErrorView::Io {
            kind: IoKind::NotConnected,
            message: crate::sensor::sensor_error_text(e),
        }
    }
}

/// The error of a request that lost the port twice.
pub open spec fn failed_twice() -> crate::sensor::SensorErrorView {
    crate::sensor::SensorErrorView::Io {
        kind: IoKind::NotConnected,
        message: "sensor failed twice in a row"@,
    }
}

/// What follows an attempt to open the port; `failure` is why it failed, if it
/// did.
pub open spec fn after_open(
    s: Service,
    failure: Option<crate::sensor::SensorErrorView>,
) -> (Service, ServiceStepView) {
    match failure {
        None => (Service { open: true, ..s }, ServiceStepView::Run),
        Some(e) => {
            let t = Service {
                open: false,
                attempts: if s.attempts < REOPEN_ATTEMPTS {
                    (s.attempts + 1) as u32
                } else {
                    s.attempts
                },
                ..s
            };
            if s.attempts + 1 < REOPEN_ATTEMPTS {
                (t, ServiceStepView::WaitThenOpen(backoff_ms(t.attempts)))
            } else {
                (t, ServiceStepView::Respond(Err(error_answer(s.cmd, e))))
            }
        },
    }
}

/// What follows a run.
pub open spec fn after_run(
    s: Service,
    r: Result<crate::sensor::SensorReplyView, crate::sensor::SensorErrorView>,
) -> (Service, ServiceStepView) {
    match r {
        Err(e) => if is_fatal(e) {
            if s.retried {
                (
                    Service { open: false, ..s },
                    ServiceStepView::Respond(Err(error_answer(s.cmd, failed_twice()))),
                )
            } else {
                (
                    Service { open: false, retried: true, attempts: 0, ..s },
                    ServiceStepView::Open,
                )
            }
        } else {
            (s, ServiceStepView::Respond(Err(e)))
        },
        Ok(x) => (s, ServiceStepView::Respond(Ok(x))),
    }
}

fn answer_for(cmd: SensorCommand, e: SensorError) -> (r: SensorError)
    ensures
        r@ == error_answer(cmd, e@),
{
    if let SensorCommand::Info = cmd {
        e
    } else {
        SensorError::Io { kind: IoKind::NotConnected, message: e.message() }
    }
}

impl Service {
    /// Starts on a request; `open` says whether the port is open.
    pub fn start(cmd: SensorCommand, open: bool) -> (r: (Service, ServiceStep))
        ensures
            r.0 == (Service { cmd, open, retried: false, attempts: 0 }),
            r.1@ == if open {
                ServiceStepView::Run
            } else {
                ServiceStepView::Open
            },
    {
        let s = Service { cmd, open, retried: false, attempts: 0 };
        if open {
            (s, ServiceStep::Run)
        } else {
            (s, ServiceStep::Open)
        }
    }

    /// Takes note of an attempt to open the port.
    pub fn on_open(&mut self, r: Result<(), SensorError>) -> (step: ServiceStep)
        ensures
            (*final(self), step@) == after_open(
                *old(self),
                match r {
                    Ok(_) => None,
                    Err(e) => Some(e@),
                },
            ),
    {
        match r {
            Ok(_) => {
                self.open = true;
                ServiceStep::Run
            },
            Err(e) => {
                self.open = false;
                if self.attempts < REOPEN_ATTEMPTS {
                    self.attempts = self.attempts + 1;
                    if self.attempts < REOPEN_ATTEMPTS {
                        let ms: u64 = if self.attempts <= 1 {
                            150
                        } else if self.attempts == 2 {
                            300
                        } else {
                            600
                        };
                        return ServiceStep::WaitThenOpen(ms);
                    }
                }
                ServiceStep::Respond(Err(answer_for(self.cmd, e)))
            },
        }
    }

    /// Takes note of a run.
    pub fn on_run(&mut self, r: Result<SensorReply, SensorError>) -> (step: ServiceStep)
        ensures
            (*final(self), step@) == after_run(
                *old(self),
                match r {
                    Ok(x) => Ok(x@),
                    Err(e) => Err(e@),
                },
            ),
    {
        match r {
            Ok(x) => ServiceStep::Respond(Ok(x)),
            Err(e) => {
                if !is_fatal_io(&e) {
                    return ServiceStep::Respond(Err(e));
                }
                self.open = false;
                if self.retried {
                    let twice = SensorError::Io {
                        kind: IoKind::NotConnected,
                        message: "sensor failed twice in a row".to_owned(),
                    };
                    return ServiceStep::Respond(Err(answer_for(self.cmd, twice)));
                }
                self.retried = true;
                self.attempts = 0;
                ServiceStep::Open
            },
        }
    }
}

// ---------- laws ----------

/// What happens to a request.
pub enum ServiceEvent {
    /// The port was opened, or not.
    Opened(Option<crate::sensor::SensorErrorView>),
    /// The request was run.
    Ran(Result<crate::sensor::SensorReplyView, crate::sensor::SensorErrorView>),
}

/// Whether an event is what the last step asked for.
pub open spec fn answers(step: ServiceStepView, ev: ServiceEvent) -> bool {
    match step {
        ServiceStepView::Open => ev is Opened,
        ServiceStepView::WaitThenOpen(_) => ev is Opened,
        ServiceStepView::Run => ev is Ran,
        ServiceStepView::Respond(_) => false,
    }
}

/// What follows an event.
pub open spec fn service_next(s: Service, ev: ServiceEvent) -> (Service, ServiceStepView) {
    match ev {
        ServiceEvent::Opened(failure) => after_open(s, failure),
        ServiceEvent::Ran(r) => after_run(s, r),
    }
}

/// The state and the step after a series of events, each one what the step
/// before it asked for.
pub open spec fn service_run(
    s: Service,
    step: ServiceStepView,
    evs: Seq<ServiceEvent>,
) -> (Service, ServiceStepView)
    decreases evs.len(),
{
    if evs.len() == 0 {
        (s, step)
    } else {
        let (t, next) = service_next(s, evs[0]);
        service_run(t, next, evs.drop_first())
    }
}

/// Whether a series of events is one that a request can see.
pub open spec fn service_possible(
    s: Service,
    step: ServiceStepView,
    evs: Seq<ServiceEvent>,
) -> bool
    decreases evs.len(),
{
    evs.len() == 0 || {
        &&& answers(step, evs[0])
        &&& service_possible(service_next(s, evs[0]).0, service_next(s, evs[0]).1, evs.drop_first())
    }
}

/// How often a series of events ran the request.
pub open spec fn runs_in(evs: Seq<ServiceEvent>) -> nat
    decreases evs.len(),
{
    if evs.len() == 0 {
        0
    } else {
        (if evs[0] is Ran {
            1nat
        } else {
            0nat
        }) + runs_in(evs.drop_first())
    }
}

/// How many events a request can still see.
spec fn steps_left(s: Service, step: ServiceStepView) -> int {
    let later: int = if s.retried { 0 } else { 5 };
    match step {
        ServiceStepView::Respond(_) => 0,
        ServiceStepView::Run => 1 + later,
        _ => (4 - s.attempts) + 1 + later,
    }
}

proof fn lemma_steps_left(s: Service, step: ServiceStepView, evs: Seq<ServiceEvent>)
    requires
        service_possible(s, step, evs),
        s.attempts <= 4,
        !(step is Respond) && !(step is Run) ==> s.attempts < 4,
    ensures
        evs.len() + steps_left(service_run(s, step, evs).0, service_run(s, step, evs).1)
            <= steps_left(s, step),
        service_run(s, step, evs).1 is Respond || steps_left(
            service_run(s, step, evs).0,
            service_run(s, step, evs).1,
        ) > 0,
        runs_in(evs) <= if s.retried {
            1int
        } else {
            2int
        },
    decreases evs.len(),
{
    if evs.len() > 0 {
        let (t, next) = service_next(s, evs[0]);
        lemma_steps_left(t, next, evs.drop_first());
        if next is Respond && evs.drop_first().len() > 0 {
            assert(answers(next, evs.drop_first()[0]));
        }
    }
}

/// However often the port is lost, a request is run at most twice, and is
/// answered after at most ten attempts at opening or running.
pub proof fn lemma_request_is_answered(cmd: SensorCommand, open: bool, evs: Seq<ServiceEvent>)
    requires
        service_possible(
            Service { cmd, open, retried: false, attempts: 0 },
            if open {
                ServiceStepView::Run
            } else {
                ServiceStepView::Open
            },
            evs,
        ),
    ensures
        runs_in(evs) <= 2,
        evs.len() <= 10,
        service_run(
            Service { cmd, open, retried: false, attempts: 0 },
            if open {
                ServiceStepView::Run
            } else {
                ServiceStepView::Open
            },
            evs,
        ).1 is Respond || evs.len() < 10,
{
    let s = Service { cmd, open, retried: false, attempts: 0 };
    let step = if open {
        ServiceStepView::Run
    } else {
        ServiceStepView::Open
    };
    lemma_steps_left(s, step, evs);
}

/// Once a request is answered nothing more happens to it: it is answered once.
pub proof fn lemma_request_is_answered_once(
    s: Service,
    step: ServiceStepView,
    evs: Seq<ServiceEvent>,
)
    requires
        service_possible(s, step, evs),
        step is Respond,
    ensures
        evs.len() == 0,
{
}

/// An error that leaves the port usable is handed on as it is, at once.
pub proof fn lemma_refusals_are_handed_on(s: Service, e: crate::sensor::SensorErrorView)
    requires
        !is_fatal(e),
    ensures
        after_run(s, Err(e)) == (s, ServiceStepView::Respond(Err(e))),
{
}

/// Whatever happened to the port before, a run that gives a reply is answered
/// with that reply.
pub proof fn lemma_replies_are_handed_on(s: Service, x: crate::sensor::SensorReplyView)
    ensures
        after_run(s, Ok(x)) == (s, ServiceStepView::Respond(Ok(x))),
{
}

/// The port is gone exactly where an I/O failure says so by any kind but a
/// timeout and those that have no name here; an answer of the sensor, a timeout
/// of its own, or a line that makes no sense never says so.
pub proof fn lemma_what_loses_the_port(e: crate::sensor::SensorErrorView)
    ensures
        is_fatal(e) <==> (e matches crate::sensor::SensorErrorView::Io { kind, .. } && kind
            != IoKind::TimedOut && kind != IoKind::Unlisted),
        e is Command || e is Timeout || e is Protocol ==> !is_fatal(e),
{
}

/// A request that loses the port is tried on a port opened anew the first time,
/// and given up the second time, with an error.
pub proof fn lemma_lost_port_is_opened_anew(s: Service, e: crate::sensor::SensorErrorView)
    requires
        is_fatal(e),
    ensures
        ({
            let (t, step) = after_run(s, Err(e));
            &&& t.cmd == s.cmd
            &&& !t.open
            &&& t.retried
            &&& !s.retried ==> step is Open && t.attempts == 0
            &&& s.retried ==> (step matches ServiceStepView::Respond(r) && r is Err)
        }),
{
}

/// A port that opens is used at once. One that does not is tried again, four
/// times in all, with pauses of 150, 300 and 600 milliseconds; then the request
/// is answered with the last failure, or, but for a question about the sensor
/// itself, with a lost connection in that failure's words.
pub proof fn lemma_opening(s: Service, e: crate::sensor::SensorErrorView)
    ensures
        after_open(s, None) == (Service { open: true, ..s }, ServiceStepView::Run),
        ({
            let (t, step) = after_open(s, Some(e));
            &&& t.cmd == s.cmd
            &&& !t.open
            &&& t.retried == s.retried
            &&& s.attempts < 4 ==> t.attempts == s.attempts + 1
            &&& s.attempts == 0 ==> step == ServiceStepView::WaitThenOpen(150)
            &&& s.attempts == 1 ==> step == ServiceStepView::WaitThenOpen(300)
            &&& s.attempts == 2 ==> step == ServiceStepView::WaitThenOpen(600)
            &&& s.attempts >= 3 ==> (step matches ServiceStepView::Respond(r) && (r matches Err(x)
                && if s.cmd == SensorCommand::Info {
                x == e
            } else {
                x matches crate::sensor::SensorErrorView::Io { kind, message } && kind
                    == IoKind::NotConnected && message == crate::sensor::sensor_error_text(e)
            }))
        }),
{
}

/// What a request is answered with is what its last run gave, where that left
/// the port usable: a reply or a refusal is never lost, however often the port
/// was, and a reply is never made up.
pub proof fn lemma_answer_is_that_of_the_last_run(
    s: Service,
    step: ServiceStepView,
    evs: Seq<ServiceEvent>,
)
    requires
        evs.len() > 0,
    ensures
        evs.last() matches ServiceEvent::Ran(Ok(x)) ==> service_run(s, step, evs).1
            == ServiceStepView::Respond(Ok(x)),
        evs.last() matches ServiceEvent::Ran(Err(e)) ==> !is_fatal(e) ==> service_run(
            s,
            step,
            evs,
        ).1 == ServiceStepView::Respond(Err(e)),
        service_run(s, step, evs).1 matches ServiceStepView::Respond(Ok(x)) ==> evs.last()
            == ServiceEvent::Ran(Ok(x)),
        service_run(s, step, evs).0.cmd == s.cmd,
    decreases evs.len(),
{
    let (t, next) = service_next(s, evs[0]);
    let rest = evs.drop_first();
    if rest.len() > 0 {
        lemma_answer_is_that_of_the_last_run(t, next, rest);
        assert(rest.last() == evs.last());
    } else {
        assert(service_run(t, next, rest) == (t, next));
        assert(evs.last() == evs[0]);
    }
}

/// A request that loses the port twice is answered with an error that says so, as
/// a lost connection.
pub proof fn lemma_losing_the_port_twice_is_told(s: Service, e: crate::sensor::SensorErrorView)
    requires
        is_fatal(e),
        s.retried,
    ensures
        after_run(s, Err(e)).1 matches ServiceStepView::Respond(Err(x)) && (x matches
            crate::sensor::SensorErrorView::Io { kind, message } && kind == IoKind::NotConnected
            && crate::token::contains_text(message, "sensor failed twice in a row"@)),
{
    let told = "sensor failed twice in a row"@;
    let words = crate::sensor::sensor_error_text(failed_twice());
    assert(told.subrange(0, 0int + told.len()) =~= told);
    let k = words.len() - told.len();
    assert(words.subrange(k, k + told.len()) =~= told);
}

} // verus!
