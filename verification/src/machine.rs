//! Protocols as state machines, and the loop that runs one on a channel.
//!
//! A protocol is a state that either waits for the answer to one request or
//! is finished. An answer, together with the clock reading taken when it
//! arrived, leads to the next state. The loop makes the request, hands the
//! answer in, and repeats.
use crate::clock;
use crate::clock::Clock;
use crate::error::{Error, ErrorView, Result};
use crate::frame;
use crate::frame::Payload;
use crate::optical::{Answer, Call, Optical, Progress, Turn};
use vstd::prelude::*;

verus! {

/// A request that a protocol wants made.
pub enum Action {
    Show(Payload),
    /// Wait for a frame, up to this many nanoseconds.
    Poll(u64),
    Hold(u16),
    SetVersion(u8),
    SetStatus(Progress),
    Log(String),
    Gate(String),
    SuggestDwell,
}

impl View for Action {
    type V = Call;

    open spec fn view(&self) -> Call {
        match *self {
            Action::Show(payload) => Call::Show(payload@),
            Action::Poll(nanos) => Call::Poll(clock::nanos_duration(nanos)),
            Action::Hold(dwell_ms) => Call::Hold(dwell_ms),
            Action::SetVersion(version) => Call::SetVersion(version),
            Action::SetStatus(status) => Call::SetStatus(status),
            Action::Log(line) => Call::Log(line@),
            Action::Gate(prompt) => Call::Gate(prompt@),
            Action::SuggestDwell => Call::SuggestDwell,
        }
    }
}

/// The answer to an [`Action`].
pub enum Reply {
    Done,
    Polled(Option<Payload>),
    Gated(bool),
    Dwell(u16),
}

impl View for Reply {
    type V = Answer;

    open spec fn view(&self) -> Answer {
        match *self {
            Reply::Done => Answer::Done,
            Reply::Polled(polled) => Answer::Polled(frame::payload_option(polled)),
            Reply::Gated(go) => Answer::Gated(go),
            Reply::Dwell(dwell_ms) => Answer::Dwell(dwell_ms),
        }
    }
}

/// A request that was made, how it ended, and when.
#[verifier::ext_equal]
pub struct Step {
    pub turn: Turn,
    /// The clock reading after the answer.
    pub at: u64,
}

pub open spec fn turns_of(steps: Seq<Step>) -> Seq<Turn> {
    steps.map_values(|s: Step| s.turn)
}

/// The clock readings of the steps that were answered.
pub open spec fn times_of(steps: Seq<Step>) -> Seq<u64>
    decreases steps.len(),
{
    if steps.len() == 0 {
        Seq::empty()
    } else if steps.last().turn.answer is Ok {
        times_of(steps.drop_last()).push(steps.last().at)
    } else {
        times_of(steps.drop_last())
    }
}

/// The states of a protocol, as mathematical data.
pub trait Protocol: Sized {
    /// The request that this state waits on; `None` once the protocol is over.
    spec fn pending(self) -> Option<Call>;

    /// The state that follows when `answer` arrives at `now`.
    spec fn next(self, now: u64, answer: Answer) -> Self;
}

/// A protocol that can be run.
pub trait Machine {
    type State: Protocol;

    spec fn state(&self) -> Self::State;

    spec fn valid(&self) -> bool;

    fn action(&self) -> (action: Option<Action>)
        requires
            self.valid(),
        ensures
            match action {
                Some(a) => self.state().pending() == Some(a@),
                None => self.state().pending() is None,
            },
    ;

    fn step(&mut self, now: u64, reply: Reply)
        requires
            old(self).valid(),
        ensures
            final(self).valid(),
            final(self).state() == old(self).state().next(now, reply@),
    ;
}

/// Whether `answer` is of the kind that `call` asks for.
pub open spec fn fits(call: Call, answer: Answer) -> bool {
    match call {
        Call::Poll(_) => answer is Polled,
        Call::Gate(_) => answer is Gated,
        Call::SuggestDwell => answer is Dwell,
        _ => answer is Done,
    }
}

/// The state that `steps`, all of them answered, lead to from `start`.
pub open spec fn after<S: Protocol>(start: S, steps: Seq<Step>) -> S
    decreases steps.len(),
{
    if steps.len() == 0 {
        start
    } else {
        after(start, steps.drop_last()).next(steps.last().at, steps.last().turn.answer->Ok_0)
    }
}

/// Whether each of `steps` made exactly the request that the state before it
/// waited on, and was answered in kind.
pub open spec fn lawful<S: Protocol>(start: S, steps: Seq<Step>) -> bool
    decreases steps.len(),
{
    steps.len() > 0 ==> {
        &&& lawful(start, steps.drop_last())
        &&& after(start, steps.drop_last()).pending() == Some(steps.last().turn.call)
        &&& steps.last().turn.answer is Ok
        &&& fits(steps.last().turn.call, steps.last().turn.answer->Ok_0)
    }
}

/// How many requests one run may make; a run that long is given up.
pub const MAX_TURNS: u64 = 0xffff_ffff_ffff_ffff;

/// Whether a run from `start` made the requests `steps` and ended in state
/// `end` with `outcome`: it went on until the protocol was over, or until a
/// request failed, and then gave that request's error.
pub open spec fn ran<S: Protocol>(
    start: S,
    steps: Seq<Step>,
    end: S,
    outcome: std::result::Result<(), ErrorView>,
) -> bool {
    match outcome {
        Ok(_) => {
            &&& lawful(start, steps)
            &&& end == after(start, steps)
            &&& end.pending() is None
        },
        Err(e) => {
            ||| {
                &&& steps.len() > 0
                &&& lawful(start, steps.drop_last())
                &&& end == after(start, steps.drop_last())
                &&& end.pending() == Some(steps.last().turn.call)
                &&& steps.last().turn.answer == Err::<Answer, ErrorView>(e)
            }
            ||| {
                &&& steps.len() == MAX_TURNS
                &&& lawful(start, steps)
                &&& end == after(start, steps)
                &&& e == ErrorView::HandshakeFailed
            }
        },
    }
}

/// Whether a channel whose trace went from `before` to `now` saw a run from
/// `start` to `end` with `outcome`.
pub open spec fn ran_on<S: Protocol>(
    start: S,
    before: Seq<Turn>,
    now: Seq<Turn>,
    end: S,
    outcome: std::result::Result<(), ErrorView>,
) -> bool {
    exists|steps: Seq<Step>|
        now == before + turns_of(steps) && #[trigger] ran(start, steps, end, outcome)
}

/// Like [`ran_on`], of a run during which the clock was read at `times`: once
/// after each answer, and that reading is when the answer arrived.
pub open spec fn ran_at<S: Protocol>(
    start: S,
    before: Seq<Turn>,
    now: Seq<Turn>,
    end: S,
    outcome: std::result::Result<(), ErrorView>,
    times: Seq<u64>,
) -> bool {
    exists|steps: Seq<Step>|
        now == before + turns_of(steps) && times == times_of(steps) && #[trigger] ran(
            start,
            steps,
            end,
            outcome,
        )
}

/// A request that fails is the last one of its run, and its error is what the
/// run gives: no error of the channel is taken for anything else, and a run
/// that gives no error saw none.
pub proof fn law_channel_errors_end_the_run<S: Protocol>(
    start: S,
    before: Seq<Turn>,
    now: Seq<Turn>,
    end: S,
    outcome: std::result::Result<(), ErrorView>,
    i: int,
)
    requires
        ran_on(start, before, now, end, outcome),
        before.len() <= i < now.len(),
        now[i].answer is Err,
    ensures
        i == now.len() - 1,
        outcome == Err::<(), ErrorView>(now[i].answer->Err_0),
{
    let steps = choose|steps: Seq<Step>|
        now == before + turns_of(steps) && #[trigger] ran(start, steps, end, outcome);
    let k = i - before.len();
    assert(now[i] == steps[k].turn);
    if lawful(start, steps) {
        answered_all(start, steps, k);
    } else if k < steps.len() - 1 {
        answered_all(start, steps.drop_last(), k);
        assert(steps.drop_last()[k] == steps[k]);
    }
}

/// Whether a channel whose trace went from `before` to `now` was asked the
/// requests of `steps` and, if `failure` names an error, one more that failed
/// with it.
pub open spec fn recorded<S: Protocol>(
    start: S,
    steps: Seq<Step>,
    before: Seq<Turn>,
    now: Seq<Turn>,
    failure: Option<ErrorView>,
) -> bool {
    match failure {
        None => now == before + turns_of(steps),
        Some(e) => after(start, steps).pending() is Some && now == (before + turns_of(steps)).push(
            Turn { call: after(start, steps).pending()->0, answer: Err(e) },
        ),
    }
}

/// A run stops for one of three reasons: the protocol is over, a request
/// failed, or more requests were made than can be counted. Until then each
/// answer is handed to the protocol, and whatever that asks for next is asked.
pub proof fn law_runs_go_to_their_end<S: Protocol>(
    start: S,
    before: Seq<Turn>,
    now: Seq<Turn>,
    end: S,
    outcome: std::result::Result<(), ErrorView>,
) -> (steps: Seq<Step>)
    requires
        ran_on(start, before, now, end, outcome),
    ensures
        lawful(start, steps),
        end == after(start, steps),
        match outcome {
            Ok(_) => end.pending() is None && recorded(start, steps, before, now, None),
            Err(e) => {
                ||| recorded(start, steps, before, now, Some(e))
                ||| steps.len() == 0xffff_ffff_ffff_ffff && e == ErrorView::HandshakeFailed
                    && recorded(start, steps, before, now, None)
            },
        },
{
    let made = choose|steps: Seq<Step>|
        now == before + turns_of(steps) && #[trigger] ran(start, steps, end, outcome);
    if outcome is Ok || lawful(start, made) && end == after(start, made) {
        made
    } else {
        let steps = made.drop_last();
        assert(before + turns_of(made) =~= (before + turns_of(steps)).push(made.last().turn));
        steps
    }
}

/// A run adds to what the channel saw, and takes nothing away.
pub proof fn runs_extend<S: Protocol>(
    start: S,
    before: Seq<Turn>,
    now: Seq<Turn>,
    end: S,
    outcome: std::result::Result<(), ErrorView>,
)
    requires
        ran_on(start, before, now, end, outcome),
    ensures
        before.len() <= now.len(),
        forall|i: int| 0 <= i < before.len() ==> #[trigger] now[i] == before[i],
{
    let steps = choose|steps: Seq<Step>|
        now == before + turns_of(steps) && #[trigger] ran(start, steps, end, outcome);
    assert(now == before + turns_of(steps));
}

/// Every request of a run is one that some state of the protocol waits on.
pub proof fn requests_are_pending<S: Protocol>(
    start: S,
    before: Seq<Turn>,
    now: Seq<Turn>,
    end: S,
    outcome: std::result::Result<(), ErrorView>,
    i: int,
) -> (state: S)
    requires
        ran_on(start, before, now, end, outcome),
        before.len() <= i < now.len(),
    ensures
        state.pending() == Some(now[i].call),
{
    let steps = choose|steps: Seq<Step>|
        now == before + turns_of(steps) && #[trigger] ran(start, steps, end, outcome);
    let k = i - before.len();
    assert(now[i] == steps[k].turn);
    if lawful(start, steps) {
        pending_at(start, steps, k)
    } else if k < steps.len() - 1 {
        assert(steps.drop_last()[k] == steps[k]);
        pending_at(start, steps.drop_last(), k)
    } else {
        end
    }
}

proof fn pending_at<S: Protocol>(start: S, steps: Seq<Step>, i: int) -> (state: S)
    requires
        lawful(start, steps),
        0 <= i < steps.len(),
    ensures
        state.pending() == Some(steps[i].turn.call),
    decreases steps.len(),
{
    if i < steps.len() - 1 {
        assert(steps.drop_last()[i] == steps[i]);
        pending_at(start, steps.drop_last(), i)
    } else {
        after(start, steps.drop_last())
    }
}

proof fn answered_all<S: Protocol>(start: S, steps: Seq<Step>, i: int)
    requires
        lawful(start, steps),
        0 <= i < steps.len(),
    ensures
        steps[i].turn.answer is Ok,
    decreases steps.len(),
{
    if i < steps.len() - 1 {
        answered_all(start, steps.drop_last(), i);
        assert(steps.drop_last()[i] == steps[i]);
    }
}

/// The value-free outcome of `result`.
pub open spec fn outcome_of(result: Result<()>) -> std::result::Result<(), ErrorView> {
    match result {
        Ok(_) => Ok(()),
        Err(e) => Err(e@),
    }
}

fn perform<O: Optical>(opt: &mut O, action: &Action) -> (reply: Result<Reply>)
    ensures
        final(opt).trace() == old(opt).trace().push(
            Turn {
                call: action@,
                answer: match reply {
                    Ok(r) => Ok(r@),
                    Err(e) => Err(e@),
                },
            },
        ),
        reply matches Ok(r) ==> fits(action@, r@),
{
    match action {
        Action::Show(payload) => match opt.show(payload) {
            Ok(_) => Ok(Reply::Done),
            Err(e) => Err(e),
        },
        Action::Poll(nanos) => match opt.poll(clock::duration_from_nanos(*nanos)) {
            Ok(polled) => Ok(Reply::Polled(polled)),
            Err(e) => Err(e),
        },
        Action::Hold(dwell_ms) => {
            opt.hold(*dwell_ms);
            Ok(Reply::Done)
        },
        Action::SetVersion(version) => {
            opt.set_version(*version);
            Ok(Reply::Done)
        },
        Action::SetStatus(status) => {
            opt.set_status(status);
            Ok(Reply::Done)
        },
        Action::Log(line) => {
            opt.log(line.as_str());
            Ok(Reply::Done)
        },
        Action::Gate(prompt) => match opt.gate(prompt.as_str()) {
            Ok(go) => Ok(Reply::Gated(go)),
            Err(e) => Err(e),
        },
        Action::SuggestDwell => Ok(Reply::Dwell(opt.suggested_dwell_ms())),
    }
}

/// Runs `machine` on `opt` until it is over or a request fails, reading
/// `clock` after each answer.
pub fn drive<O: Optical, M: Machine>(opt: &mut O, machine: &mut M, clock: &mut Clock) -> (outcome:
    Result<()>)
    requires
        old(machine).valid(),
    ensures
        final(machine).valid(),
        ran_on(
            old(machine).state(),
            old(opt).trace(),
            final(opt).trace(),
            final(machine).state(),
            outcome_of(outcome),
        ),
        old(clock).readings().is_prefix_of(final(clock).readings()),
        ran_at(
            old(machine).state(),
            old(opt).trace(),
            final(opt).trace(),
            final(machine).state(),
            outcome_of(outcome),
            final(clock).readings().skip(old(clock).readings().len() as int),
        ),
{
    let ghost start: M::State = machine.state();
    let ghost before: Seq<Turn> = opt.trace();
    let ghost read: Seq<u64> = clock.readings();
    let ghost mut steps: Seq<Step> = Seq::empty();
    assert(turns_of(steps) =~= Seq::<Turn>::empty());
    assert(opt.trace() =~= before + turns_of(steps));
    let mut made: u64 = 0;
    while made < MAX_TURNS
        invariant
            machine.valid(),
            start == old(machine).state(),
            before == old(opt).trace(),
            read == old(clock).readings(),
            steps.len() == made,
            made <= MAX_TURNS,
            opt.trace() == before + turns_of(steps),
            clock.readings() == read + times_of(steps),
            lawful(start, steps),
            machine.state() == after(start, steps),
        decreases MAX_TURNS - made,
    {
        let action: Action = match machine.action() {
            Some(action) => action,
            None => {
                assert(clock.readings().skip(read.len() as int) =~= times_of(steps));
                assert(ran(start, steps, machine.state(), Ok(())));
                return Ok(());
            },
        };
        let ghost done: Seq<Step> = steps;
        match perform(opt, &action) {
            Ok(reply) => {
                let now: u64 = clock.now();
                proof {
                    let step = Step { turn: Turn { call: action@, answer: Ok(reply@) }, at: now };
                    steps = done.push(step);
                    assert(steps.drop_last() == done);
                    assert(turns_of(steps) == turns_of(done).push(step.turn));
                    assert(before + turns_of(steps) == (before + turns_of(done)).push(step.turn));
                    assert(read + times_of(steps) == (read + times_of(done)).push(now));
                }
                machine.step(now, reply);
            },
            Err(e) => {
                proof {
                    let step = Step { turn: Turn { call: action@, answer: Err(e@) }, at: 0 };
                    steps = done.push(step);
                    assert(steps.drop_last() == done);
                    assert(turns_of(steps) == turns_of(done).push(step.turn));
                    assert(before + turns_of(steps) == (before + turns_of(done)).push(step.turn));
                    assert(clock.readings().skip(read.len() as int) =~= times_of(steps));
                    assert(ran(start, steps, machine.state(), Err(e@)));
                }
                return Err(e);
            },
        }
        made = made + 1;
    }
    assert(clock.readings().skip(read.len() as int) =~= times_of(steps));
    assert(ran(start, steps, machine.state(), Err(ErrorView::HandshakeFailed)));
    Err(Error::HandshakeFailed)
}

} // verus!
