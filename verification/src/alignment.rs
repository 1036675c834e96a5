//! What the worker promises: replies stay aligned with requests, and every
//! request is answered once.

use crate::json;
use crate::worker;
use vstd::prelude::*;

verus! {

/// Something that happens to a worker.
pub enum Input {
    /// A request comes in.
    Job(worker::JobModel),
    /// A line comes in on the stream.
    Line(Seq<char>),
    /// The wait for a result ends without one.
    End(worker::EndModel),
}

/// Whether a worker waits for a result.
pub open spec fn busy(m: worker::WorkerModel) -> bool {
    m.phase is Draining || m.phase is Turn
}

/// Whether a worker can be told of an input.
pub open spec fn takes(m: worker::WorkerModel, input: Input) -> bool {
    match input {
        Input::Job(_) => m.phase is Idle,
        _ => busy(m),
    }
}

/// What an input does.
pub open spec fn stepped(m: worker::WorkerModel, input: Input, now: u64) -> (
    worker::WorkerModel,
    worker::ActionModel,
) {
    match input {
        Input::Job(job) => worker::submitted(m, job),
        Input::Line(line) => {
            let r = worker::heard_line(m, line, now);
            (r.0, r.1.action)
        },
        Input::End(end) => worker::ended(m, end, now),
    }
}

/// How many results the stream still owes.
pub open spec fn owed(m: worker::WorkerModel) -> int {
    match m.phase {
        worker::PhaseModel::Idle { owes: false } => 0,
        _ => 1,
    }
}

/// How many messages an action writes.
pub open spec fn writes(action: worker::ActionModel) -> int {
    if action is Write {
        1
    } else {
        0
    }
}

/// How many results an input brings.
pub open spec fn brings(input: Input) -> int {
    match input {
        Input::Line(line) => match worker::line_event(line) {
            Some(ev) if worker::is_result(ev) => 1,
            _ => 0,
        },
        _ => 0,
    }
}

/// How many requests an action answers.
pub open spec fn answers(action: worker::ActionModel) -> int {
    if action is Reply || action is Abort {
        1
    } else {
        0
    }
}

/// A worker, and what it has done so far.
pub struct Run {
    pub worker: worker::WorkerModel,
    /// How many messages were written.
    pub written: int,
    /// How many results were read.
    pub results: int,
    /// How many requests came in.
    pub requests: int,
    /// How many requests were answered.
    pub answered: int,
}

/// A worker that has served nothing yet.
pub open spec fn at_rest(tool: Seq<char>) -> Run {
    Run {
        worker: worker::WorkerModel {
            tool,
            session_id: None,
            phase: worker::PhaseModel::Idle { owes: false },
        },
        written: 0,
        results: 0,
        requests: 0,
        answered: 0,
    }
}

/// A worker from its start through some inputs, each with its time.
pub open spec fn run(tool: Seq<char>, inputs: Seq<(Input, u64)>) -> Run
    decreases inputs.len(),
{
    if inputs.len() == 0 {
        at_rest(tool)
    } else {
        let before = run(tool, inputs.drop_last());
        let (input, now) = inputs.last();
        let step = stepped(before.worker, input, now);
        Run {
            worker: step.0,
            written: before.written + writes(step.1),
            results: before.results + brings(input),
            requests: before.requests + if input is Job {
                1int
            } else {
                0int
            },
            answered: before.answered + answers(step.1),
        }
    }
}

/// Whether every input could be taken when it came.
pub open spec fn proper(tool: Seq<char>, inputs: Seq<(Input, u64)>) -> bool
    decreases inputs.len(),
{
    inputs.len() > 0 ==> proper(tool, inputs.drop_last()) && takes(
        run(tool, inputs.drop_last()).worker,
        inputs.last().0,
    )
}

/// Whether the stream held: no wait ended but by a result or for lack of time.
pub open spec fn stream_held(inputs: Seq<(Input, u64)>) -> bool {
    forall|i: int|
        0 <= i < inputs.len() ==> match (#[trigger] inputs[i]).0 {
            Input::End(end) => end is TimedOut,
            _ => true,
        }
}

/// Replies stay aligned, through any number of timeouts: at every moment all
/// messages but the one the stream owes a result for have had their results
/// read. So the next result that is read in a turn is that of the turn's own
/// message.
pub proof fn law_stream_stays_aligned(tool: Seq<char>, inputs: Seq<(Input, u64)>)
    requires
        proper(tool, inputs),
        stream_held(inputs),
    ensures
        run(tool, inputs).written == run(tool, inputs).results + owed(run(tool, inputs).worker),
        run(tool, inputs).worker.phase is Turn ==> run(tool, inputs).results == run(tool, inputs).written - 1,
    decreases inputs.len(),
{
    if inputs.len() > 0 {
        let before = inputs.drop_last();
        assert forall|i: int| 0 <= i < before.len() implies match (#[trigger] before[i]).0 {
            Input::End(end) => end is TimedOut,
            _ => true,
        } by {
            assert(before[i] == inputs[i]);
        }
        law_stream_stays_aligned(tool, before);
        assert(inputs[inputs.len() - 1] == inputs.last());
    }
}

/// Every request is answered exactly once: at every moment as many requests
/// were answered as came in, but for the one that is being served.
pub proof fn law_every_request_answered_once(tool: Seq<char>, inputs: Seq<(Input, u64)>)
    requires
        proper(tool, inputs),
    ensures
        run(tool, inputs).requests == run(tool, inputs).answered + if busy(run(tool, inputs).worker) {
            1int
        } else {
            0int
        },
    decreases inputs.len(),
{
    if inputs.len() > 0 {
        law_every_request_answered_once(tool, inputs.drop_last());
    }
}

/// Turns are serialized: no message is written while a result is owed, unless
/// that result has just been read.
pub proof fn law_turns_do_not_interleave(m: worker::WorkerModel, input: Input, now: u64)
    requires
        takes(m, input),
    ensures
        writes(stepped(m, input, now).1) == 1 ==> owed(m) == brings(input),
{
}

/// A turn that times out leaves its result to be read before the next message
/// is written.
pub proof fn law_timeout_is_drained_first(
    m: worker::WorkerModel,
    job: worker::JobModel,
    next: worker::JobModel,
    now: u64,
)
    requires
        m.phase == (worker::PhaseModel::Turn { job }),
    ensures
        ({
            let late = worker::ended(m, worker::EndModel::TimedOut, now).0;
            &&& late.phase == (worker::PhaseModel::Idle { owes: true })
            &&& worker::submitted(late, next).1 == (worker::ActionModel::Drain {
                cap_ms: worker::DRAIN_CAP_MS,
            })
        }),
{
}

/// A session id is saved when it is learned, and only then: an event that
/// changes what is known gives it to be saved, and hearing it again does not.
pub proof fn law_session_id_is_saved_when_learned(known: Option<Seq<char>>, ev: json::JsonTree)
    ensures
        worker::learned(known, ev) != known ==> worker::to_persist(known, ev) == worker::learned(
            known,
            ev,
        ),
        worker::to_persist(known, ev) matches Some(id) ==> worker::learned(known, ev) == Some(id)
            && known != Some(id),
        worker::to_persist(worker::learned(known, ev), ev) is None,
{
}

} // verus!
