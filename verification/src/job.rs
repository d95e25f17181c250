//! The generic lifecycle contract for resumable background jobs.
//!
//! Every long-running job follows `init -> execute_step* -> finalize`.
//! `init` validates configuration, fills the initial job state and seeds the
//! step queue; it may signal `EarlyFinish`, a non-error terminal outcome
//! meaning no work existed.  `execute_step` runs once per queued step, in
//! order, and commits its progress into the job state before returning.
//! `finalize` runs once after the last step of a fully successful run and
//! produces the job's summary output.

use crate::file_identifier::FileIdentifierJobError;
use crate::store::Store;
use vstd::prelude::*;

verus! {

/// A failure, or the distinguished `EarlyFinish` signal, raised by `init`
/// or `execute_step`.
#[derive(Debug)]
pub enum JobError {
    /// Not a failure: the job found no work to do.  Carries the job name
    /// and a human-readable reason.
    EarlyFinish { name: String, reason: String },
    /// A configuration error of the file-identifier job.
    FileIdentifier(FileIdentifierJobError),
    /// The target of a file operation is not indexed in the store.
    FilePathNotFound,
}

/// One advisory progress update emitted through the worker context.
#[derive(Clone, Copy, PartialEq, Eq, Structural, Debug)]
pub enum JobReportUpdate {
    TaskCount(usize),
    CompletedTaskCount(usize),
}

/// The handle a job uses to reach the metadata store.
pub struct Library {
    pub db: Store,
}

/// What the engine hands each job invocation: the library handle and a
/// fire-and-forget channel of progress updates, modelled as the sequence of
/// updates emitted so far.
pub struct WorkerContext {
    pub library: Library,
    pub events: Vec<JobReportUpdate>,
}

impl WorkerContext {
    /// Emits progress updates; they are appended to the event log and the
    /// rest of the context is untouched.
    pub fn progress(&mut self, updates: Vec<JobReportUpdate>)
        ensures
            final(self).library == old(self).library,
            final(self).events@ == old(self).events@ + updates@,
    {
        let mut u = updates;
        self.events.append(&mut u);
    }
}

/// The per-job state the engine persists between invocations: the immutable
/// configuration, the mutable job data created by `init`, the step queue,
/// and the index of the next step to run.
pub struct JobState<I, D, S> {
    pub init: I,
    pub data: Option<D>,
    pub steps: Vec<S>,
    pub step_number: usize,
}

impl<I, D, S> JobState<I, D, S> {
    /// A state as freshly submitted: configuration only.
    pub open spec fn is_fresh_for(self, init: I) -> bool {
        &&& self.init == init
        &&& self.data is None
        &&& self.steps@.len() == 0
        &&& self.step_number == 0
    }

    /// The same state with the step index advanced past one executed step.
    pub open spec fn advanced(self) -> Self {
        JobState { step_number: (self.step_number + 1) as usize, ..self }
    }

    /// Builds the fresh state for a newly submitted configuration.
    pub fn new(init: I) -> (s: Self)
        ensures
            s.is_fresh_for(init),
    {
        JobState { init, data: None, steps: Vec::new(), step_number: 0 }
    }
}

/// The lifecycle contract every stateful job implements.  Each job supplies
/// its own pre- and postcondition predicates; the three operations promise
/// them, and the proof obligations below let a generic runner chain the
/// operations: a successful `init` enables the first step (or `finalize`
/// when no step was queued), and each successful step enables the next one
/// or `finalize`.
pub trait StatefulJob: Sized {
    type Init;
    type Data;
    type Step;
    type Output;

    spec fn name_spec() -> Seq<char>;

    spec fn init_req(ctx: WorkerContext, state: JobState<Self::Init, Self::Data, Self::Step>) -> bool;

    spec fn init_ens(
        pre_ctx: WorkerContext,
        pre: JobState<Self::Init, Self::Data, Self::Step>,
        post_ctx: WorkerContext,
        post: JobState<Self::Init, Self::Data, Self::Step>,
        r: Result<(), JobError>,
    ) -> bool;

    spec fn step_req(ctx: WorkerContext, state: JobState<Self::Init, Self::Data, Self::Step>) -> bool;

    spec fn step_ens(
        pre_ctx: WorkerContext,
        pre: JobState<Self::Init, Self::Data, Self::Step>,
        post_ctx: WorkerContext,
        post: JobState<Self::Init, Self::Data, Self::Step>,
        r: Result<(), JobError>,
    ) -> bool;

    spec fn finalize_req(ctx: WorkerContext, state: JobState<Self::Init, Self::Data, Self::Step>) -> bool;

    spec fn finalize_ens(
        pre_ctx: WorkerContext,
        state: JobState<Self::Init, Self::Data, Self::Step>,
        post_ctx: WorkerContext,
        r: Result<Self::Output, JobError>,
    ) -> bool;

    /// The job's stable name.
    fn name(&self) -> (r: String)
        ensures
            r@ == Self::name_spec(),
    ;

    /// Runs exactly once: validates configuration, fills the initial job
    /// data and the step queue, or signals `EarlyFinish`.
    fn init(
        &self,
        ctx: &mut WorkerContext,
        state: &mut JobState<Self::Init, Self::Data, Self::Step>,
    ) -> (r: Result<(), JobError>)
        requires
            Self::init_req(*old(ctx), *old(state)),
        ensures
            Self::init_ens(*old(ctx), *old(state), *final(ctx), *final(state), r),
    ;

    /// Runs once per queued step, in queue order; all committed progress is
    /// written into the state before it returns.
    fn execute_step(
        &self,
        ctx: &mut WorkerContext,
        state: &mut JobState<Self::Init, Self::Data, Self::Step>,
    ) -> (r: Result<(), JobError>)
        requires
            Self::step_req(*old(ctx), *old(state)),
        ensures
            Self::step_ens(*old(ctx), *old(state), *final(ctx), *final(state), r),
    ;

    /// Runs exactly once after the last step, on a fully successful run,
    /// and produces the job's summary output.
    fn finalize(
        &self,
        ctx: &mut WorkerContext,
        state: &JobState<Self::Init, Self::Data, Self::Step>,
    ) -> (r: Result<Self::Output, JobError>)
        requires
            Self::finalize_req(*old(ctx), *state),
        ensures
            Self::finalize_ens(*old(ctx), *state, *final(ctx), r),
    ;

    /// A successful `init` leaves a state from which the run can go on:
    /// the first step is enabled, or `finalize` when no step was queued.
    proof fn init_enables(
        pre_ctx: WorkerContext,
        pre: JobState<Self::Init, Self::Data, Self::Step>,
        post_ctx: WorkerContext,
        post: JobState<Self::Init, Self::Data, Self::Step>,
    )
        requires
            Self::init_ens(pre_ctx, pre, post_ctx, post, Ok(())),
        ensures
            post.step_number == 0,
            post.step_number < post.steps@.len() ==> Self::step_req(post_ctx, post),
            post.step_number >= post.steps@.len() ==> Self::finalize_req(post_ctx, post),
    ;

    /// A successful step enables the next one, or `finalize` after the
    /// last; the step queue is fixed at `init` time and steps do not
    /// reorder themselves.
    proof fn step_enables(
        pre_ctx: WorkerContext,
        pre: JobState<Self::Init, Self::Data, Self::Step>,
        post_ctx: WorkerContext,
        post: JobState<Self::Init, Self::Data, Self::Step>,
    )
        requires
            Self::step_ens(pre_ctx, pre, post_ctx, post, Ok(())),
            pre.step_number < pre.steps@.len(),
        ensures
            post.advanced().step_number < post.advanced().steps@.len() ==> Self::step_req(
                post_ctx,
                post.advanced(),
            ),
            post.advanced().step_number >= post.advanced().steps@.len() ==> Self::finalize_req(
                post_ctx,
                post.advanced(),
            ),
            post.step_number == pre.step_number,
            post.steps == pre.steps,
    ;
}

/// How a full run ended.
pub enum JobRunResult<O> {
    /// `init` found no work: the job's name and the reason.
    EarlyFinished { name: String, reason: String },
    /// `init` or a step failed; the state as of the last successful step
    /// remains the resumption point.
    Failed(JobError),
    /// Every step ran and `finalize` produced the summary.
    Completed(O),
}

/// What a full run leaves behind: the final job state, how many steps
/// actually ran, and the outcome.
pub struct JobRunOutcome<I, D, S, O> {
    pub state: JobState<I, D, S>,
    pub steps_executed: usize,
    pub result: JobRunResult<O>,
}

/// The engine loop, generic over any stateful job: `init` once, then one
/// `execute_step` per queued step in order, then `finalize`.  On
/// `EarlyFinish` from `init` no step runs and `finalize` is skipped; on
/// any failure the run stops at once.
pub fn run_job<J: StatefulJob>(job: &J, ctx: &mut WorkerContext, init: J::Init) -> (r:
    JobRunOutcome<J::Init, J::Data, J::Step, J::Output>)
    requires
        forall|s: JobState<J::Init, J::Data, J::Step>|
            s.is_fresh_for(init) ==> #[trigger] J::init_req(*old(ctx), s),
    ensures
        r.result is EarlyFinished ==> {
            &&& r.steps_executed == 0
            &&& exists|s0: JobState<J::Init, J::Data, J::Step>, e: JobError|
                s0.is_fresh_for(init) && #[trigger] J::init_ens(
                    *old(ctx),
                    s0,
                    *final(ctx),
                    r.state,
                    Err(e),
                ) && (e matches JobError::EarlyFinish { name, reason } && r.result
                    == (JobRunResult::<J::Output>::EarlyFinished { name, reason }))
        },
        r.result is Completed ==> {
            &&& r.state.step_number == r.state.steps@.len()
            &&& r.steps_executed == r.state.step_number
            &&& exists|c1: WorkerContext, out: J::Output|
                #[trigger] J::finalize_ens(c1, r.state, *final(ctx), Ok(out)) && r.result
                    == JobRunResult::<J::Output>::Completed(out)
        },
        r.result is Failed ==> {
            ||| (r.steps_executed == 0 && exists|
                s0: JobState<J::Init, J::Data, J::Step>,
                e: JobError,
            |
                s0.is_fresh_for(init) && #[trigger] J::init_ens(
                    *old(ctx),
                    s0,
                    *final(ctx),
                    r.state,
                    Err(e),
                ) && r.result == JobRunResult::<J::Output>::Failed(e))
            ||| exists|c1: WorkerContext, s1: JobState<J::Init, J::Data, J::Step>, e: JobError|
                #[trigger] J::step_ens(c1, s1, *final(ctx), r.state, Err(e)) && r.result
                    == JobRunResult::<J::Output>::Failed(e)
            ||| exists|c1: WorkerContext, e: JobError|
                #[trigger] J::finalize_ens(c1, r.state, *final(ctx), Err(e)) && r.result
                    == JobRunResult::<J::Output>::Failed(e)
        },
{
    let ghost ctx0 = *ctx;
    let ghost init0 = init;
    let mut state = JobState::<J::Init, J::Data, J::Step>::new(init);
    let ghost s0 = state;
    let init_result = job.init(ctx, &mut state);
    match init_result {
        Err(e) => {
            let result = match e {
                JobError::EarlyFinish { name, reason } => {
                    let ghost gname = name;
                    let ghost greason = reason;
                    proof {
                        assert(J::init_ens(
                            ctx0,
                            s0,
                            *ctx,
                            state,
                            Err(JobError::EarlyFinish { name: gname, reason: greason }),
                        ));
                        assert(exists|s: JobState<J::Init, J::Data, J::Step>|
                            s.is_fresh_for(init0) && #[trigger] J::init_ens(
                                ctx0,
                                s,
                                *ctx,
                                state,
                                Err(JobError::EarlyFinish { name: gname, reason: greason }),
                            ));
                    }
                    JobRunResult::EarlyFinished { name, reason }
                },
                other => {
                    let ghost ge = other;
                    proof {
                        assert(J::init_ens(ctx0, s0, *ctx, state, Err(ge)));
                        assert(exists|s: JobState<J::Init, J::Data, J::Step>|
                            s.is_fresh_for(init0) && #[trigger] J::init_ens(
                                ctx0,
                                s,
                                *ctx,
                                state,
                                Err(ge),
                            ));
                    }
                    JobRunResult::Failed(other)
                },
            };
            return JobRunOutcome { state, steps_executed: 0, result };
        },
        Ok(u) => u,
    };
    proof {
        J::init_enables(ctx0, s0, *ctx, state);
    }
    let mut steps_executed: usize = 0;
    while state.step_number < state.steps.len()
        invariant
            steps_executed == state.step_number,
            state.step_number <= state.steps@.len(),
            state.step_number < state.steps@.len() ==> J::step_req(*ctx, state),
            state.step_number >= state.steps@.len() ==> J::finalize_req(*ctx, state),
        decreases state.steps@.len() - state.step_number,
    {
        let ghost cpre = *ctx;
        let ghost spre = state;
        let step_result = job.execute_step(ctx, &mut state);
        match step_result {
            Err(e) => {
                let ghost ge = e;
                proof {
                    assert(J::step_ens(cpre, spre, *ctx, state, Err(ge)));
                    assert(exists|c1: WorkerContext, s1: JobState<J::Init, J::Data, J::Step>|
                        #[trigger] J::step_ens(c1, s1, *ctx, state, Err(ge)));
                }
                return JobRunOutcome { state, steps_executed, result: JobRunResult::Failed(e) };
            },
            Ok(u) => u,
        };
        proof {
            J::step_enables(cpre, spre, *ctx, state);
        }
        let ghost post0 = state;
        state.step_number = state.step_number + 1;
        steps_executed = steps_executed + 1;
        proof {
            assert(state == post0.advanced());
        }
    }
    let ghost cfin = *ctx;
    let fin = job.finalize(ctx, &state);
    match fin {
        Ok(out) => {
            let ghost gout = out;
            proof {
                assert(J::finalize_ens(cfin, state, *ctx, Ok(gout)));
                assert(exists|c1: WorkerContext|
                    #[trigger] J::finalize_ens(c1, state, *ctx, Ok(gout)));
            }
            JobRunOutcome { state, steps_executed, result: JobRunResult::Completed(out) }
        },
        Err(e) => {
            let ghost ge = e;
            proof {
                assert(J::finalize_ens(cfin, state, *ctx, Err(ge)));
                assert(exists|c1: WorkerContext|
                    #[trigger] J::finalize_ens(c1, state, *ctx, Err(ge)));
            }
            JobRunOutcome { state, steps_executed, result: JobRunResult::Failed(e) }
        },
    }
}

} // verus!
