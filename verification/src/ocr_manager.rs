//! The concurrency core: a fixed pool of worker threads pulls tasks from a
//! pending channel, runs the matching pipeline on each, and delivers the
//! finished tasks on a completed channel. The submitter never blocks on
//! worker availability; draining blocks until the outstanding count reaches
//! zero. Stopping is cooperative: workers observe the flag only between
//! tasks.

use vstd::prelude::*;
use core::sync::atomic::{AtomicBool, Ordering};
use std::sync::Arc;
use crossbeam::channel::{Receiver, Sender};
use crate::error::KanjitomoError;
use crate::gray::{make_bw, sharpen_image};
use crate::matcher::{all_from_store, all_refs_stored, all_scored, flags_dominated, ranked, run_matcher};
use crate::ocr_task::OCRTask;
use crate::params::Parameters;
use crate::reference::ReferenceMatrixCache;
use crate::transform_search::Transform;

verus! {

/// Declares crossbeam's channel sender so the scheduler can hold one; the
/// type stays opaque to the verifier.
#[verifier::external_type_specification]
#[verifier::external_body]
#[verifier::reject_recursive_types(T)]
pub struct ExSender<T>(Sender<T>);

/// Declares crossbeam's channel receiver, opaque to the verifier.
#[verifier::external_type_specification]
#[verifier::external_body]
#[verifier::reject_recursive_types(T)]
pub struct ExReceiver<T>(Receiver<T>);

/// Declares rayon's thread pool, opaque to the verifier.
#[verifier::external_type_specification]
#[verifier::external_body]
pub struct ExThreadPool(rayon::ThreadPool);

/// Relies on crossbeam::channel::unbounded: a fresh channel whose send
/// never blocks.
#[verifier::external_body]
fn new_task_channel() -> (Sender<OCRTask>, Receiver<OCRTask>) {
    crossbeam::channel::unbounded()
}

/// Relies on crossbeam's Sender::send: delivers the task unless every
/// receiver is gone; the answer tells which of the two happened.
#[verifier::external_body]
fn send_task(s: &Sender<OCRTask>, task: OCRTask) -> bool {
    s.send(task).is_ok()
}

/// Relies on crossbeam's Receiver::recv: blocks until a task arrives;
/// yields nothing only when the channel is empty and every sender is gone.
#[verifier::external_body]
fn recv_task(r: &Receiver<OCRTask>) -> Option<OCRTask> {
    r.recv().ok()
}

/// Relies on crossbeam's Clone for Sender: another handle to the same
/// channel.
#[verifier::external_body]
fn clone_sender(s: &Sender<OCRTask>) -> Sender<OCRTask> {
    s.clone()
}

/// Relies on crossbeam's Clone for Receiver: another handle to the same
/// channel.
#[verifier::external_body]
fn clone_receiver(r: &Receiver<OCRTask>) -> Receiver<OCRTask> {
    r.clone()
}

/// Relies on Arc::clone: another handle to the same shared store.
#[verifier::external_body]
fn clone_store_handle(a: &Arc<ReferenceMatrixCache>) -> (r: Arc<ReferenceMatrixCache>)
    ensures
        *r == **a,
{
    Arc::clone(a)
}

/// Relies on Arc::clone: another handle to the same shared flag.
#[verifier::external_body]
fn clone_flag(a: &Arc<AtomicBool>) -> Arc<AtomicBool> {
    Arc::clone(a)
}

/// Relies on rayon::ThreadPoolBuilder::build: a pool of exactly `threads`
/// worker threads, or the builder's error as plain text.
#[verifier::external_body]
fn build_thread_pool(threads: usize) -> Result<rayon::ThreadPool, KanjitomoError>
    requires
        1 <= threads,
{
    match rayon::ThreadPoolBuilder::new().num_threads(threads).build() {
        Ok(pool) => Ok(pool),
        Err(e) => Err(KanjitomoError::Custom(format!("thread pool: {}", e))),
    }
}

/// Relies on rayon's ThreadPool::spawn: runs one worker on the pool, which
/// repeats the verified `worker_step` until it asks to stop. The repetition
/// itself stands here because an unbounded dispatch loop admits no
/// termination measure.
#[verifier::external_body]
fn spawn_worker(
    pool: &rayon::ThreadPool,
    pending: Receiver<OCRTask>,
    done: Sender<OCRTask>,
    stop: Arc<AtomicBool>,
    store: Arc<ReferenceMatrixCache>,
    params: Parameters,
)
    requires
        params.wf(),
        (*store).wf(params.spec_halo_layers()),
{
    pool.spawn(move || while worker_step(&pending, &done, &stop, &store, &params) {});
}

/// What one worker does between two looks at the stop flag.
#[derive(Clone, Copy, Debug, PartialEq, Eq, Structural)]
pub enum WorkerState {
    Idle,
    Binarizing,
    Matching,
    Stopping,
}

/// What a worker observes.
#[derive(Clone, Copy, Debug, PartialEq, Eq, Structural)]
pub enum WorkerEvent {
    StopObserved,
    QueueClosed,
    TaskReceived,
    ImageBinarized,
    ResultSent,
}

/// The per-worker state machine: a worker leaves `Idle` only for a received
/// task or to stop, and never aborts mid-task — stop requests between
/// `Binarizing` and `ResultSent` leave the state unchanged.
pub fn worker_transition(state: WorkerState, event: WorkerEvent) -> (r: WorkerState)
    ensures
        r == spec_worker_transition(state, event),
{
    match (state, event) {
        (WorkerState::Idle, WorkerEvent::StopObserved) => WorkerState::Stopping,
        (WorkerState::Idle, WorkerEvent::QueueClosed) => WorkerState::Stopping,
        (WorkerState::Idle, WorkerEvent::TaskReceived) => WorkerState::Binarizing,
        (WorkerState::Binarizing, WorkerEvent::ImageBinarized) => WorkerState::Matching,
        (WorkerState::Matching, WorkerEvent::ResultSent) => WorkerState::Idle,
        (s, _) => s,
    }
}

/// Transition table of the worker state machine: from `Idle` a stop request
/// or a closed queue stops the worker and a task starts the pipeline; the
/// pipeline advances through `Binarizing` and `Matching` back to `Idle`;
/// everything else changes nothing.
pub open spec fn spec_worker_transition(state: WorkerState, event: WorkerEvent) -> WorkerState {
    match (state, event) {
        (WorkerState::Idle, WorkerEvent::StopObserved) => WorkerState::Stopping,
        (WorkerState::Idle, WorkerEvent::QueueClosed) => WorkerState::Stopping,
        (WorkerState::Idle, WorkerEvent::TaskReceived) => WorkerState::Binarizing,
        (WorkerState::Binarizing, WorkerEvent::ImageBinarized) => WorkerState::Matching,
        (WorkerState::Matching, WorkerEvent::ResultSent) => WorkerState::Idle,
        (s, _) => s,
    }
}

/// The matching pipeline for one task: sharpen, binarise in place, explore
/// the alignment neighbourhood, score against the whole store, and attach
/// the ranked candidates. A task whose image the pipeline cannot hold (an
/// inconsistent buffer) is returned untouched.
pub fn process_task(params: &Parameters, store: &ReferenceMatrixCache, task: OCRTask) -> (r:
    OCRTask)
    requires
        params.wf(),
        store.wf(params.spec_halo_layers()),
    ensures
        r.char_index == task.char_index,
        r.column_changed == task.column_changed,
        task.image.wf() && 1 <= task.image.width && 1 <= task.image.height ==> {
            &&& r.image.width == task.image.width
            &&& r.image.height == task.image.height
            &&& r.image.pixels@.len() == task.image.pixels@.len()
            &&& forall|i: int|
                0 <= i < r.image.pixels@.len() ==> r.image.pixels@[i] == crate::gray::bw_px(
                    crate::gray::sharpen_of(
                        task.image.pixels@,
                        task.image.width as int,
                        task.image.height as int,
                    )[i],
                    params.pixel_rgba_threshold,
                )
            &&& ranked(r.results@)
            &&& r.results@.len() <= params.ocr_max_characters
            &&& all_from_store(r.results@, *store)
            &&& all_refs_stored(r.results@, *store)
            &&& all_scored(r.results@, *params)
            &&& flags_dominated(r.results@)
        },
{
    let dims_ok = task.image.width >= 1 && task.image.height >= 1 && task.image.width <= 4096
        && task.image.height <= 4096;
    let ok = if dims_ok {
        proof {
            assert(0 <= task.image.width as int * task.image.height as int <= 16777216)
                by (nonlinear_arith)
                requires
                    1 <= task.image.width <= 4096,
                    1 <= task.image.height <= 4096,
            ;
        }
        task.image.pixels.len() == (task.image.width as usize) * (task.image.height as usize)
    } else {
        false
    };
    if !ok {
        proof {
            if task.image.wf() && 1 <= task.image.width && 1 <= task.image.height {
                crate::gray::lemma_grid_index(0, 0, task.image.width as int, task.image.height as int);
                assert(false);
            }
        }
        return task;
    }
    let sharpened = sharpen_image(&task.image);
    let bw = make_bw(&sharpened, Some(params.pixel_rgba_threshold));
    let char_index: u32 = match task.char_index {
        Some(ci) => ci,
        None => 0,
    };
    let mut search = Transform::new(&bw, char_index, *params);
    let targets = search.run(params.max_translate, params.max_stretch, params.max_steps);
    let results = run_matcher(params, &targets, store);
    OCRTask {
        image: bw,
        char_index: task.char_index,
        results,
        column_changed: task.column_changed,
    }
}

/// One round of a worker: observe the stop flag at the top of the idle
/// loop, take one task if any, run the pipeline on it, deliver the result.
/// The answer says whether the worker should keep going.
pub fn worker_step(
    pending: &Receiver<OCRTask>,
    done: &Sender<OCRTask>,
    stop: &Arc<AtomicBool>,
    store: &Arc<ReferenceMatrixCache>,
    params: &Parameters,
) -> (more: bool)
    requires
        params.wf(),
        (**store).wf(params.spec_halo_layers()),
{
    let mut state = WorkerState::Idle;
    let flag: &AtomicBool = &*(*stop);
    if flag.load(Ordering::Relaxed) {
        state = worker_transition(state, WorkerEvent::StopObserved);
        return false;
    }
    match recv_task(pending) {
        None => {
            state = worker_transition(state, WorkerEvent::QueueClosed);
            false
        },
        Some(task) => {
            state = worker_transition(state, WorkerEvent::TaskReceived);
            let cache: &ReferenceMatrixCache = &*(*store);
            let processed = process_task(params, cache, task);
            state = worker_transition(state, WorkerEvent::ImageBinarized);
            let delivered = send_task(done, processed);
            state = worker_transition(state, WorkerEvent::ResultSent);
            proof {
                assert(state is Idle);
            }
            // A failed delivery means every consumer is gone; the worker
            // stops at the next idle boundary.
            delivered
        },
    }
}

/// The task scheduler: a fixed worker pool, the two channels, the
/// outstanding-task counter and the cooperative stop flag.
pub struct OCRManager {
    thread_pool: rayon::ThreadPool,
    pending_tasks: Sender<OCRTask>,
    results: Receiver<OCRTask>,
    task_count: u32,
    stop_flag: Arc<AtomicBool>,
    params: Parameters,
}

impl OCRManager {
    pub closed spec fn wf(self) -> bool {
        self.params.wf()
    }

    /// Tasks submitted and not yet drained.
    pub closed spec fn spec_outstanding(self) -> u32 {
        self.task_count
    }

    pub fn outstanding(&self) -> (r: u32)
        ensures
            r == self.spec_outstanding(),
    {
        self.task_count
    }

    /// Builds the pool and the two channels and starts the configured
    /// number of workers, each sharing the read-only reference store.
    pub fn new(params: Parameters, store: Arc<ReferenceMatrixCache>) -> (r: Result<
        OCRManager,
        KanjitomoError,
    >)
        requires
            params.wf(),
            (*store).wf(params.spec_halo_layers()),
        ensures
            r matches Ok(m) ==> m.wf() && m.spec_outstanding() == 0,
    {
        let thread_pool = match build_thread_pool(params.ocr_threads) {
            Ok(p) => p,
            Err(e) => {
                return Err(e);
            },
        };
        let (s, r) = new_task_channel();
        let (res_s, res_r) = new_task_channel();
        let stop_flag = Arc::new(AtomicBool::new(false));
        Self::install_threads(&thread_pool, &r, &res_s, &stop_flag, &store, &params);
        Ok(
            OCRManager {
                thread_pool,
                pending_tasks: s,
                results: res_r,
                task_count: 0,
                stop_flag,
                params,
            },
        )
    }

    /// Starts one worker per configured thread, each with its own handles
    /// to the channels, the stop flag and the shared store.
    fn install_threads(
        pool: &rayon::ThreadPool,
        pending: &Receiver<OCRTask>,
        done: &Sender<OCRTask>,
        stop: &Arc<AtomicBool>,
        store: &Arc<ReferenceMatrixCache>,
        params: &Parameters,
    )
        requires
            params.wf(),
            (**store).wf(params.spec_halo_layers()),
    {
        let mut i: usize = 0;
        let n = params.ocr_threads;
        while i < n
            invariant
                params.wf(),
                (**store).wf(params.spec_halo_layers()),
            decreases n - i,
        {
            let worker_pending = clone_receiver(pending);
            let worker_done = clone_sender(done);
            let worker_stop = clone_flag(stop);
            let worker_store = clone_store_handle(store);
            spawn_worker(pool, worker_pending, worker_done, worker_stop, worker_store, *params);
            i = i + 1;
        }
    }

    /// Enqueues one task and counts it as outstanding; never blocks on
    /// worker availability.
    pub fn add_task(&mut self, task: OCRTask)
        requires
            old(self).wf(),
            old(self).spec_outstanding() < 0xffff_ffffu32,
        ensures
            final(self).wf(),
            final(self).spec_outstanding() == old(self).spec_outstanding() + 1,
    {
        send_task(&self.pending_tasks, task);
        self.task_count = self.task_count + 1;
    }

    /// Requests a cooperative stop: each worker observes the flag at the
    /// top of its idle loop, so tasks in flight still complete.
    pub fn stop_threads(&mut self)
        requires
            old(self).wf(),
        ensures
            final(self).wf(),
            final(self).spec_outstanding() == old(self).spec_outstanding(),
    {
        let flag: &AtomicBool = &*(self.stop_flag);
        flag.store(true, Ordering::SeqCst);
    }

    /// Blocks until every outstanding task has been delivered back,
    /// returning the completed tasks. On a clean drain (second component
    /// true) exactly as many tasks come back as were outstanding and the
    /// counter stands at zero; only the completed channel failing — every
    /// worker gone — ends the wait early.
    pub fn wait_until_done(&mut self) -> (r: (Vec<OCRTask>, bool))
        requires
            old(self).wf(),
        ensures
            final(self).wf(),
            r.0@.len() + final(self).spec_outstanding() as int == old(
                self,
            ).spec_outstanding() as int,
            r.1 ==> final(self).spec_outstanding() == 0,
            old(self).spec_outstanding() == 0 ==> r.1,
    {
        let mut collected: Vec<OCRTask> = Vec::new();
        while self.task_count > 0
            invariant
                self.wf(),
                collected@.len() + self.task_count as int == old(self).spec_outstanding() as int,
            decreases self.task_count,
        {
            match recv_task(&self.results) {
                None => {
                    return (collected, false);
                },
                Some(task) => {
                    collected.push(task);
                    self.task_count = self.task_count - 1;
                },
            }
        }
        (collected, true)
    }
}

} // verus!
