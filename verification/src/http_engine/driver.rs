//! The driver of a segmented download: it sends out batch after batch of workers and
//! reacts to control messages.
use crate::control_file::{ControlFile, ControlFileView};
use crate::engine::ControlMsg;
use crate::error::{ErrorView, SparklingError};
use crate::http_engine::batch::{
    all_unfinished, by_left, by_left_keeps_table, empty_batch_means_complete, first_unfinished,
    sort_by_left, take_unfinished, unfinished_of_table,
};
use crate::http_engine::shared::{place_of, table_ok, Shared, SharedView};
use crate::http_engine::worker::{synced, WorkerExit};
use crate::probe::{ProbeResult, ProbeView};
use crate::segment::{sum_downloaded, tiles, Segment};
use vstd::prelude::*;

verus! {

/// Why a run of the driver ended without the file being complete.
#[derive(Debug)]
pub enum DownloadEnd {
    Failed(SparklingError),
    Cancelled,
    /// The remote file has changed: everything is to be downloaded again.
    RestartNeeded,
}

pub enum EndView {
    Failed(ErrorView),
    Cancelled,
    RestartNeeded,
}

impl View for DownloadEnd {
    type V = EndView;

    open spec fn view(&self) -> EndView {
        match *self {
            DownloadEnd::Failed(e) => EndView::Failed(e@),
            DownloadEnd::Cancelled => EndView::Cancelled,
            DownloadEnd::RestartNeeded => EndView::RestartNeeded,
        }
    }
}

/// Whether what was recorded of a file's ETag or modification time fits what is reported
/// now. Where one of the two is missing nothing speaks against it.
pub open spec fn validators_agree(recorded: Option<Seq<char>>, current: Option<Seq<char>>) -> bool {
    recorded is Some && current is Some ==> recorded == current
}

/// Whether a recorded validator fits the current one.
pub fn validator_matches(recorded: &Option<String>, current: &Option<String>) -> (r: bool)
    ensures
        r == validators_agree(
            crate::text::opt_view(*recorded),
            crate::text::opt_view(*current),
        ),
{
    match (recorded, current) {
        (Some(a), Some(b)) => *a == *b,
        _ => true,
    }
}

/// Whether a file still is what it was at an earlier probe: as large, and with validators
/// that agree.
pub open spec fn same_file(then: ProbeView, now: ProbeView) -> bool {
    &&& now.total == then.total
    &&& validators_agree(then.etag, now.etag)
    &&& validators_agree(then.last_modified, now.last_modified)
}

/// Whether a file still is what it was at an earlier probe.
pub fn unchanged(then: &ProbeResult, now: &ProbeResult) -> (r: bool)
    ensures
        r == same_file(then@, now@),
        r <==> then.total == now.total && (then.etag is None || now.etag is None || then.etag->0@
            == now.etag->0@) && (then.last_modified is None || now.last_modified is None
            || then.last_modified->0@ == now.last_modified->0@),
{
    now.total == then.total && validator_matches(&then.etag, &now.etag) && validator_matches(
        &then.last_modified,
        &now.last_modified,
    )
}

/// The error of the first worker that ended with one.
pub open spec fn first_error(outcomes: Seq<Result<WorkerExit, SparklingError>>) -> Option<ErrorView>
    decreases outcomes.len(),
{
    if outcomes.len() == 0 {
        None
    } else {
        match first_error(outcomes.drop_last()) {
            Some(e) => Some(e),
            None => match outcomes.last() {
                Err(e) => Some(e@),
                Ok(_) => None,
            },
        }
    }
}

/// Whether a batch ends the download: with the first worker's error, with the recorded
/// failure, or because it was cancelled, in this order.
pub open spec fn fatal(
    outcomes: Seq<Result<WorkerExit, SparklingError>>,
    sh: SharedView,
) -> Option<EndView> {
    match first_error(outcomes) {
        Some(e) => Some(EndView::Failed(e)),
        None => match sh.failed {
            Some(e) => Some(EndView::Failed(e)),
            None => if sh.cancelled {
                Some(EndView::Cancelled)
            } else {
                None
            },
        },
    }
}

/// Whether a batch ends the download, and how.
pub fn check_fatal(outcomes: &Vec<Result<WorkerExit, SparklingError>>, shared: &Shared) -> (r:
    Option<DownloadEnd>)
    ensures
        match r {
            Some(end) => fatal(outcomes@, shared@) == Some(end@),
            None => fatal(outcomes@, shared@) is None,
        },
{
    let mut i: usize = 0;
    while i < outcomes.len()
        invariant
            i <= outcomes@.len(),
            first_error(outcomes@.take(i as int)) is None,
        decreases outcomes@.len() - i,
    {
        proof {
            assert(outcomes@.take(i + 1).drop_last() =~= outcomes@.take(i as int));
        }
        if let Err(e) = &outcomes[i] {
            proof {
                error_stays_first(outcomes@, i + 1);
            }
            return Some(DownloadEnd::Failed(e.clone()));
        }
        i = i + 1;
    }
    proof {
        assert(outcomes@.take(i as int) =~= outcomes@);
    }
    if let Some(e) = &shared.failed {
        return Some(DownloadEnd::Failed(e.clone()));
    }
    if shared.cancelled {
        return Some(DownloadEnd::Cancelled);
    }
    None
}

/// What a worker ended with, where one that was aborted counts as cancelled.
pub open spec fn outcome_of(exit: Option<Result<WorkerExit, SparklingError>>) -> Result<
    WorkerExit,
    SparklingError,
> {
    match exit {
        Some(r) => r,
        None => Ok(WorkerExit::Cancelled),
    }
}

/// What the workers of a batch ended with; `None` stands for one that was aborted, and
/// cancels the download.
pub fn batch_outcomes(
    shared: &mut Shared,
    exits: Vec<Option<Result<WorkerExit, SparklingError>>>,
) -> (r: Vec<Result<WorkerExit, SparklingError>>)
    ensures
        r@ == exits@.map_values(|e: Option<Result<WorkerExit, SparklingError>>| outcome_of(e)),
        *final(shared) == (Shared {
            cancelled: old(shared).cancelled || exits@.contains(None),
            ..*old(shared)
        }),
{
    let mut rest: Vec<Option<Result<WorkerExit, SparklingError>>> = exits;
    let mut out: Vec<Result<WorkerExit, SparklingError>> = Vec::new();
    let ghost before = *shared;
    let ghost f = |e: Option<Result<WorkerExit, SparklingError>>| outcome_of(e);
    let ghost mut done: int = 0;
    while rest.len() > 0
        invariant
            0 <= done <= exits@.len(),
            rest@ == exits@.skip(done),
            f == (|e: Option<Result<WorkerExit, SparklingError>>| outcome_of(e)),
            out@ == exits@.take(done).map_values(f),
            *shared == (Shared {
                cancelled: before.cancelled || exits@.take(done).contains(None),
                ..before
            }),
        decreases rest@.len(),
    {
        let ghost head = exits@.take(done);
        let exit: Option<Result<WorkerExit, SparklingError>> = rest.remove(0);
        proof {
            assert(rest@ =~= exits@.skip(done + 1));
            assert(exit == exits@[done]);
            assert(exits@.take(done + 1) =~= head.push(exit));
            assert(head.push(exit).map_values(f) =~= head.map_values(f).push(outcome_of(exit)));
            assert(head.push(exit).last() == exit);
            if head.contains(None) {
                let k = choose|k: int| 0 <= k < head.len() && head[k] is None;
                assert(head.push(exit)[k] is None);
            }
            if head.push(exit).contains(None) {
                let k = choose|k: int| 0 <= k <= head.len() && head.push(exit)[k] is None;
                if k < head.len() {
                    assert(head[k] is None);
                }
            }
            assert(exit is None ==> head.push(exit)[head.len() as int] is None);
            done = done + 1;
        }
        match exit {
            Some(r) => out.push(r),
            None => {
                shared.cancelled = true;
                out.push(Ok(WorkerExit::Cancelled));
            },
        }
    }
    proof {
        assert(exits@.take(done) =~= exits@);
    }
    out
}

proof fn error_stays_first(outcomes: Seq<Result<WorkerExit, SparklingError>>, n: int)
    requires
        0 <= n <= outcomes.len(),
        first_error(outcomes.take(n)) is Some,
    ensures
        first_error(outcomes) == first_error(outcomes.take(n)),
    decreases outcomes.len(),
{
    if n == outcomes.len() {
        assert(outcomes.take(n) =~= outcomes);
    } else {
        assert(outcomes.drop_last().take(n) =~= outcomes.take(n));
        error_stays_first(outcomes.drop_last(), n);
    }
}

// ---------------------------------------------------------------------------
// The driver
// ---------------------------------------------------------------------------
/// What the driver is waiting for.
#[derive(Debug, Clone, Copy, PartialEq, Eq, Structural)]
pub enum Phase {
    /// A batch is at work; control messages are read.
    Running,
    /// The batch has been told to pause.
    Pausing,
    /// The batch has been told to stop.
    Cancelling,
    /// No worker is at work; a control message is waited for.
    Paused,
    /// The file is being probed before the download goes on.
    Probing,
    /// The run is over.
    Ended,
}

/// What is to be done for the driver.
#[derive(Debug)]
pub enum DriverStep {
    /// Start a worker for each of these segments.
    Spawn(Vec<Segment>),
    /// Go on waiting.
    Wait,
    /// Wait until all workers of the batch have ended, and read no messages meanwhile.
    AwaitBatch,
    /// Save the control file, report that the task is paused, and wait for a message.
    Hold(ControlFile),
    /// Probe the file again.
    Probe,
    /// The run is over.
    End(Result<(), DownloadEnd>),
}

pub enum DriverStepView {
    Spawn(Seq<Segment>),
    Wait,
    AwaitBatch,
    Hold(ControlFileView),
    Probe,
    End(Result<(), EndView>),
}

impl View for DriverStep {
    type V = DriverStepView;

    open spec fn view(&self) -> DriverStepView {
        match *self {
            DriverStep::Spawn(v) => DriverStepView::Spawn(v@),
            DriverStep::Wait => DriverStepView::Wait,
            DriverStep::AwaitBatch => DriverStepView::AwaitBatch,
            DriverStep::Hold(c) => DriverStepView::Hold(c@),
            DriverStep::Probe => DriverStepView::Probe,
            DriverStep::End(Ok(_)) => DriverStepView::End(Ok(())),
            DriverStep::End(Err(e)) => DriverStepView::End(Err(e@)),
        }
    }
}

/// The driver of a segmented download.
#[derive(Debug, Clone, Copy, PartialEq, Eq, Structural)]
pub struct Driver {
    pub phase: Phase,
    /// The largest number of workers in a batch.
    pub workers: u32,
}

/// The driver, the shared state and the answer after a step.
pub struct DriverTurn {
    pub driver: Driver,
    pub shared: SharedView,
    pub step: DriverStepView,
}

/// The next batch: the richest unfinished segments, of which the table is put in that
/// order. Without one the download is complete.
pub open spec fn next_batch(d: Driver, sh: SharedView) -> DriverTurn {
    let table = by_left(sh.segments);
    let batch = first_unfinished(table, d.workers as int);
    let shared = SharedView { segments: table, ..sh };
    if batch.len() == 0 {
        DriverTurn {
            driver: Driver { phase: Phase::Ended, ..d },
            shared,
            step: DriverStepView::End(Ok(())),
        }
    } else {
        DriverTurn {
            driver: Driver { phase: Phase::Running, ..d },
            shared,
            step: DriverStepView::Spawn(batch),
        }
    }
}

/// What follows when all workers of a batch have ended.
pub open spec fn batch_ended(
    d: Driver,
    sh: SharedView,
    outcomes: Seq<Result<WorkerExit, SparklingError>>,
) -> DriverTurn {
    let ended = Driver { phase: Phase::Ended, ..d };
    if d.phase is Cancelling {
        DriverTurn {
            driver: ended,
            shared: sh,
            step: DriverStepView::End(Err(EndView::Cancelled)),
        }
    } else {
        match fatal(outcomes, sh) {
            Some(end) => DriverTurn {
                driver: ended,
                shared: sh,
                step: DriverStepView::End(Err(end)),
            },
            None => if d.phase is Pausing {
                DriverTurn {
                    driver: Driver { phase: Phase::Paused, ..d },
                    shared: sh,
                    step: DriverStepView::Hold(sh.recorded()),
                }
            } else {
                next_batch(d, sh)
            },
        }
    }
}

/// What follows on a control message, or on the loss of whoever could send one (which
/// cancels). Pausing again and resuming what is not paused do nothing.
pub open spec fn controlled(d: Driver, sh: SharedView, msg: Option<ControlMsg>) -> DriverTurn {
    let wait = DriverTurn { driver: d, shared: sh, step: DriverStepView::Wait };
    match msg {
        Some(ControlMsg::Pause) => if d.phase is Running {
            DriverTurn {
                driver: Driver { phase: Phase::Pausing, ..d },
                shared: SharedView { paused: true, ..sh },
                step: DriverStepView::AwaitBatch,
            }
        } else {
            wait
        },
        Some(ControlMsg::Resume) => if d.phase is Paused {
            DriverTurn {
                driver: Driver { phase: Phase::Probing, ..d },
                shared: sh,
                step: DriverStepView::Probe,
            }
        } else {
            wait
        },
        _ => if d.phase is Running {
            DriverTurn {
                driver: Driver { phase: Phase::Cancelling, ..d },
                shared: SharedView { cancelled: true, ..sh },
                step: DriverStepView::AwaitBatch,
            }
        } else {
            DriverTurn {
                driver: Driver { phase: Phase::Ended, ..d },
                shared: SharedView { cancelled: true, ..sh },
                step: DriverStepView::End(Err(EndView::Cancelled)),
            }
        },
    }
}

/// What follows on the probe before a paused download goes on: a file that has changed
/// is downloaded anew.
pub open spec fn reprobed(
    d: Driver,
    sh: SharedView,
    probe: Result<ProbeResult, SparklingError>,
) -> DriverTurn {
    let ended = Driver { phase: Phase::Ended, ..d };
    match probe {
        Err(e) => DriverTurn {
            driver: ended,
            shared: sh,
            step: DriverStepView::End(Err(EndView::Failed(e@))),
        },
        Ok(p) => if same_file(sh.probe, p@) {
            next_batch(d, SharedView { paused: false, ..sh })
        } else {
            DriverTurn {
                driver: ended,
                shared: sh,
                step: DriverStepView::End(Err(EndView::RestartNeeded)),
            }
        },
    }
}

impl Driver {
    /// A driver with as many workers as segments were asked for, at least one.
    pub fn new(segments: u32) -> (r: Self)
        ensures
            r.phase is Running,
            r.workers == if segments == 0 {
                1
            } else {
                segments
            },
    {
        Driver { phase: Phase::Running, workers: if segments == 0 { 1 } else { segments } }
    }

    /// The next batch, or the end of the run.
    pub fn start(&mut self, shared: &mut Shared) -> (r: DriverStep)
        requires
            old(shared).wf(),
        ensures
            final(shared).wf(),
            old(shared).counted() ==> final(shared).counted(),
            (DriverTurn { driver: *final(self), shared: final(shared)@, step: r@ }) == next_batch(
                *old(self),
                old(shared)@,
            ),
    {
        proof {
            by_left_keeps_table(shared.segments@, 0);
            crate::http_engine::batch::by_left_same(shared.segments@);
        }
        shared.segments = sort_by_left(&shared.segments);
        let batch: Vec<Segment> = take_unfinished(&shared.segments, self.workers as usize);
        if batch.len() == 0 {
            self.phase = Phase::Ended;
            DriverStep::End(Ok(()))
        } else {
            self.phase = Phase::Running;
            DriverStep::Spawn(batch)
        }
    }

    /// What follows when all workers of a batch have ended.
    pub fn on_batch(
        &mut self,
        shared: &mut Shared,
        outcomes: &Vec<Result<WorkerExit, SparklingError>>,
    ) -> (r: DriverStep)
        requires
            old(shared).wf(),
            old(self).phase is Running || old(self).phase is Pausing || old(self).phase is Cancelling,
        ensures
            final(shared).wf(),
            old(shared).counted() ==> final(shared).counted(),
            (DriverTurn { driver: *final(self), shared: final(shared)@, step: r@ }) == batch_ended(
                *old(self),
                old(shared)@,
                outcomes@,
            ),
    {
        if self.phase == Phase::Cancelling {
            self.phase = Phase::Ended;
            return DriverStep::End(Err(DownloadEnd::Cancelled));
        }
        match check_fatal(outcomes, shared) {
            Some(end) => {
                self.phase = Phase::Ended;
                DriverStep::End(Err(end))
            },
            None => {
                if self.phase == Phase::Pausing {
                    self.phase = Phase::Paused;
                    DriverStep::Hold(shared.build_control_file())
                } else {
                    self.start(shared)
                }
            },
        }
    }

    /// What follows on a control message; `None` says that no more can come.
    pub fn on_control(&mut self, shared: &mut Shared, msg: Option<ControlMsg>) -> (r: DriverStep)
        requires
            old(shared).wf(),
            old(self).phase is Running || old(self).phase is Paused,
        ensures
            final(shared).wf(),
            old(shared).counted() ==> final(shared).counted(),
            (DriverTurn { driver: *final(self), shared: final(shared)@, step: r@ }) == controlled(
                *old(self),
                old(shared)@,
                msg,
            ),
    {
        match msg {
            Some(ControlMsg::Pause) => {
                if self.phase == Phase::Running {
                    self.phase = Phase::Pausing;
                    shared.paused = true;
                    DriverStep::AwaitBatch
                } else {
                    DriverStep::Wait
                }
            },
            Some(ControlMsg::Resume) => {
                if self.phase == Phase::Paused {
                    self.phase = Phase::Probing;
                    DriverStep::Probe
                } else {
                    DriverStep::Wait
                }
            },
            _ => {
                shared.cancelled = true;
                if self.phase == Phase::Running {
                    self.phase = Phase::Cancelling;
                    DriverStep::AwaitBatch
                } else {
                    self.phase = Phase::Ended;
                    DriverStep::End(Err(DownloadEnd::Cancelled))
                }
            },
        }
    }

    /// What follows on the probe before a paused download goes on.
    pub fn on_probe(
        &mut self,
        shared: &mut Shared,
        probe: Result<ProbeResult, SparklingError>,
    ) -> (r: DriverStep)
        requires
            old(shared).wf(),
            old(self).phase is Probing,
        ensures
            final(shared).wf(),
            old(shared).counted() ==> final(shared).counted(),
            (DriverTurn { driver: *final(self), shared: final(shared)@, step: r@ }) == reprobed(
                *old(self),
                old(shared)@,
                probe,
            ),
    {
        match probe {
            Err(e) => {
                self.phase = Phase::Ended;
                DriverStep::End(Err(DownloadEnd::Failed(e)))
            },
            Ok(p) => {
                if unchanged(&shared.probe, &p) {
                    shared.paused = false;
                    self.start(shared)
                } else {
                    self.phase = Phase::Ended;
                    DriverStep::End(Err(DownloadEnd::RestartNeeded))
                }
            },
        }
    }
}

// ---------------------------------------------------------------------------
// Laws
// ---------------------------------------------------------------------------
/// The driver ends well only when every segment is complete; where the segments
/// partition the file, as many bytes are then counted as the file has.
pub proof fn success_means_complete(d: Driver, sh: SharedView, total: int)
    requires
        d.workers >= 1,
        tiles(sh.segments, total),
        next_batch(d, sh).step == DriverStepView::End(Ok::<(), EndView>(())),
    ensures
        forall|i: int| 0 <= i < sh.segments.len() ==> (#[trigger] sh.segments[i]).left() == 0,
        sum_downloaded(next_batch(d, sh).shared.segments) == total,
        tiles(next_batch(d, sh).shared.segments, total),
{
    empty_batch_means_complete(sh.segments, d.workers as int);
    by_left_keeps_table(sh.segments, total);
    complete_sums(sh.segments);
}

proof fn complete_sums(segs: Seq<Segment>)
    requires
        forall|i: int| 0 <= i < segs.len() ==> (#[trigger] segs[i]).left() == 0,
    ensures
        sum_downloaded(segs) == crate::segment::sum_size(segs),
    decreases segs.len(),
{
    if segs.len() > 0 {
        let front = segs.drop_last();
        assert forall|i: int| 0 <= i < front.len() implies (#[trigger] front[i]).left() == 0 by {
            assert(front[i] == segs[i]);
        }
        complete_sums(front);
        assert(segs[segs.len() - 1].left() == 0);
    }
}

/// Each worker of a batch starts with a copy of its segment that is in line with the
/// table, and no two workers get the same segment.
pub proof fn workers_start_in_line(d: Driver, sh: SharedView, i: int, j: int)
    requires
        table_ok(sh.segments),
        next_batch(d, sh).step is Spawn,
        0 <= i < next_batch(d, sh).step->Spawn_0.len(),
        0 <= j < next_batch(d, sh).step->Spawn_0.len(),
    ensures
        synced(next_batch(d, sh).step->Spawn_0[i], next_batch(d, sh).shared.segments),
        next_batch(d, sh).step->Spawn_0[i].left() > 0,
        i != j ==> next_batch(d, sh).step->Spawn_0[i].index != next_batch(
            d,
            sh,
        ).step->Spawn_0[j].index,
{
    let table = by_left(sh.segments);
    let f = all_unfinished(table);
    by_left_keeps_table(sh.segments, 0);
    unfinished_of_table(table);
    let batch = next_batch(d, sh).step->Spawn_0;
    assert(batch[i] == f[i]);
    assert(batch[j] == f[j]);
    assert(table.contains(f[i]));
    let k = choose|k: int| 0 <= k < table.len() && table[k] == f[i];
    assert(table[k].wf());
    place_of(table, k);
}

/// A new batch keeps the partition of the file and what has been counted.
pub proof fn batches_keep_partition(d: Driver, sh: SharedView, total: int)
    requires
        tiles(sh.segments, total),
    ensures
        tiles(next_batch(d, sh).shared.segments, total),
        next_batch(d, sh).shared.downloaded == sh.downloaded,
        sum_downloaded(next_batch(d, sh).shared.segments) == sum_downloaded(sh.segments),
{
    by_left_keeps_table(sh.segments, total);
}

/// A paused download goes on with what it has only if the file is still the same.
pub proof fn resuming_needs_the_same_file(
    d: Driver,
    sh: SharedView,
    probe: Result<ProbeResult, SparklingError>,
)
    ensures
        reprobed(d, sh, probe).step is Spawn ==> probe is Ok && same_file(
            sh.probe,
            probe->Ok_0@,
        ),
{
}

/// Pausing and resuming an unchanged download changes nothing but the order of the
/// table: no byte of progress is lost.
pub proof fn pausing_loses_nothing(
    d: Driver,
    sh: SharedView,
    outcomes: Seq<Result<WorkerExit, SparklingError>>,
    probe: ProbeResult,
)
    requires
        d.phase is Running,
        !sh.paused,
        fatal(outcomes, SharedView { paused: true, ..sh }) is None,
        same_file(sh.probe, probe@),
    ensures
        ({
            let a = controlled(d, sh, Some(ControlMsg::Pause));
            let b = batch_ended(a.driver, a.shared, outcomes);
            let c = controlled(b.driver, b.shared, Some(ControlMsg::Resume));
            let e = reprobed(c.driver, c.shared, Ok(probe));
            &&& b.step == DriverStepView::Hold(sh.recorded())
            &&& c.step is Probe
            &&& e.step == next_batch(d, sh).step
            &&& e.shared == next_batch(d, sh).shared
        }),
{
}

/// However a message arrives, cancelling ends the run as cancelled, unless the run has
/// ended before.
pub proof fn cancelling_cancels(
    d: Driver,
    sh: SharedView,
    msg: Option<ControlMsg>,
    outcomes: Seq<Result<WorkerExit, SparklingError>>,
)
    requires
        d.phase is Running || d.phase is Paused,
        msg is None || msg == Some(ControlMsg::Cancel),
    ensures
        ({
            let a = controlled(d, sh, msg);
            let cancelled = DriverStepView::End(Err::<(), EndView>(EndView::Cancelled));
            &&& a.shared.cancelled
            &&& d.phase is Paused ==> a.step == cancelled
            &&& d.phase is Running ==> batch_ended(a.driver, a.shared, outcomes).step == cancelled
        }),
{
}

/// A file counts as the same exactly where two probes report the same size, and no validator
/// that both report differs: a missing one speaks against nothing. So a probe is always of
/// the same file as itself, and the order of the two does not matter.
pub proof fn missing_validators_speak_against_nothing(then: ProbeResult, now: ProbeResult)
    ensures
        same_file(then@, now@) <==> {
            &&& then.total == now.total
            &&& then.etag is None || now.etag is None || then.etag->0@ == now.etag->0@
            &&& then.last_modified is None || now.last_modified is None
                || then.last_modified->0@ == now.last_modified->0@
        },
        same_file(then@, then@),
        same_file(then@, now@) == same_file(now@, then@),
{
}

/// A validator fits where it was not recorded, is not reported now, or is the same.
pub proof fn validators_fit_unless_both_differ(a: Seq<char>, b: Seq<char>)
    ensures
        validators_agree(Some(a), Some(b)) <==> a == b,
        validators_agree(None, Some(b)),
        validators_agree(Some(a), None),
        validators_agree(None, None),
{
}

/// A paused download of a file that still has its size, and of which neither the ETag nor the
/// modification time is known to have changed, goes on: it never starts over. Where a segment
/// is unfinished the next batch is sent out. The segments with their progress are the same,
/// only their order may change, and the download is paused no more.
pub proof fn unchanged_file_resumes_with_its_progress(
    d: Driver,
    sh: SharedView,
    now: ProbeResult,
    k: int,
)
    requires
        d.workers >= 1,
        table_ok(sh.segments),
        now.total == sh.probe.total,
        sh.probe.etag is None || now.etag is None || sh.probe.etag->0 == now.etag->0@,
        sh.probe.last_modified is None || now.last_modified is None
            || sh.probe.last_modified->0 == now.last_modified->0@,
        0 <= k < sh.segments.len(),
        sh.segments[k].downloaded < sh.segments[k].end + 1 - sh.segments[k].start,
    ensures
        ({
            let t = reprobed(d, sh, Ok(now));
            &&& t.step is Spawn
            &&& t.step->Spawn_0.len() > 0
            &&& t == next_batch(d, SharedView { paused: false, ..sh })
            &&& t.driver.phase is Running
            &&& t.driver.workers == d.workers
            &&& t.shared.segments.to_multiset() == sh.segments.to_multiset()
            &&& t.shared.downloaded == sh.downloaded
            &&& sum_downloaded(t.shared.segments) == sum_downloaded(sh.segments)
            &&& !t.shared.paused
            &&& t.shared.failed == sh.failed
            &&& t.shared.cancelled == sh.cancelled
            &&& t.shared.probe == sh.probe
            &&& t.shared.next_index == sh.next_index
        }),
{
    crate::http_engine::batch::by_left_same(sh.segments);
    assert(sh.segments[k].wf());
    if first_unfinished(by_left(sh.segments), d.workers as int).len() == 0 {
        empty_batch_means_complete(sh.segments, d.workers as int);
        assert(sh.segments[k].left() == 0);
    }
}

/// A paused download starts over exactly where the new probe reports another size, another
/// ETag or another modification time; where the probe fails, so does the download, with the
/// probe's error. Either way the table and the progress stay as they are.
pub proof fn changed_file_starts_over(
    d: Driver,
    sh: SharedView,
    now: ProbeResult,
    e: SparklingError,
)
    ensures
        reprobed(d, sh, Ok(now)).step == DriverStepView::End(
            Err::<(), EndView>(EndView::RestartNeeded),
        ) <==> {
            ||| now.total != sh.probe.total
            ||| sh.probe.etag is Some && now.etag is Some && sh.probe.etag->0 != now.etag->0@
            ||| sh.probe.last_modified is Some && now.last_modified is Some
                && sh.probe.last_modified->0 != now.last_modified->0@
        },
        reprobed(d, sh, Ok(now)).step is End && reprobed(d, sh, Ok(now)).step->End_0 is Err ==> {
            &&& reprobed(d, sh, Ok(now)).step->End_0->Err_0 is RestartNeeded
            &&& reprobed(d, sh, Ok(now)).shared == sh
            &&& reprobed(d, sh, Ok(now)).driver.phase is Ended
        },
        reprobed(d, sh, Err(e)).step == DriverStepView::End(
            Err::<(), EndView>(EndView::Failed(e@)),
        ),
        reprobed(d, sh, Err(e)).shared == sh,
        reprobed(d, sh, Err(e)).driver.phase is Ended,
{
}

/// A batch ends the download with the error of the first worker that has one; without one,
/// with the failure that was recorded; without that too, as cancelled where it was cancelled;
/// and else not at all.
pub proof fn first_failure_counts(
    outcomes: Seq<Result<WorkerExit, SparklingError>>,
    sh: SharedView,
    k: int,
)
    requires
        0 <= k <= outcomes.len(),
        forall|j: int| 0 <= j < k ==> (#[trigger] outcomes[j]) is Ok,
        k < outcomes.len() ==> outcomes[k] is Err,
    ensures
        k < outcomes.len() ==> fatal(outcomes, sh) == Some(
            EndView::Failed(outcomes[k]->Err_0@),
        ),
        k == outcomes.len() && sh.failed is Some ==> fatal(outcomes, sh) == Some(
            EndView::Failed(sh.failed->0),
        ),
        k == outcomes.len() && sh.failed is None && sh.cancelled ==> fatal(outcomes, sh) == Some(
            EndView::Cancelled,
        ),
        k == outcomes.len() && sh.failed is None && !sh.cancelled ==> fatal(outcomes, sh) is None,
{
    no_error_yet(outcomes, k);
    if k < outcomes.len() {
        let upto = outcomes.take(k + 1);
        assert(upto.drop_last() =~= outcomes.take(k));
        assert(upto.last() == outcomes[k]);
        error_stays_first(outcomes, k + 1);
    } else {
        assert(outcomes.take(k) =~= outcomes);
    }
}

proof fn no_error_yet(outcomes: Seq<Result<WorkerExit, SparklingError>>, k: int)
    requires
        0 <= k <= outcomes.len(),
        forall|j: int| 0 <= j < k ==> (#[trigger] outcomes[j]) is Ok,
    ensures
        first_error(outcomes.take(k)) is None,
    decreases k,
{
    if k > 0 {
        no_error_yet(outcomes, k - 1);
        assert(outcomes.take(k).drop_last() =~= outcomes.take(k - 1));
        assert(outcomes.take(k).last() == outcomes[k - 1]);
    }
}

/// A worker that came to an end counts with what it ended with, and one that was aborted as
/// cancelled.
pub proof fn aborted_workers_count_as_cancelled(exit: Result<WorkerExit, SparklingError>)
    ensures
        outcome_of(Some(exit)) == exit,
        outcome_of(None) is Ok,
        outcome_of(None)->Ok_0 is Cancelled,
{
}

/// The driver sends out the next batch as long as a segment is unfinished, and is done when
/// none is. No worker is idle while there is something to do: an unfinished segment is left
/// out only where every worker has one, and each of those has as much left or more. Apart from
/// the order of the table nothing of the shared state changes.
pub proof fn batches_go_on_until_complete(d: Driver, sh: SharedView, s: Segment)
    requires
        d.workers >= 1,
        table_ok(sh.segments),
    ensures
        ({
            let t = next_batch(d, sh);
            let complete = forall|i: int|
                0 <= i < sh.segments.len() ==> (#[trigger] sh.segments[i]).downloaded
                    == sh.segments[i].end + 1 - sh.segments[i].start;
            &&& complete ==> t.step == DriverStepView::End(Ok::<(), EndView>(())) && t.driver.phase
                is Ended
            &&& !complete ==> t.step is Spawn && t.step->Spawn_0.len() > 0 && t.driver.phase
                is Running
            &&& t.step is Spawn ==> t.step->Spawn_0.len() <= d.workers
            &&& t.step is Spawn ==> forall|i: int|
                0 <= i < t.step->Spawn_0.len() ==> sh.segments.contains(
                    #[trigger] t.step->Spawn_0[i],
                )
            &&& sh.segments.contains(s) && s.downloaded < s.end + 1 - s.start ==> {
                let batch = t.step->Spawn_0;
                batch.contains(s) || (batch.len() == d.workers && forall|i: int|
                    0 <= i < batch.len() ==> (#[trigger] batch[i]).end - batch[i].start
                        - batch[i].downloaded >= s.end - s.start - s.downloaded)
            }
            &&& t.driver.workers == d.workers
            &&& t.shared.segments.to_multiset() == sh.segments.to_multiset()
            &&& t.shared == (SharedView { segments: t.shared.segments, ..sh })
            &&& forall|i: int, j: int|
                0 <= i <= j < t.shared.segments.len() ==> (
                #[trigger] t.shared.segments[i]).end - t.shared.segments[i].start
                    - t.shared.segments[i].downloaded >= (#[trigger] t.shared.segments[j]).end
                    - t.shared.segments[j].start - t.shared.segments[j].downloaded
        }),
{
    let table = by_left(sh.segments);
    let t = next_batch(d, sh);
    let complete = forall|i: int|
        0 <= i < sh.segments.len() ==> (#[trigger] sh.segments[i]).downloaded
            == sh.segments[i].end + 1 - sh.segments[i].start;
    crate::http_engine::batch::by_left_same(sh.segments);
    crate::http_engine::batch::batches_take_the_largest(
        sh.segments,
        d.workers as int,
        s,
    );
    crate::http_engine::batch::by_left_descends(sh.segments);
    assert forall|i: int, j: int| 0 <= i <= j < table.len() implies (#[trigger] table[i]).end
        - table[i].start - table[i].downloaded >= (#[trigger] table[j]).end - table[j].start
        - table[j].downloaded by {
        assert(table[i].left() >= table[j].left());
    }
    let batch = first_unfinished(table, d.workers as int);
    if complete && batch.len() > 0 {
        assert(sh.segments.contains(batch[0]));
        let k = choose|k: int| 0 <= k < sh.segments.len() && sh.segments[k] == batch[0];
        assert(sh.segments[k].downloaded == sh.segments[k].end + 1 - sh.segments[k].start);
    }
    if batch.len() == 0 {
        empty_batch_means_complete(sh.segments, d.workers as int);
        assert forall|i: int| 0 <= i < sh.segments.len() implies (
        #[trigger] sh.segments[i]).downloaded == sh.segments[i].end + 1 - sh.segments[i].start by {
            assert(sh.segments[i].left() == 0);
        }
    }
}

/// When the workers of a batch have ended, a cancelled run ends as cancelled, whatever they
/// ended with; a failure ends the run with its error; a pause saves the control file and
/// keeps everything; and else the next batch follows.
pub proof fn batch_end_decides(
    d: Driver,
    sh: SharedView,
    outcomes: Seq<Result<WorkerExit, SparklingError>>,
)
    ensures
        ({
            let t = batch_ended(d, sh, outcomes);
            let end = fatal(outcomes, sh);
            &&& t.driver.workers == d.workers
            &&& d.phase is Cancelling ==> t.step == DriverStepView::End(
                Err::<(), EndView>(EndView::Cancelled),
            ) && t.shared == sh && t.driver.phase is Ended
            &&& !(d.phase is Cancelling) && end is Some ==> t.step == DriverStepView::End(
                Err::<(), EndView>(end->0),
            ) && t.shared == sh && t.driver.phase is Ended
            &&& d.phase is Pausing && end is None ==> {
                &&& t.step is Hold
                &&& t.step->Hold_0.segments == sh.segments
                &&& t.step->Hold_0.url == sh.url
                &&& t.step->Hold_0.total_size == sh.probe.total
                &&& t.step->Hold_0 == sh.recorded()
                &&& t.shared == sh
                &&& t.driver.phase is Paused
            }
            &&& !(d.phase is Cancelling) && !(d.phase is Pausing) && end is None ==> t
                == next_batch(d, sh)
        }),
{
}

/// A message is heeded where it can be: a running download is paused by a flag that its
/// workers see, and they are waited for; a paused one is probed before it goes on; cancelling
/// sets the other flag and ends the run, at once where no worker is at work. Pausing what is
/// paused and resuming what runs change nothing. The segments and the progress stay.
pub proof fn messages_are_heeded(d: Driver, sh: SharedView, msg: Option<ControlMsg>)
    requires
        d.phase is Running || d.phase is Paused,
    ensures
        ({
            let t = controlled(d, sh, msg);
            &&& t.shared.segments == sh.segments
            &&& t.shared.downloaded == sh.downloaded
            &&& t.shared.failed == sh.failed
            &&& t.driver.workers == d.workers
            &&& msg == Some(ControlMsg::Pause) && d.phase is Running ==> t.shared.paused
                && t.shared.cancelled == sh.cancelled && t.step is AwaitBatch && t.driver.phase
                is Pausing
            &&& msg == Some(ControlMsg::Resume) && d.phase is Paused ==> t.shared == sh && t.step
                is Probe && t.driver.phase is Probing
            &&& msg == Some(ControlMsg::Pause) && d.phase is Paused ==> t.shared == sh && t.step
                is Wait && t.driver == d
            &&& msg == Some(ControlMsg::Resume) && d.phase is Running ==> t.shared == sh && t.step
                is Wait && t.driver == d
            &&& msg is None || msg == Some(ControlMsg::Cancel) ==> {
                &&& t.shared.cancelled
                &&& t.shared.paused == sh.paused
                &&& d.phase is Running ==> t.step is AwaitBatch && t.driver.phase is Cancelling
                &&& d.phase is Paused ==> t.driver.phase is Ended && t.step == DriverStepView::End(
                    Err::<(), EndView>(EndView::Cancelled),
                )
            }
        }),
{
}

/// A step of the driver and an end are seen as they are.
pub proof fn driver_steps_are_seen_as_they_are(step: DriverStep, end: DownloadEnd)
    ensures
        step is Spawn ==> step@ == DriverStepView::Spawn(step->Spawn_0@),
        step is Wait ==> step@ is Wait,
        step is AwaitBatch ==> step@ is AwaitBatch,
        step is Hold ==> step@ == DriverStepView::Hold(step->Hold_0@),
        step is Probe ==> step@ is Probe,
        step is End && step->End_0 is Ok ==> step@ == DriverStepView::End(Ok::<(), EndView>(())),
        step is End && step->End_0 is Err ==> step@ == DriverStepView::End(
            Err::<(), EndView>(step->End_0->Err_0@),
        ),
        end is Failed ==> end@ == EndView::Failed(end->Failed_0@),
        end is Cancelled ==> end@ is Cancelled,
        end is RestartNeeded ==> end@ is RestartNeeded,
{
}

} // verus!
