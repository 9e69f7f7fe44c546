//! The course of one download: from the probe over the free space and the control file to
//! the workers, and from their end to the published file.
use crate::control_file::ControlFile;
use crate::disk::{check_space, required_space, space_needed};
use crate::error::{ErrorView, SparklingError};
use crate::http_engine::driver::DownloadEnd;
use crate::http_engine::retry::{delay, Delay, RetryCount, RetryPolicy};
use crate::http_engine::run::{
    fresh_shared, is_plan, on_probe, opening, plan, sanitized, settle, settle_sequential,
    starts_clean, wanted_name, Plan, PlanView, ProbeNext, Settlement, Target,
};
use crate::http_engine::shared::{table_ok, Shared};
use crate::http_engine::worker::WorkerExit;
use crate::paths::{is_joined, join};
use crate::probe::ProbeResult;
use crate::segment::{is_split, split_gives_what_was_asked, split_tiles, tiles, Segment};
use crate::task::TaskSpec;
use vstd::prelude::*;

verus! {

/// What a download is waiting for.
#[derive(Debug, Clone, Copy, PartialEq, Eq, Structural)]
pub enum RunPhase {
    /// What the server says of the file.
    Probing,
    /// How much space is free.
    Spacing,
    /// Whether there is a control file.
    Looking,
    /// An empty file to be created.
    Creating,
    /// The part file to be made ready.
    Preparing,
    /// The workers.
    Working,
    /// The part file to be published.
    Publishing,
    /// Nothing any more.
    Ended,
}

/// What is to be done for a download.
#[derive(Debug)]
pub enum RunStep {
    /// Probe the file.
    Probe,
    /// Wait, then probe the file.
    ProbeAfter(Delay),
    /// Find out how much space is free in the task's directory.
    AskSpace,
    /// Look for a control file.
    LookForControl,
    /// Create the file, which is empty.
    CreateEmpty,
    /// Make the part file ready and start the workers.
    Begin(Plan),
    /// Start the workers.
    Work,
    /// Check and publish the part file.
    Publish,
    /// Delete the part file and the control file, then probe the file.
    DiscardAndProbe,
    /// Delete the part file and the control file: the download was cancelled.
    DiscardAndEnd,
    /// The download is over.
    End(Result<(), DownloadEnd>),
}

/// One download.
#[derive(Debug)]
pub struct Download {
    pub spec: TaskSpec,
    pub policy: RetryPolicy,
    pub phase: RunPhase,
    pub count: RetryCount,
    /// The name of the finished file, once it is known. It stays when the download starts
    /// over.
    pub filename: Option<String>,
    /// What was probed last.
    pub probe: Option<ProbeResult>,
    /// Whether the download has started over because the remote file has changed.
    pub again: bool,
}

/// The step is the end of the download with the given error.
pub open spec fn ends_with(step: RunStep, e: ErrorView) -> bool {
    match step {
        RunStep::End(Err(DownloadEnd::Failed(x))) => x@ == e,
        _ => false,
    }
}

/// Only the phase has changed.
pub open spec fn moved(before: Download, after: Download, phase: RunPhase) -> bool {
    &&& after.phase == phase
    &&& after.spec == before.spec
    &&& after.policy == before.policy
    &&& after.count == before.count
    &&& after.filename == before.filename
    &&& after.probe == before.probe
    &&& after.again == before.again
}

/// The download has started over.
pub open spec fn started_over(before: Download, after: Download) -> bool {
    &&& after.again
    &&& moved(Download { again: true, ..before }, after, RunPhase::Probing)
}

/// Whether the part file is created anew before the workers start, given its length if it
/// is there. One worker from the first byte on always starts with a new one; workers for
/// segments keep one that is as long as the file. An empty file has none.
pub open spec fn part_created(plan: PlanView, len: Option<u64>) -> bool {
    match plan {
        PlanView::Empty => false,
        PlanView::Sequential { shared, discard } => true,
        PlanView::Segmented { shared, discard } => len != Some(shared.probe.total),
    }
}

/// Whether the part file is created anew before the workers start.
pub fn needs_new_part(plan: &Plan, len: Option<u64>) -> (r: bool)
    ensures
        r == part_created(plan@, len),
{
    match plan {
        Plan::Empty => false,
        Plan::Sequential { shared: _, discard: _ } => true,
        Plan::Segmented { shared, discard: _ } => match len {
            Some(n) => n != shared.probe.total,
            None => true,
        },
    }
}

/// The table of a download that starts from nothing.
pub open spec fn fresh_table(segs: Seq<Segment>, total: u64, n: u32) -> bool {
    &&& total > 0 ==> is_split(segs, total as int, n as int)
    &&& total == 0 ==> segs.len() == 0
}

/// `out` is the plan after a look at the part file, of which `len` is the length if it is
/// there. Where workers for segments would need a new part file, nothing that was recorded
/// of the old one counts: better to download again than to go on from doubtful offsets.
pub open spec fn is_renewed(
    out: PlanView,
    plan: PlanView,
    spec: TaskSpec,
    len: Option<u64>,
) -> bool {
    if plan is Segmented && part_created(plan, len) {
        let old = plan->Segmented_shared;
        let new = out->Segmented_shared;
        &&& out is Segmented
        &&& out->Segmented_discard
        &&& fresh_table(new.segments, old.probe.total, spec.segments)
        &&& new == opening(spec.url@, old.filename, old.probe, new.segments)
    } else {
        out == plan
    }
}

/// The plan after a look at the part file, given its length if it is there.
pub fn renew_plan(begin: Plan, spec: &TaskSpec, len: Option<u64>) -> (r: Plan)
    ensures
        is_renewed(r@, begin@, *spec, len),
        begin is Segmented && part_created(begin@, len) ==> r->Segmented_shared.wf()
            && r->Segmented_shared.counted(),
        !(begin is Segmented && part_created(begin@, len)) ==> r == begin,
{
    if !needs_new_part(&begin, len) {
        return begin;
    }
    match begin {
        Plan::Segmented { shared, discard: _ } => Plan::Segmented {
            shared: fresh_shared(spec, shared.filename, shared.probe),
            discard: true,
        },
        other => other,
    }
}

impl Download {
    /// From the first probe that succeeds on, the name is known and so is the file.
    pub open spec fn wf(self) -> bool {
        &&& self.again ==> self.filename is Some
        &&& self.phase is Probing || self.phase is Ended || {
            &&& self.filename is Some
            &&& self.probe is Some
            &&& space_needed(self.probe->0.total as int) <= u64::MAX
        }
    }

    /// A new download; its first step is to probe the file.
    pub fn new(spec: TaskSpec, policy: RetryPolicy) -> (r: Self)
        ensures
            r.wf(),
            r.phase is Probing,
            r.spec == spec,
            r.policy == policy,
            r.count.attempt == 0,
            r.filename is None,
            r.probe is None,
            !r.again,
    {
        Download {
            spec,
            policy,
            phase: RunPhase::Probing,
            count: RetryCount::new(),
            filename: None,
            probe: None,
            again: false,
        }
    }

    /// Where the finished file will be.
    pub fn final_path(&self) -> (r: String)
        requires
            self.filename is Some,
        ensures
            is_joined(self.spec.save_dir@, self.filename->0@, r@),
    {
        match &self.filename {
            Some(name) => join(self.spec.save_dir.as_str(), name.as_str()),
            None => String::new(),
        }
    }

    fn fail(&mut self, e: SparklingError) -> (r: RunStep)
        requires
            old(self).again ==> old(self).filename is Some,
        ensures
            final(self).wf(),
            moved(*old(self), *final(self), RunPhase::Ended),
            ends_with(r, e@),
    {
        self.phase = RunPhase::Ended;
        RunStep::End(Err(DownloadEnd::Failed(e)))
    }

    /// What follows on a probe. The first one is repeated as the policy says; the one of a
    /// download that starts over is not.
    pub fn on_probe(&mut self, outcome: Result<ProbeResult, SparklingError>) -> (r: RunStep)
        requires
            old(self).wf(),
            old(self).phase is Probing,
            old(self).count.attempt < u32::MAX,
            outcome is Ok ==> space_needed(outcome->Ok_0.total as int) <= u64::MAX,
        ensures
            final(self).wf(),
            final(self).spec == old(self).spec,
            final(self).policy == old(self).policy,
            final(self).again == old(self).again,
            match outcome {
                Ok(probe) => {
                    &&& r is AskSpace
                    &&& final(self).phase is Spacing
                    &&& final(self).count == old(self).count
                    &&& final(self).probe == Some(probe)
                    &&& if old(self).again {
                        final(self).filename == old(self).filename
                    } else {
                        final(self).filename is Some && final(self).filename->0@ == sanitized(
                            wanted_name(old(self).spec, probe),
                        )
                    }
                },
                Err(e) => {
                    &&& final(self).filename == old(self).filename
                    &&& final(self).probe == old(self).probe
                    &&& if old(self).again {
                        &&& ends_with(r, e@)
                        &&& final(self).phase is Ended
                        &&& final(self).count == old(self).count
                    } else if old(self).count.attempt + 1 > old(self).policy.max_retries {
                        ends_with(r, e@) && final(self).phase is Ended
                    } else {
                        &&& r is ProbeAfter
                        &&& r->ProbeAfter_0.nanos == delay(
                            old(self).policy,
                            old(self).count.attempt + 1,
                        )
                        &&& final(self).phase is Probing
                        &&& final(self).count.attempt == old(self).count.attempt + 1
                    }
                },
            },
    {
        if self.again {
            return match outcome {
                Ok(probe) => {
                    self.probe = Some(probe);
                    self.phase = RunPhase::Spacing;
                    RunStep::AskSpace
                },
                Err(e) => self.fail(e),
            };
        }
        match on_probe(&self.spec, &mut self.count, &self.policy, outcome) {
            ProbeNext::Found(target) => {
                let Target { probe, filename, required: _ } = target;
                self.probe = Some(probe);
                self.filename = Some(filename);
                self.phase = RunPhase::Spacing;
                RunStep::AskSpace
            },
            ProbeNext::Retry(d) => RunStep::ProbeAfter(d),
            ProbeNext::Fail(e) => self.fail(e),
        }
    }

    /// What follows when the free space is known, or why it is not: without enough of it
    /// the download fails before any file is touched. A download that starts over goes on
    /// with a new table; an empty file is only created; otherwise a control file is looked
    /// for.
    pub fn on_space(&mut self, available: Result<u64, String>) -> (r: RunStep)
        requires
            old(self).wf(),
            old(self).phase is Spacing,
        ensures
            final(self).wf(),
            ({
                let probe = old(self).probe->0;
                let required = space_needed(probe.total as int);
                match available {
                    Err(why) => moved(*old(self), *final(self), RunPhase::Ended) && ends_with(
                        r,
                        ErrorView::DiskWrite("无法查询磁盘剩余空间: "@ + why@),
                    ),
                    Ok(free) => if free < required {
                        &&& moved(*old(self), *final(self), RunPhase::Ended)
                        &&& ends_with(
                            r,
                            ErrorView::InsufficientDisk {
                                required: required as u64,
                                available: free,
                            },
                        )
                    } else if old(self).again {
                        &&& moved(*old(self), *final(self), RunPhase::Preparing)
                        &&& is_fresh_start(r, old(self).spec, probe, old(self).filename->0@)
                    } else if probe.total == 0 {
                        moved(*old(self), *final(self), RunPhase::Creating) && r is CreateEmpty
                    } else {
                        moved(*old(self), *final(self), RunPhase::Looking) && r is LookForControl
                    },
                }
            }),
    {
        let (total, probe) = match &self.probe {
            Some(p) => (p.total, p.clone()),
            None => {
                return RunStep::AskSpace;
            },
        };
        if let Err(e) = check_space(available, required_space(total)) {
            return self.fail(e);
        }
        if self.again {
            self.phase = RunPhase::Preparing;
            let name: String = match &self.filename {
                Some(f) => f.clone(),
                None => String::new(),
            };
            let shared: Shared = fresh_shared(&self.spec, name, probe);
            return RunStep::Begin(Plan::Segmented { shared, discard: false });
        }
        if total == 0 {
            self.phase = RunPhase::Creating;
            RunStep::CreateEmpty
        } else {
            self.phase = RunPhase::Looking;
            RunStep::LookForControl
        }
    }

    /// What follows when it is known whether there is a control file and whether it can be
    /// read.
    pub fn on_control_file(&mut self, ctl: Option<Result<ControlFile, SparklingError>>) -> (r:
        RunStep)
        requires
            old(self).wf(),
            old(self).phase is Looking,
            ctl is Some && ctl->0 is Ok ==> table_ok(ctl->0->Ok_0.segments@),
        ensures
            final(self).wf(),
            moved(*old(self), *final(self), RunPhase::Preparing),
            r is Begin,
            is_plan(
                r->Begin_0@,
                old(self).spec,
                old(self).probe->0,
                old(self).filename->0@,
                ctl,
            ),
            match r->Begin_0 {
                Plan::Empty => true,
                Plan::Sequential { shared, discard } => shared.wf() && shared.counted(),
                Plan::Segmented { shared, discard } => shared.wf() && shared.counted(),
            },
    {
        self.phase = RunPhase::Preparing;
        let name: String = match &self.filename {
            Some(f) => f.clone(),
            None => String::new(),
        };
        match &self.probe {
            Some(p) => RunStep::Begin(plan(&self.spec, p.clone(), name, ctl)),
            None => RunStep::Begin(Plan::Empty),
        }
    }

    /// What follows when the empty file has been created, or could not be.
    pub fn on_created(&mut self, outcome: Result<(), String>) -> (r: RunStep)
        requires
            old(self).wf(),
            old(self).phase is Creating,
        ensures
            final(self).wf(),
            moved(*old(self), *final(self), RunPhase::Ended),
            match outcome {
                Ok(_) => r == RunStep::End(Ok(())),
                Err(why) => ends_with(r, ErrorView::DiskWrite(why@)),
            },
    {
        match outcome {
            Ok(_) => {
                self.phase = RunPhase::Ended;
                RunStep::End(Ok(()))
            },
            Err(why) => self.fail(SparklingError::DiskWrite(why)),
        }
    }

    /// What follows when the part file has been made ready, or could not be.
    pub fn on_prepared(&mut self, outcome: Result<(), String>) -> (r: RunStep)
        requires
            old(self).wf(),
            old(self).phase is Preparing,
        ensures
            final(self).wf(),
            match outcome {
                Ok(_) => r is Work && moved(*old(self), *final(self), RunPhase::Working),
                Err(why) => ends_with(r, ErrorView::DiskWrite(why@)) && moved(
                    *old(self),
                    *final(self),
                    RunPhase::Ended,
                ),
            },
    {
        match outcome {
            Ok(_) => {
                self.phase = RunPhase::Working;
                RunStep::Work
            },
            Err(why) => self.fail(SparklingError::DiskWrite(why)),
        }
    }

    fn on_settled(&mut self, end: Settlement) -> (r: RunStep)
        requires
            old(self).wf(),
            old(self).phase is Working,
        ensures
            final(self).wf(),
            match end {
                Settlement::Publish => r is Publish && moved(
                    *old(self),
                    *final(self),
                    RunPhase::Publishing,
                ),
                Settlement::Discard => r is DiscardAndEnd && moved(
                    *old(self),
                    *final(self),
                    RunPhase::Ended,
                ),
                Settlement::Keep(e) => ends_with(r, e@) && moved(
                    *old(self),
                    *final(self),
                    RunPhase::Ended,
                ),
                Settlement::Restart => r is DiscardAndProbe && started_over(
                    *old(self),
                    *final(self),
                ),
            },
    {
        match end {
            Settlement::Publish => {
                self.phase = RunPhase::Publishing;
                RunStep::Publish
            },
            Settlement::Discard => {
                self.phase = RunPhase::Ended;
                RunStep::DiscardAndEnd
            },
            Settlement::Keep(e) => self.fail(e),
            Settlement::Restart => {
                self.phase = RunPhase::Probing;
                self.again = true;
                RunStep::DiscardAndProbe
            },
        }
    }

    /// What follows when the driver of a segmented download has ended: all is there and is
    /// published; or it failed, and the files stay for another try; or it was cancelled,
    /// and they are deleted; or the remote file has changed, and the download starts over.
    pub fn on_driver_end(&mut self, end: Result<(), DownloadEnd>) -> (r: RunStep)
        requires
            old(self).wf(),
            old(self).phase is Working,
        ensures
            final(self).wf(),
            match end {
                Ok(_) => r is Publish && moved(*old(self), *final(self), RunPhase::Publishing),
                Err(DownloadEnd::Failed(e)) => ends_with(r, e@) && moved(
                    *old(self),
                    *final(self),
                    RunPhase::Ended,
                ),
                Err(DownloadEnd::Cancelled) => r is DiscardAndEnd && moved(
                    *old(self),
                    *final(self),
                    RunPhase::Ended,
                ),
                Err(DownloadEnd::RestartNeeded) => r is DiscardAndProbe && started_over(
                    *old(self),
                    *final(self),
                ),
            },
    {
        self.on_settled(settle(end))
    }

    /// What follows when the sequential worker has ended.
    pub fn on_worker_exit(&mut self, exit: Result<WorkerExit, SparklingError>) -> (r: RunStep)
        requires
            old(self).wf(),
            old(self).phase is Working,
        ensures
            final(self).wf(),
            match exit {
                Ok(WorkerExit::Done) => r is Publish && moved(
                    *old(self),
                    *final(self),
                    RunPhase::Publishing,
                ),
                Ok(_) => r is DiscardAndEnd && moved(*old(self), *final(self), RunPhase::Ended),
                Err(e) => ends_with(r, e@) && moved(*old(self), *final(self), RunPhase::Ended),
            },
    {
        self.on_settled(settle_sequential(exit))
    }

    /// What follows when the part file has been checked and published, or has not.
    pub fn on_published(&mut self, outcome: Result<(), SparklingError>) -> (r: RunStep)
        requires
            old(self).wf(),
            old(self).phase is Publishing,
        ensures
            final(self).wf(),
            moved(*old(self), *final(self), RunPhase::Ended),
            match outcome {
                Ok(_) => r == RunStep::End(Ok(())),
                Err(e) => ends_with(r, e@),
            },
    {
        match outcome {
            Ok(_) => {
                self.phase = RunPhase::Ended;
                RunStep::End(Ok(()))
            },
            Err(e) => self.fail(e),
        }
    }
}

/// The step begins a download of the probed file from nothing.
pub open spec fn is_fresh_start(
    step: RunStep,
    spec: TaskSpec,
    probe: ProbeResult,
    filename: Seq<char>,
) -> bool {
    match step {
        RunStep::Begin(Plan::Segmented { shared, discard }) => {
            &&& !discard
            &&& shared.wf()
            &&& shared.counted()
            &&& probe.total > 0 ==> is_split(
                shared.segments@,
                probe.total as int,
                spec.segments as int,
            )
            &&& probe.total == 0 ==> shared.segments@.len() == 0
            &&& shared@ == opening(spec.url@, filename, probe@, shared.segments@)
        },
        _ => false,
    }
}

// ---------------------------------------------------------------------------
// Laws
// ---------------------------------------------------------------------------
/// A move to another phase changes nothing but the phase; starting over besides only takes
/// note that it has happened.
pub proof fn moves_change_only_the_phase(before: Download, after: Download, phase: RunPhase)
    ensures
        moved(before, after, phase) ==> after == (Download { phase, ..before }),
        moved(before, after, phase) <== after == (Download { phase, ..before }),
        started_over(before, after) <==> after == (Download {
            phase: RunPhase::Probing,
            again: true,
            ..before
        }),
{
}

/// A failed download ends with the error that it failed with.
pub proof fn failed_downloads_end_with_their_error(step: RunStep, e: ErrorView)
    ensures
        ends_with(step, e) ==> {
            &&& step is End
            &&& step->End_0 is Err
            &&& step->End_0->Err_0 is Failed
            &&& step->End_0->Err_0->Failed_0@ == e
        },
        step is End && step->End_0 is Err && step->End_0->Err_0 is Failed
            && step->End_0->Err_0->Failed_0@ == e ==> ends_with(step, e),
{
}

/// A download that starts over does so from nothing: with as many segments as asked for, which
/// partition the file, under its earlier name, of the file as it was probed last, and with no
/// flag set. There is nothing to delete any more.
pub proof fn starting_over_starts_from_nothing(
    step: RunStep,
    spec: TaskSpec,
    probe: ProbeResult,
    filename: Seq<char>,
)
    requires
        is_fresh_start(step, spec, probe, filename),
        probe.total > 0,
    ensures
        step is Begin,
        step->Begin_0 is Segmented,
        !step->Begin_0->Segmented_discard,
        ({
            let sh = step->Begin_0->Segmented_shared;
            &&& starts_clean(sh@, spec, probe, filename)
            &&& tiles(sh.segments@, probe.total as int)
            &&& is_split(sh.segments@, probe.total as int, spec.segments as int)
            &&& sh.downloaded == 0
            &&& 1 <= spec.segments <= probe.total ==> sh.segments@.len() == spec.segments
        }),
{
    let sh = step->Begin_0->Segmented_shared;
    split_tiles(sh.segments@, probe.total, spec.segments);
    split_gives_what_was_asked(sh.segments@, probe.total, spec.segments);
}

/// One worker from the first byte on always has a new part file; workers for segments have a
/// new one exactly where there is none of the file's length; an empty file needs none.
pub proof fn part_file_is_kept_if_whole(plan: PlanView, len: u64)
    ensures
        plan is Empty ==> !part_created(plan, Some(len)) && !part_created(plan, None),
        plan is Sequential ==> part_created(plan, Some(len)) && part_created(plan, None),
        plan is Segmented ==> part_created(plan, None) && (part_created(plan, Some(len))
            <==> len != plan->Segmented_shared.probe.total),
{
}

/// Where the part file is there with its length, a plan stays as it is. Where it is not,
/// nothing that was recorded counts: the download starts from nothing with as many segments as
/// asked for, and its leftovers are deleted; the URL, the name and the probed file stay.
pub proof fn lost_part_file_counts_for_nothing(
    out: PlanView,
    plan: PlanView,
    spec: TaskSpec,
    len: Option<u64>,
)
    requires
        is_renewed(out, plan, spec, len),
    ensures
        !(plan is Segmented) ==> out == plan,
        plan is Segmented && len == Some(plan->Segmented_shared.probe.total) ==> out == plan,
        plan is Segmented && len != Some(plan->Segmented_shared.probe.total) ==> {
            let was = plan->Segmented_shared;
            let now = out->Segmented_shared;
            &&& out is Segmented
            &&& out->Segmented_discard
            &&& now.downloaded == 0
            &&& now.url == spec.url@
            &&& now.filename == was.filename
            &&& now.probe == was.probe
            &&& !now.paused && !now.cancelled && !now.finished && now.failed is None
            &&& now.next_index == now.segments.len()
            &&& was.probe.total > 0 ==> tiles(now.segments, was.probe.total as int) && is_split(
                now.segments,
                was.probe.total as int,
                spec.segments as int,
            )
            &&& 1 <= spec.segments <= was.probe.total ==> now.segments.len() == spec.segments
        },
{
    if plan is Segmented && len != Some(plan->Segmented_shared.probe.total) {
        let total = plan->Segmented_shared.probe.total;
        let now = out->Segmented_shared;
        if total > 0 {
            split_tiles(now.segments, total, spec.segments);
            split_gives_what_was_asked(now.segments, total, spec.segments);
        }
    }
}

} // verus!
