//! Running the event processors of external homeservers.
use crate::order;
use crate::pubky_id;
use crate::pubky_id::parse_pubky_id;
use crate::text::{copy_texts, same_text};
use vstd::prelude::*;

verus! {

/// What the log should say about the limit, given this cycle's drop count and
/// the previously reported one.
#[derive(Debug, Clone, Copy, PartialEq, Eq, Structural)]
pub enum LimitReport {
    /// Unchanged since the last cycle; already reported.
    Silent,
    /// Over the limit, by another number than before.
    Reached { eligible: usize, dropped: usize },
    /// Back within the limit after having exceeded it.
    Recovered { eligible: usize },
}

/// What is said of a drop count, given the last one that was said.
pub open spec fn limit_report(eligible: usize, dropped: usize, previous: usize) -> LimitReport {
    if dropped == previous {
        LimitReport::Silent
    } else if dropped > 0 {
        LimitReport::Reached { eligible, dropped }
    } else {
        LimitReport::Recovered { eligible }
    }
}

/// Says an overflow once, says it again when it changes, and says when it clears.
pub fn classify_limit(eligible: usize, dropped: usize, previous: usize) -> (report: LimitReport)
    ensures
        report == limit_report(eligible, dropped, previous),
{
    if dropped == previous {
        LimitReport::Silent
    } else if dropped > 0 {
        LimitReport::Reached { eligible, dropped }
    } else {
        LimitReport::Recovered { eligible }
    }
}

/// An overflow that lasts is said once: the cycle after it says nothing.
pub proof fn law_a_lasting_overflow_is_said_once(eligible: usize, dropped: usize)
    ensures
        limit_report(eligible, dropped, dropped) == LimitReport::Silent,
{
}

/// A drop count that changes is said: an overflow that grew or shrank, and the
/// end of one.
pub proof fn law_a_change_of_the_overflow_is_said(eligible: usize, dropped: usize, previous: usize)
    requires
        dropped != previous,
    ensures
        limit_report(eligible, dropped, previous) == (if dropped > 0 {
            LimitReport::Reached { eligible, dropped }
        } else {
            LimitReport::Recovered { eligible }
        }),
{
}

/// What the watcher is configured with.
#[derive(Debug)]
pub struct WatcherConfig {
    /// Events fetched per homeserver and run.
    pub key_based_events_limit: u16,
    /// Homeservers polled at most.
    pub monitored_homeservers_limit: usize,
    /// Primary homeserver, which is processed separately.
    pub homeserver: String,
    /// Homeservers that must never be indexed.
    pub hs_blacklist: Vec<String>,
    pub initial_backoff_secs: u64,
    pub max_backoff_secs: u64,
}

/// Runner of the processors of external homeservers.
#[derive(Debug)]
pub struct KeyBasedEventProcessorRunner {
    pub limit: u16,
    pub monitored_hs_limit: usize,
    /// Primary homeserver id, excluded from the external targets.
    pub primary_homeserver: String,
    /// Homeservers that must never be indexed.
    pub hs_blacklist: Vec<String>,
    pub initial_backoff_secs: u64,
    pub max_backoff_secs: u64,
}

/// Whether a homeserver may be polled: it is neither the primary one nor blacklisted.
pub open spec fn pollable(hs: Seq<char>, primary: Seq<char>, blacklist: Seq<Seq<char>>) -> bool {
    hs != primary && !blacklist.contains(hs)
}

/// Of the first `n` active homeservers, those that may be polled.
pub open spec fn pollable_in(
    active: Seq<Seq<char>>,
    primary: Seq<char>,
    blacklist: Seq<Seq<char>>,
    n: nat,
) -> Seq<Seq<char>>
    decreases n,
{
    if n == 0 {
        Seq::empty()
    } else {
        let before = pollable_in(active, primary, blacklist, (n - 1) as nat);
        if pollable(active[n - 1], primary, blacklist) {
            before.push(active[n - 1])
        } else {
            before
        }
    }
}

/// Of the homeservers that may be polled, those that are polled under a limit.
pub open spec fn polled(all: Seq<Seq<char>>, limit: usize) -> Seq<Seq<char>> {
    all.take(
        if all.len() <= limit {
            all.len() as int
        } else {
            limit as int
        },
    )
}

/// The homeservers of a run, and what to say of the limit.
#[derive(Debug)]
pub struct RunPlan {
    /// The homeservers to poll, highest priority first.
    pub hs_ids: Vec<String>,
    /// How many could have been polled.
    pub eligible: usize,
    /// How many the limit cut off. Those are not polled at all.
    pub dropped: usize,
    pub report: LimitReport,
}

/// How a processor's run ended.
#[derive(Debug, Clone, Copy, PartialEq, Eq, Structural)]
pub enum ProcessorRunStatus {
    Succeeded,
    Error,
    Panic,
    Timeout,
    FailedToBuild,
    Skipped,
}

/// What a homeserver's backoff is told of a run.
#[derive(Debug, Clone, Copy, PartialEq, Eq, Structural)]
pub enum BackoffUpdate {
    Success,
    Failure,
}

/// How many runs ended in each way.
#[derive(Debug, Clone, Copy, PartialEq, Eq, Structural)]
pub struct RunCounts {
    pub ok: usize,
    pub skipped: usize,
    pub failed_to_build: usize,
    pub error: usize,
    pub panic: usize,
    pub timeout: usize,
}

/// What is said once all processors have run.
#[derive(Debug, Clone, Copy, PartialEq, Eq, Structural)]
pub enum RunSummary {
    /// Some runs failed.
    Issues(RunCounts),
    /// No run failed, but some homeservers were skipped.
    SomeSkipped { ok: usize, skipped: usize },
    /// There was no homeserver to poll.
    NoHomeservers,
    /// All runs went well.
    Finished { ok: usize },
}

/// How many of the first `n` runs ended with `status`.
pub open spec fn count_in(statuses: Seq<ProcessorRunStatus>, status: ProcessorRunStatus, n: nat) ->
    nat
    decreases n,
{
    if n == 0 {
        0
    } else {
        count_in(statuses, status, (n - 1) as nat) + if statuses[n - 1] == status {
            1nat
        } else {
            0
        }
    }
}

/// How many runs ended with `status`.
pub open spec fn count_of(statuses: Seq<ProcessorRunStatus>, status: ProcessorRunStatus) -> nat {
    count_in(statuses, status, statuses.len())
}

/// What the counts of a run come down to.
pub open spec fn summary_of(counts: RunCounts) -> RunSummary {
    if counts.error > 0 || counts.panic > 0 || counts.timeout > 0 || counts.failed_to_build > 0 {
        RunSummary::Issues(counts)
    } else if counts.skipped > 0 {
        RunSummary::SomeSkipped { ok: counts.ok, skipped: counts.skipped }
    } else if counts.ok == 0 {
        RunSummary::NoHomeservers
    } else {
        RunSummary::Finished { ok: counts.ok }
    }
}

/// The runs that ended in one of the six ways are all runs.
proof fn lemma_counts(statuses: Seq<ProcessorRunStatus>, n: nat)
    requires
        n <= statuses.len(),
    ensures
        count_in(statuses, ProcessorRunStatus::Succeeded, n) + count_in(
            statuses,
            ProcessorRunStatus::Error,
            n,
        ) + count_in(statuses, ProcessorRunStatus::Panic, n) + count_in(
            statuses,
            ProcessorRunStatus::Timeout,
            n,
        ) + count_in(statuses, ProcessorRunStatus::FailedToBuild, n) + count_in(
            statuses,
            ProcessorRunStatus::Skipped,
            n,
        ) == n,
    decreases n,
{
    if n > 0 {
        lemma_counts(statuses, (n - 1) as nat);
        match statuses[n - 1] {
            ProcessorRunStatus::Succeeded => {},
            ProcessorRunStatus::Error => {},
            ProcessorRunStatus::Panic => {},
            ProcessorRunStatus::Timeout => {},
            ProcessorRunStatus::FailedToBuild => {},
            ProcessorRunStatus::Skipped => {},
        }
    }
}

/// Why no processor was built.
#[derive(Debug, Clone, Copy, PartialEq, Eq, Structural)]
pub enum BuildError {
    /// The text is not the id of a homeserver.
    InvalidId,
}

/// What a processor of one homeserver is built with.
#[derive(Debug)]
pub struct ProcessorPlan {
    pub homeserver_id: String,
    pub limit: u16,
    pub hs_blacklist: Vec<String>,
}

impl KeyBasedEventProcessorRunner {
    /// Creates a new instance from the provided configuration.
    pub fn from_config(config: &WatcherConfig) -> (runner: KeyBasedEventProcessorRunner)
        ensures
            runner.limit == config.key_based_events_limit,
            runner.monitored_hs_limit == config.monitored_homeservers_limit,
            runner.primary_homeserver@ == config.homeserver@,
            runner.hs_blacklist.deep_view() == config.hs_blacklist.deep_view(),
            runner.initial_backoff_secs == config.initial_backoff_secs,
            runner.max_backoff_secs == config.max_backoff_secs,
    {
        KeyBasedEventProcessorRunner {
            limit: config.key_based_events_limit,
            monitored_hs_limit: config.monitored_homeservers_limit,
            primary_homeserver: config.homeserver.clone(),
            hs_blacklist: copy_texts(&config.hs_blacklist),
            initial_backoff_secs: config.initial_backoff_secs,
            max_backoff_secs: config.max_backoff_secs,
        }
    }

    /// Whether a homeserver must never be indexed.
    pub fn is_blacklisted(&self, hs_id: &str) -> (yes: bool)
        ensures
            yes == self.hs_blacklist.deep_view().contains(hs_id@),
    {
        let mut i: usize = 0;
        while i < self.hs_blacklist.len()
            invariant
                i <= self.hs_blacklist@.len(),
                forall|j: int|
                    0 <= j < i ==> #[trigger] self.hs_blacklist.deep_view()[j] != hs_id@,
            decreases self.hs_blacklist@.len() - i,
        {
            if same_text(self.hs_blacklist[i].as_str(), hs_id) {
                assert(self.hs_blacklist.deep_view()[i as int] == hs_id@);
                return true;
            }
            i = i + 1;
        }
        false
    }

    /// The homeservers relevant for a run, out of the active ones in the order
    /// of their priority.
    pub fn hs_by_priority(&self, active: Vec<String>) -> (hs_ids: Vec<String>)
        ensures
            hs_ids.deep_view() == pollable_in(
                active.deep_view(),
                self.primary_homeserver@,
                self.hs_blacklist.deep_view(),
                active.deep_view().len(),
            ),
    {
        let mut hs_ids: Vec<String> = Vec::new();
        assert(hs_ids.deep_view() =~= Seq::empty());
        for hs_id in it: active
            invariant
                it.seq() == active@,
                hs_ids.deep_view() == pollable_in(
                    active.deep_view(),
                    self.primary_homeserver@,
                    self.hs_blacklist.deep_view(),
                    it.index() as nat,
                ),
        {
            let ghost before = hs_ids.deep_view();
            let ghost i = it.index() as int;
            assert(active.deep_view()[i] == hs_id@);
            if !same_text(hs_id.as_str(), self.primary_homeserver.as_str()) && !self.is_blacklisted(
                hs_id.as_str(),
            ) {
                hs_ids.push(hs_id);
                assert(hs_ids.deep_view() =~= before.push(hs_id@));
            }
        }
        hs_ids
    }

    /// The homeservers to poll in this run, at most as many as the limit allows,
    /// and what to say of that, given the drop count last said.
    pub fn pre_run(&self, active: Vec<String>, last_dropped: usize) -> (plan: RunPlan)
        ensures
            ({
                let all = pollable_in(
                    active.deep_view(),
                    self.primary_homeserver@,
                    self.hs_blacklist.deep_view(),
                    active.deep_view().len(),
                );
                &&& plan.hs_ids.deep_view() == polled(all, self.monitored_hs_limit)
                &&& plan.eligible == all.len()
                &&& plan.dropped == all.len() - polled(all, self.monitored_hs_limit).len()
                &&& plan.report == limit_report(plan.eligible, plan.dropped, last_dropped)
            }),
    {
        let mut hs_ids = self.hs_by_priority(active);
        let ghost all = hs_ids.deep_view();
        let eligible: usize = hs_ids.len();
        if eligible > self.monitored_hs_limit {
            hs_ids.truncate(self.monitored_hs_limit);
            assert(hs_ids.deep_view() =~= all.take(self.monitored_hs_limit as int));
        } else {
            assert(all.take(all.len() as int) =~= all);
        }
        let dropped: usize = eligible - hs_ids.len();
        RunPlan { hs_ids, eligible, dropped, report: classify_limit(eligible, dropped, last_dropped) }
    }

    /// What to build the processor of a homeserver with, given what its id
    /// parses to.
    pub fn plan_for(&self, parsed: Option<String>) -> (plan: Result<ProcessorPlan, BuildError>)
        ensures
            match plan {
                Ok(built) => {
                    &&& parsed == Some(built.homeserver_id)
                    &&& built.limit == self.limit
                    &&& built.hs_blacklist.deep_view() == self.hs_blacklist.deep_view()
                },
                Err(error) => error == BuildError::InvalidId && parsed is None,
            },
    {
        match parsed {
            Some(homeserver_id) => Ok(
                ProcessorPlan {
                    homeserver_id,
                    limit: self.limit,
                    hs_blacklist: copy_texts(&self.hs_blacklist),
                },
            ),
            None => Err(BuildError::InvalidId),
        }
    }

    /// What to build the processor of a homeserver with.
    pub fn build(&self, hs_id: &str) -> (plan: Result<ProcessorPlan, BuildError>)
        ensures
            match plan {
                Ok(built) => {
                    &&& pubky_id::pubky_id(hs_id@) == Some(built.homeserver_id@)
                    &&& built.limit == self.limit
                    &&& built.hs_blacklist.deep_view() == self.hs_blacklist.deep_view()
                },
                Err(error) => error == BuildError::InvalidId && pubky_id::pubky_id(hs_id@) is None,
            },
    {
        self.plan_for(parse_pubky_id(hs_id))
    }

    /// What a homeserver's backoff is told of a run: only one that went well
    /// counts as a success.
    pub fn backoff_hs_record_result(status: &ProcessorRunStatus) -> (update: BackoffUpdate)
        ensures
            update == (if *status == ProcessorRunStatus::Succeeded {
                BackoffUpdate::Success
            } else {
                BackoffUpdate::Failure
            }),
            update == BackoffUpdate::Success <==> *status == ProcessorRunStatus::Succeeded,
    {
        if *status == ProcessorRunStatus::Succeeded {
            BackoffUpdate::Success
        } else {
            BackoffUpdate::Failure
        }
    }

    /// How many runs ended in each way.
    pub fn count_runs(statuses: &Vec<ProcessorRunStatus>) -> (counts: RunCounts)
        ensures
            counts.ok == count_of(statuses@, ProcessorRunStatus::Succeeded),
            counts.skipped == count_of(statuses@, ProcessorRunStatus::Skipped),
            counts.failed_to_build == count_of(statuses@, ProcessorRunStatus::FailedToBuild),
            counts.error == count_of(statuses@, ProcessorRunStatus::Error),
            counts.panic == count_of(statuses@, ProcessorRunStatus::Panic),
            counts.timeout == count_of(statuses@, ProcessorRunStatus::Timeout),
    {
        let mut ok: usize = 0;
        let mut skipped: usize = 0;
        let mut failed_to_build: usize = 0;
        let mut error: usize = 0;
        let mut panic: usize = 0;
        let mut timeout: usize = 0;
        let mut i: usize = 0;
        while i < statuses.len()
            invariant
                i <= statuses@.len(),
                ok == count_in(statuses@, ProcessorRunStatus::Succeeded, i as nat),
                skipped == count_in(statuses@, ProcessorRunStatus::Skipped, i as nat),
                failed_to_build == count_in(
                    statuses@,
                    ProcessorRunStatus::FailedToBuild,
                    i as nat,
                ),
                error == count_in(statuses@, ProcessorRunStatus::Error, i as nat),
                panic == count_in(statuses@, ProcessorRunStatus::Panic, i as nat),
                timeout == count_in(statuses@, ProcessorRunStatus::Timeout, i as nat),
            decreases statuses@.len() - i,
        {
            proof {
                lemma_counts(statuses@, i as nat);
            }
            match statuses[i] {
                ProcessorRunStatus::Succeeded => {
                    ok = ok + 1;
                },
                ProcessorRunStatus::Error => {
                    error = error + 1;
                },
                ProcessorRunStatus::Panic => {
                    panic = panic + 1;
                },
                ProcessorRunStatus::Timeout => {
                    timeout = timeout + 1;
                },
                ProcessorRunStatus::FailedToBuild => {
                    failed_to_build = failed_to_build + 1;
                },
                ProcessorRunStatus::Skipped => {
                    skipped = skipped + 1;
                },
            }
            i = i + 1;
        }
        RunCounts { ok, skipped, failed_to_build, error, panic, timeout }
    }

    /// What is said once all processors have run.
    pub fn post_run(statuses: &Vec<ProcessorRunStatus>) -> (summary: RunSummary)
        ensures
            summary == summary_of(
                RunCounts {
                    ok: count_of(statuses@, ProcessorRunStatus::Succeeded) as usize,
                    skipped: count_of(statuses@, ProcessorRunStatus::Skipped) as usize,
                    failed_to_build: count_of(
                        statuses@,
                        ProcessorRunStatus::FailedToBuild,
                    ) as usize,
                    error: count_of(statuses@, ProcessorRunStatus::Error) as usize,
                    panic: count_of(statuses@, ProcessorRunStatus::Panic) as usize,
                    timeout: count_of(statuses@, ProcessorRunStatus::Timeout) as usize,
                },
            ),
    {
        let counts = KeyBasedEventProcessorRunner::count_runs(statuses);
        if counts.error > 0 || counts.panic > 0 || counts.timeout > 0 || counts.failed_to_build
            > 0 {
            RunSummary::Issues(counts)
        } else if counts.skipped > 0 {
            RunSummary::SomeSkipped { ok: counts.ok, skipped: counts.skipped }
        } else if counts.ok == 0 {
            RunSummary::NoHomeservers
        } else {
            RunSummary::Finished { ok: counts.ok }
        }
    }
}

proof fn lemma_pollable(
    active: Seq<Seq<char>>,
    primary: Seq<char>,
    blacklist: Seq<Seq<char>>,
    n: nat,
)
    ensures
        forall|i: int|
            0 <= i < pollable_in(active, primary, blacklist, n).len() ==> pollable(
                #[trigger] pollable_in(active, primary, blacklist, n)[i],
                primary,
                blacklist,
            ),
    decreases n,
{
    if n > 0 {
        lemma_pollable(active, primary, blacklist, (n - 1) as nat);
        let before = pollable_in(active, primary, blacklist, (n - 1) as nat);
        let all = pollable_in(active, primary, blacklist, n);
        assert forall|i: int| 0 <= i < all.len() implies pollable(
            #[trigger] all[i],
            primary,
            blacklist,
        ) by {
            if i < before.len() {
                assert(all[i] == before[i]);
            }
        }
    }
}

/// Neither the primary homeserver nor a blacklisted one is ever polled.
pub proof fn law_no_run_polls_an_excluded_homeserver(
    active: Seq<Seq<char>>,
    primary: Seq<char>,
    blacklist: Seq<Seq<char>>,
)
    ensures
        ({
            let polled = pollable_in(active, primary, blacklist, active.len());
            !polled.contains(primary) && forall|hs: Seq<char>| #[trigger]
                polled.contains(hs) ==> !blacklist.contains(hs)
        }),
{
    lemma_pollable(active, primary, blacklist, active.len());
}

proof fn lemma_pollable_in(
    active: Seq<Seq<char>>,
    primary: Seq<char>,
    blacklist: Seq<Seq<char>>,
    n: nat,
)
    requires
        n <= active.len(),
    ensures
        pollable_in(active, primary, blacklist, n) == order::present(
            active.map_values(
                |hs: Seq<char>|
                    if hs == primary || blacklist.contains(hs) {
                        None
                    } else {
                        Some(hs)
                    },
            ).take(n as int),
        ),
    decreases n,
{
    let all = active.map_values(
        |hs: Seq<char>|
            if hs == primary || blacklist.contains(hs) {
                None
            } else {
                Some(hs)
            },
    );
    if n > 0 {
        lemma_pollable_in(active, primary, blacklist, (n - 1) as nat);
        assert(all.take(n as int).drop_last() =~= all.take(n - 1));
    }
}

/// A run can poll every active homeserver that is neither the primary one nor
/// blacklisted, and no other, in the order of their priority. Under a limit it
/// polls the first of them: those of the highest priority, as many as the limit
/// allows and there are, and counts the others as dropped.
pub proof fn law_a_run_polls_the_first_of_all_that_it_may(
    active: Seq<Seq<char>>,
    primary: Seq<char>,
    blacklist: Seq<Seq<char>>,
    limit: usize,
)
    ensures
        ({
            let all = pollable_in(active, primary, blacklist, active.len());
            let run = polled(all, limit);
            &&& order::keeps_order(
                active.map_values(
                    |hs: Seq<char>|
                        if hs == primary || blacklist.contains(hs) {
                            None
                        } else {
                            Some(hs)
                        },
                ),
                all,
            )
            &&& forall|hs: Seq<char>| #[trigger]
                all.contains(hs) <==> active.contains(hs) && hs != primary && !blacklist.contains(
                    hs,
                )
            &&& run.len() <= limit
            &&& run.len() <= all.len()
            &&& run.len() == limit || run.len() == all.len()
            &&& forall|i: int| 0 <= i < run.len() ==> (#[trigger] run[i]) == all[i]
        }),
{
    let all = pollable_in(active, primary, blacklist, active.len());
    let list = active.map_values(
        |hs: Seq<char>|
            if hs == primary || blacklist.contains(hs) {
                None
            } else {
                Some(hs)
            },
    );
    lemma_pollable_in(active, primary, blacklist, active.len());
    assert(list.take(active.len() as int) =~= list);
    order::lemma_present(list);
    assert forall|hs: Seq<char>| #[trigger]
        all.contains(hs) <==> active.contains(hs) && hs != primary && !blacklist.contains(hs) by {
        order::lemma_picked(list, all, hs);
        if list.contains(Some(hs)) {
            let i = list.index_of(Some(hs));
            assert(active[i] == hs);
        }
        if active.contains(hs) && hs != primary && !blacklist.contains(hs) {
            let i = active.index_of(hs);
            assert(list[i] == Some(hs));
        }
    }
}

/// Each run is counted once, under the way it ended: one run more raises that
/// count by one and no other, and the six counts together are all runs.
pub proof fn law_each_run_is_counted_once(
    statuses: Seq<ProcessorRunStatus>,
    last: ProcessorRunStatus,
    status: ProcessorRunStatus,
)
    ensures
        count_of(statuses.push(last), status) == count_of(statuses, status) + (if last == status {
            1int
        } else {
            0
        }),
        count_of(Seq::<ProcessorRunStatus>::empty(), status) == 0,
        count_of(statuses, ProcessorRunStatus::Succeeded) + count_of(
            statuses,
            ProcessorRunStatus::Error,
        ) + count_of(statuses, ProcessorRunStatus::Panic) + count_of(
            statuses,
            ProcessorRunStatus::Timeout,
        ) + count_of(statuses, ProcessorRunStatus::FailedToBuild) + count_of(
            statuses,
            ProcessorRunStatus::Skipped,
        ) == statuses.len(),
{
    lemma_counts(statuses, statuses.len());
    lemma_count_among(statuses.push(last), statuses, status, statuses.len());
}

proof fn lemma_count_among(
    a: Seq<ProcessorRunStatus>,
    b: Seq<ProcessorRunStatus>,
    status: ProcessorRunStatus,
    n: nat,
)
    requires
        n <= a.len(),
        n <= b.len(),
        forall|i: int| 0 <= i < n ==> #[trigger] a[i] == b[i],
    ensures
        count_in(a, status, n) == count_in(b, status, n),
    decreases n,
{
    if n > 0 {
        lemma_count_among(a, b, status, (n - 1) as nat);
    }
}

/// A summary speaks of issues exactly if some run failed, and then of all
/// counts; of skipped homeservers exactly if there were some and no run failed;
/// and of no homeservers exactly if nothing was run at all.
pub proof fn law_a_summary_hides_no_failure(counts: RunCounts)
    ensures
        summary_of(counts) is Issues <==> counts.error + counts.panic + counts.timeout
            + counts.failed_to_build > 0,
        summary_of(counts) matches RunSummary::Issues(told) ==> told == counts,
        summary_of(counts) is SomeSkipped <==> counts.skipped > 0 && counts.error + counts.panic
            + counts.timeout + counts.failed_to_build == 0,
        summary_of(counts) matches RunSummary::SomeSkipped { ok, skipped } ==> ok == counts.ok
            && skipped == counts.skipped,
        summary_of(counts) is NoHomeservers <==> counts.ok + counts.skipped + counts.error
            + counts.panic + counts.timeout + counts.failed_to_build == 0,
        summary_of(counts) matches RunSummary::Finished { ok } ==> ok == counts.ok && ok > 0,
{
}

} // verus!
