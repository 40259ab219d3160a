//! Which homeservers are polled, and what is said of it.
use nexus::fixtures::random_pubky_id;
use nexus::runner::{
    classify_limit, BackoffUpdate, BuildError, KeyBasedEventProcessorRunner, LimitReport,
    ProcessorRunStatus, RunCounts, RunSummary, WatcherConfig,
};

#[test]
fn within_the_limit_says_nothing() {
    assert_eq!(classify_limit(12, 0, 0), LimitReport::Silent);
}

#[test]
fn crossing_the_limit_reports_once() {
    assert_eq!(
        classify_limit(53, 3, 0),
        LimitReport::Reached {
            eligible: 53,
            dropped: 3
        }
    );
    // Same overflow next cycle: already said, stay quiet rather than warn
    // every few seconds for as long as the instance is saturated.
    assert_eq!(classify_limit(53, 3, 3), LimitReport::Silent);
}

#[test]
fn a_growing_overflow_reports_again() {
    assert_eq!(
        classify_limit(60, 10, 3),
        LimitReport::Reached {
            eligible: 60,
            dropped: 10
        }
    );
}

// Without this the operator sees the warning but never learns it cleared.
#[test]
fn dropping_back_under_the_limit_reports_recovery() {
    assert_eq!(
        classify_limit(48, 0, 3),
        LimitReport::Recovered { eligible: 48 }
    );
}

fn texts(list: &[&str]) -> Vec<String> {
    list.iter().map(|s| s.to_string()).collect()
}

fn runner(limit: usize) -> KeyBasedEventProcessorRunner {
    KeyBasedEventProcessorRunner::from_config(&WatcherConfig {
        key_based_events_limit: 50,
        monitored_homeservers_limit: limit,
        homeserver: "primary".to_string(),
        hs_blacklist: texts(&["bad"]),
        initial_backoff_secs: 1,
        max_backoff_secs: 60,
    })
}

#[test]
fn a_run_leaves_out_the_primary_and_the_blacklisted() {
    let plan = runner(10).pre_run(texts(&["a", "primary", "b", "bad", "c"]), 0);
    assert_eq!(plan.hs_ids, texts(&["a", "b", "c"]));
    assert_eq!((plan.eligible, plan.dropped), (3, 0));
    assert_eq!(plan.report, LimitReport::Silent);
}

#[test]
fn a_run_is_cut_at_the_limit() {
    let plan = runner(2).pre_run(texts(&["a", "primary", "b", "bad", "c"]), 0);
    assert_eq!(plan.hs_ids, texts(&["a", "b"]));
    assert_eq!((plan.eligible, plan.dropped), (3, 1));
    assert_eq!(
        plan.report,
        LimitReport::Reached {
            eligible: 3,
            dropped: 1
        }
    );
}

#[test]
fn a_processor_is_built_for_an_id_only() {
    let id = random_pubky_id();
    let plan = runner(2).build(&id).expect("a valid id");
    assert_eq!(plan.homeserver_id, id);
    assert_eq!(plan.limit, 50);
    assert_eq!(plan.hs_blacklist, texts(&["bad"]));
    assert!(matches!(
        runner(2).build("not an id"),
        Err(BuildError::InvalidId)
    ));
}

#[test]
fn only_a_run_that_went_well_resets_the_backoff() {
    assert_eq!(
        KeyBasedEventProcessorRunner::backoff_hs_record_result(&ProcessorRunStatus::Succeeded),
        BackoffUpdate::Success
    );
    for status in [
        ProcessorRunStatus::Error,
        ProcessorRunStatus::Panic,
        ProcessorRunStatus::Timeout,
        ProcessorRunStatus::FailedToBuild,
        ProcessorRunStatus::Skipped,
    ] {
        assert_eq!(
            KeyBasedEventProcessorRunner::backoff_hs_record_result(&status),
            BackoffUpdate::Failure
        );
    }
}

#[test]
fn runs_are_summed_up() {
    let post_run = |list: &[ProcessorRunStatus]| KeyBasedEventProcessorRunner::post_run(&list.to_vec());
    assert_eq!(post_run(&[]), RunSummary::NoHomeservers);
    assert_eq!(
        post_run(&[ProcessorRunStatus::Succeeded, ProcessorRunStatus::Succeeded]),
        RunSummary::Finished { ok: 2 }
    );
    assert_eq!(
        post_run(&[ProcessorRunStatus::Succeeded, ProcessorRunStatus::Skipped]),
        RunSummary::SomeSkipped { ok: 1, skipped: 1 }
    );
    assert_eq!(
        post_run(&[ProcessorRunStatus::Succeeded, ProcessorRunStatus::Skipped, ProcessorRunStatus::Error, ProcessorRunStatus::Panic, ProcessorRunStatus::Timeout, ProcessorRunStatus::FailedToBuild]),
        RunSummary::Issues(RunCounts {
            ok: 1,
            skipped: 1,
            failed_to_build: 1,
            error: 1,
            panic: 1,
            timeout: 1,
        })
    );
}
