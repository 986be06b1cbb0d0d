use rust_chat::bot::{BotType, FickleResult, RttCounter, ScenarioReport, VoteIntegrityResult};
use rust_chat::bot::report::{count_outcomes, BotOutcome};
use rust_chat::bot::scenario::{
    delivery_check, plan_scenario, scenario_mix, scenario_report, Delivery,
};

fn secs(elapsed: f64) -> String {
    format!("{elapsed:.2}")
}

#[test]
fn scenario_report_display_all_fields() {
    let report = ScenarioReport {
        mode: "normal".to_string(),
        total_bots: 100,
        success_count: 95,
        failure_count: 5,
        elapsed_secs: secs(12.345),
        avg_rtt_ms: Some(42),
        vote_integrity: None,
    };
    let output = report.to_string();
    assert!(output.contains("=== Scenario Report ==="));
    assert!(output.contains("mode: normal"));
    assert!(output.contains("total_bots: 100"));
    assert!(output.contains("success: 95"));
    assert!(output.contains("failure: 5"));
    assert!(output.contains("elapsed: 12.35s"));
    assert!(output.contains("avg_rtt: 42ms"));
}

#[test]
fn scenario_report_display_rtt_none_shows_na() {
    let report = ScenarioReport {
        mode: "ghost".to_string(),
        total_bots: 10,
        success_count: 10,
        failure_count: 0,
        elapsed_secs: secs(1.0),
        avg_rtt_ms: None,
        vote_integrity: None,
    };
    let output = report.to_string();
    assert!(output.contains("avg_rtt: N/A"));
    for line in output.lines() {
        if line.starts_with("avg_rtt:") {
            assert!(!line.contains("ms"), "None일 때 'ms'가 포함되면 안 됨");
        }
    }
}

#[test]
fn scenario_report_display_vote_integrity_pass() {
    let report = ScenarioReport {
        mode: "fickle".to_string(),
        total_bots: 10,
        success_count: 10,
        failure_count: 0,
        elapsed_secs: secs(1.0),
        avg_rtt_ms: None,
        vote_integrity: Some(VoteIntegrityResult {
            passed: true,
            expected: [3, 2, 3, 2],
            actual: [3, 2, 3, 2],
            fickle_count: 10,
        }),
    };
    let output = report.to_string();
    assert!(output.contains("vote_integrity: PASS"));
}

#[test]
fn scenario_report_display_vote_integrity_fail() {
    let report = ScenarioReport {
        mode: "fickle".to_string(),
        total_bots: 10,
        success_count: 10,
        failure_count: 0,
        elapsed_secs: secs(1.0),
        avg_rtt_ms: None,
        vote_integrity: Some(VoteIntegrityResult {
            passed: false,
            expected: [3, 2, 3, 2],
            actual: [2, 2, 3, 2],
            fickle_count: 10,
        }),
    };
    let output = report.to_string();
    assert!(output.contains("vote_integrity: FAIL"));
}

#[test]
fn scenario_report_display_vote_integrity_na() {
    let report = ScenarioReport {
        mode: "normal".to_string(),
        total_bots: 10,
        success_count: 10,
        failure_count: 0,
        elapsed_secs: secs(1.0),
        avg_rtt_ms: None,
        vote_integrity: None,
    };
    let output = report.to_string();
    assert!(output.contains("vote_integrity: N/A"));
}

#[test]
fn a_report_is_printed_line_by_line() {
    let report = ScenarioReport {
        mode: "fickle".to_string(),
        total_bots: 499,
        success_count: 498,
        failure_count: 1,
        elapsed_secs: secs(0.7),
        avg_rtt_ms: Some(0),
        vote_integrity: Some(VoteIntegrityResult {
            passed: true,
            expected: [131, 131, 118, 119],
            actual: [131, 131, 118, 119],
            fickle_count: 499,
        }),
    };
    assert_eq!(
        report.to_string(),
        "=== Scenario Report ===\nmode: fickle\ntotal_bots: 499\nsuccess: 498\nfailure: 1\n\
         elapsed: 0.70s\navg_rtt: 0ms\nvote_integrity: PASS (expected=[131, 131, 118, 119], \
         actual=[131, 131, 118, 119], fickle_bots=499)"
    );
}

#[test]
fn rtt_counter_record_and_average() {
    let mut counter = RttCounter::new();
    counter.record(10);
    counter.record(20);
    counter.record(30);
    assert_eq!(counter.average(), Some(20));
}

#[test]
fn rtt_counter_empty_average_is_none() {
    let counter = RttCounter::new();
    assert_eq!(counter.average(), None);
}

#[test]
fn rtt_counter_rounds_down_and_wraps() {
    let mut counter = RttCounter::new();
    counter.record(1);
    counter.record(2);
    assert_eq!(counter.average(), Some(1));
    counter.record(u64::MAX);
    assert_eq!((counter.sum_ms, counter.count), (2, 3));
}

#[test]
fn every_bot_succeeds_or_fails() {
    let outcomes = vec![
        BotOutcome::Finished,
        BotOutcome::Failed,
        BotOutcome::Finished,
        BotOutcome::Crashed,
        BotOutcome::Finished,
    ];
    assert_eq!(count_outcomes(&outcomes), (3, 2));
    assert_eq!(count_outcomes(&vec![]), (0, 0));
}

#[test]
fn a_mixed_run_has_bots_of_all_kinds() {
    let plan = plan_scenario("mixed", 10, None).unwrap();
    let mut expected = vec![Some(BotType::Normal); 4];
    expected.extend(vec![Some(BotType::Spammer); 2]);
    expected.extend(vec![Some(BotType::Fickle); 2]);
    expected.push(Some(BotType::GhostBot));
    expected.push(Some(BotType::Quitter));
    assert_eq!(plan.bots, expected);
    assert_eq!(plan.barrier, 2);
    assert_eq!(plan.allocation[0], (BotType::Normal, 4));
    assert_eq!(plan.allocation.len(), 5);
}

#[test]
fn a_mix_can_be_asked_for() {
    let plan = plan_scenario("mixed", 3, Some("quitter:1,ghost:2")).unwrap();
    assert_eq!(
        plan.bots,
        vec![Some(BotType::Quitter), Some(BotType::GhostBot), Some(BotType::GhostBot)]
    );
    assert_eq!(plan.barrier, 1);
    assert_eq!(scenario_mix(Some("quitter:1,ghost:2")).unwrap().to_string(), "quitter:1,ghost:2");
}

#[test]
fn a_wrong_mix_is_rejected() {
    assert_eq!(
        plan_scenario("mixed", 3, Some("ghosts:2")).unwrap_err(),
        "유효하지 않은 ratio: 유효하지 않은 봇 타입: 'ghosts'"
    );
}

#[test]
fn single_modes_ignore_the_mix() {
    let plan = plan_scenario("fickle", 3, Some("nonsense")).unwrap();
    assert_eq!(plan.bots, vec![Some(BotType::Fickle); 3]);
    assert_eq!(plan.barrier, 3);
    assert!(plan.allocation.is_empty());
    assert_eq!(plan_scenario("normal", 3, None).unwrap().barrier, 1);
    assert_eq!(plan_scenario("fickle", 0, None).unwrap().barrier, 1);
}

#[test]
fn unknown_modes_do_nothing() {
    let plan = plan_scenario("dancer", 2, None).unwrap();
    assert_eq!(plan.bots, vec![None, None]);
}

#[test]
fn normal_runs_must_lose_nothing() {
    let check = delivery_check("normal", 100, 10, 1000).unwrap();
    assert_eq!(check, Delivery { expected: 1000, received: 1000 });
    assert!(check.is_complete());
    assert!(!delivery_check("normal", 100, 10, 999).unwrap().is_complete());
    assert!(delivery_check("spammer", 100, 10, 999).is_none());
}

#[test]
fn a_run_is_summed_up() {
    let mut rtt = RttCounter::new();
    rtt.record(7);
    let results = vec![FickleResult { last_vote: Some(1), last_snapshot: Some([0, 1, 0, 0]) }];
    let outcomes = vec![BotOutcome::Finished, BotOutcome::Crashed];
    let report = scenario_report("mixed", 2, &outcomes, secs(2.0), &rtt, &results);
    assert_eq!(report.mode, "mixed");
    assert_eq!(report.total_bots, 2);
    assert_eq!(report.success_count, 1);
    assert_eq!(report.failure_count, 1);
    assert_eq!(report.elapsed_secs, "2.00");
    assert_eq!(report.avg_rtt_ms, Some(7));
    assert!(report.vote_integrity.unwrap().passed);
    let report = scenario_report("normal", 2, &outcomes, secs(2.0), &rtt, &results);
    assert!(report.vote_integrity.is_none());
}
