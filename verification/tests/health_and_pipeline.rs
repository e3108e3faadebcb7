use yapf::loop_step;
use yapf::status_is_success;
use yapf::Health;
use yapf::Outcome;
use yapf::PipelineEvent;
use yapf::PipelineStage;
use yapf::TcpService;

#[test]
fn test_observe_health_threshold_one_flips_immediately() {
    let mut h = Health::default();
    assert!(h.healthy);
    let flipped = h.observe_health(false, 1);
    assert!(flipped);
    assert!(!h.healthy);
    assert_eq!(h.consecutive_count, 0);
}

#[test]
fn test_observe_health_threshold_two_needs_two_failures() {
    let mut h = Health::default();
    let flipped = h.observe_health(false, 2);
    assert!(!flipped);
    assert!(h.healthy);
    assert_eq!(h.consecutive_count, 1);
    let flipped = h.observe_health(false, 2);
    assert!(flipped);
    assert!(!h.healthy);
    assert_eq!(h.consecutive_count, 0);
}

#[test]
fn test_observe_health_intervening_success_resets_counter() {
    let mut h = Health::default();
    assert!(!h.observe_health(false, 2));
    assert_eq!(h.consecutive_count, 1);
    // An agreeing observation resets the run of failures.
    assert!(!h.observe_health(true, 2));
    assert!(h.healthy);
    assert_eq!(h.consecutive_count, 0);
    // Two fresh consecutive failures are needed again.
    assert!(!h.observe_health(false, 2));
    assert!(h.healthy);
    assert!(h.observe_health(false, 2));
    assert!(!h.healthy);
}

#[test]
fn test_observe_health_recovery_uses_its_own_threshold() {
    let mut h = Health::default();
    assert!(h.observe_health(false, 1));
    assert!(!h.healthy);
    // Recovery at threshold 2: one pass is not enough, two are.
    assert!(!h.observe_health(true, 2));
    assert!(!h.healthy);
    assert!(h.observe_health(true, 2));
    assert!(h.healthy);
}

#[test]
fn test_status_is_success_bounds() {
    assert!(status_is_success(200));
    assert!(status_is_success(204));
    assert!(status_is_success(299));
    assert!(!status_is_success(199));
    assert!(!status_is_success(300));
    assert!(!status_is_success(400));
    assert!(!status_is_success(501));
}

#[test]
fn test_loop_step_first_check_runs_immediately() {
    let step = loop_step(false, 1000, 1000, Some(2000));
    assert!(step.run_check);
    assert!(!step.exit);
    assert_eq!(step.next_check, 3000);
}

#[test]
fn test_loop_step_without_interval_checks_once_and_exits() {
    let step = loop_step(false, 1000, 1000, None);
    assert!(step.run_check);
    assert!(step.exit);
}

#[test]
fn test_loop_step_shutdown_exits_before_checking() {
    // The signal fired right after the first check: the next wake-up exits
    // without running another check, so exactly one check ever ran.
    let first = loop_step(false, 1000, 1000, Some(2000));
    assert!(first.run_check);
    let second = loop_step(true, 3000, first.next_check, Some(2000));
    assert!(!second.run_check);
    assert!(second.exit);
}

#[test]
fn test_loop_step_not_due_sleeps_without_checking() {
    let step = loop_step(false, 1500, 3000, Some(2000));
    assert!(!step.run_check);
    assert!(!step.exit);
    assert_eq!(step.next_check, 3000);
}

#[test]
fn test_pipeline_happy_path() {
    let mut stage = yapf::initial_stage();
    let events = [
        PipelineEvent::FilterPassed,
        PipelineEvent::UpstreamChosen,
        PipelineEvent::RewriteDone,
        PipelineEvent::ForwardSucceeded,
        PipelineEvent::LatencyRecorded,
        PipelineEvent::ResponsePassed,
    ];
    for event in events {
        stage = yapf::advance(stage, event).unwrap();
    }
    assert_eq!(stage, PipelineStage::Done(Outcome::UpstreamResponse));
}

#[test]
fn test_pipeline_request_filter_short_circuits() {
    let stage = yapf::advance(yapf::initial_stage(), PipelineEvent::FilterResponded).unwrap();
    assert_eq!(stage, PipelineStage::Done(Outcome::FilterResponse));
}

#[test]
fn test_pipeline_no_upstream_yields_503() {
    let stage = yapf::advance(yapf::initial_stage(), PipelineEvent::FilterPassed).unwrap();
    let stage = yapf::advance(stage, PipelineEvent::NoUpstream).unwrap();
    assert_eq!(stage, PipelineStage::Done(Outcome::NoRoute));
    assert_eq!(yapf::synthesized_status(Outcome::NoRoute), Some(503));
}

#[test]
fn test_pipeline_connect_failure_paths() {
    let stage = yapf::advance(yapf::initial_stage(), PipelineEvent::FilterPassed).unwrap();
    let stage = yapf::advance(stage, PipelineEvent::UpstreamChosen).unwrap();
    let stage = yapf::advance(stage, PipelineEvent::RewriteDone).unwrap();
    let failed = yapf::advance(stage, PipelineEvent::ForwardFailed).unwrap();
    assert_eq!(failed, PipelineStage::FailHook);

    let hooked = yapf::advance(failed, PipelineEvent::HookResponded).unwrap();
    assert_eq!(hooked, PipelineStage::Done(Outcome::HookResponse));
    assert_eq!(yapf::synthesized_status(Outcome::HookResponse), None);

    let declined = yapf::advance(failed, PipelineEvent::HookDeclined).unwrap();
    assert_eq!(declined, PipelineStage::Done(Outcome::ConnectFailure));
    assert_eq!(yapf::synthesized_status(Outcome::ConnectFailure), Some(500));
}

#[test]
fn test_pipeline_rejects_event_out_of_order() {
    assert!(yapf::advance(yapf::initial_stage(), PipelineEvent::ForwardSucceeded).is_none());
    assert!(yapf::advance(
        PipelineStage::Done(Outcome::UpstreamResponse),
        PipelineEvent::FilterPassed
    )
    .is_none());
}

#[test]
fn test_tcp_service_accessors() {
    let service = TcpService::new("probe".to_string(), std::sync::Arc::new(7u32));
    assert_eq!(service.name(), "probe");
    assert_eq!(service.threads(), Some(1));
    assert_eq!(*service.task(), 7);
}
