use std::path::PathBuf;

use deepseek_mcp::hooks::{
    webhook_next_step, HookDispatcher, JsonlHookSink, StdoutHookSink, WebhookOutcome, WebhookStep,
};

#[test]
fn jsonl_sink_keeps_its_path() {
    let sink = JsonlHookSink::new(PathBuf::from("/tmp/hooks/log.jsonl"));
    assert_eq!(sink.path(), &PathBuf::from("/tmp/hooks/log.jsonl"));
}

#[test]
fn dispatcher_keeps_sinks_in_order() {
    let mut d: HookDispatcher<u32> = HookDispatcher::default();
    assert!(d.sinks().is_empty());
    d.add_sink(7);
    d.add_sink(3);
    assert_eq!(d.sinks(), &[7, 3]);
    let e = d.clone();
    assert_eq!(e.sinks(), &[7, 3]);
    let _ = StdoutHookSink::default();
}

#[test]
fn webhook_success_is_done() {
    assert_eq!(webhook_next_step(0, WebhookOutcome::Delivered), WebhookStep::Done);
    assert_eq!(webhook_next_step(2, WebhookOutcome::Delivered), WebhookStep::Done);
}

#[test]
fn webhook_failures_retry_with_growing_pause() {
    assert_eq!(
        webhook_next_step(0, WebhookOutcome::Rejected { status: 500 }),
        WebhookStep::Retry { retries: 1, delay_ms: 200 }
    );
    assert_eq!(
        webhook_next_step(1, WebhookOutcome::Unreachable),
        WebhookStep::Retry { retries: 2, delay_ms: 400 }
    );
}

#[test]
fn webhook_gives_up_after_third_failure() {
    assert_eq!(webhook_next_step(2, WebhookOutcome::Rejected { status: 404 }), WebhookStep::GiveUp);
    assert_eq!(webhook_next_step(2, WebhookOutcome::Unreachable), WebhookStep::GiveUp);
}

#[test]
fn webhook_run_makes_at_most_three_attempts() {
    let mut retries = 0usize;
    let mut attempts = 0;
    loop {
        attempts += 1;
        match webhook_next_step(retries, WebhookOutcome::Unreachable) {
            WebhookStep::Retry { retries: r, .. } => retries = r,
            _ => break,
        }
    }
    assert_eq!(attempts, 3);
}
