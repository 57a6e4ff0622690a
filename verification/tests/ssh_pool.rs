use host_bridge_mcp::config::{SshAuthConfig, SshAuthType};
use host_bridge_mcp::execution_target::SshTarget;
use host_bridge_mcp::ssh::CommandAttemptStage;
use host_bridge_mcp::ssh_pool::{
    checkout_action, same_target, ChannelEvent, ChannelProgress, CheckoutAction, ConnectionPool,
};

fn target(host: &str) -> SshTarget {
    SshTarget {
        host: host.to_string(),
        port: 22,
        user: Some("deploy".to_string()),
        identity_file: None,
        known_hosts_file: None,
        auth: SshAuthConfig {
            kind: SshAuthType::Agent,
            reference: None,
        },
        verify_host_key: true,
        connection_idle_timeout_ms: 30_000,
    }
}

#[test]
fn returned_connection_is_taken_back_for_same_target() {
    let mut pool: ConnectionPool<u32> = ConnectionPool::new();
    let (generation, replaced) = pool.put(target("a.example"), 7, 1_000);
    assert_eq!(generation, 1);
    assert_eq!(replaced, None);
    assert!(pool.take(&target("b.example")).is_none());
    let taken = pool.take(&target("a.example")).expect("connection should wait");
    assert_eq!(taken.handle, 7);
    assert_eq!(taken.generation, 1);
    assert_eq!(taken.returned_at, 1_000);
    assert_eq!(pool.len(), 0);
    assert!(pool.take(&target("a.example")).is_none());
}

#[test]
fn returning_again_supersedes_the_waiting_connection() {
    let mut pool: ConnectionPool<u32> = ConnectionPool::new();
    let (first, _) = pool.put(target("a.example"), 1, 10);
    let (second, replaced) = pool.put(target("a.example"), 2, 20);
    assert_eq!((first, second), (1, 2));
    assert_eq!(replaced, Some(1));
    assert_eq!(pool.len(), 1);
    assert_eq!(pool.take(&target("a.example")).map(|c| c.handle), Some(2));
}

#[test]
fn stale_cleanup_leaves_newer_connection() {
    let mut pool: ConnectionPool<u32> = ConnectionPool::new();
    let (first, _) = pool.put(target("a.example"), 1, 10);
    let (second, _) = pool.put(target("a.example"), 2, 20);
    assert_eq!(pool.remove_if_generation(&target("a.example"), first), None);
    assert_eq!(pool.len(), 1);
    assert_eq!(pool.remove_if_generation(&target("a.example"), second), Some(2));
    assert_eq!(pool.len(), 0);
}

#[test]
fn targets_differ_by_any_setting() {
    let a = target("a.example");
    let mut b = target("a.example");
    assert!(same_target(&a, &b));
    b.user = None;
    assert!(!same_target(&a, &b));
    let mut c = target("a.example");
    c.connection_idle_timeout_ms = 1;
    assert!(!same_target(&a, &c));
}

#[test]
fn checkout_reuses_only_open_fresh_connections() {
    assert_eq!(checkout_action(false, 1_000, 10_000, 10_999), CheckoutAction::Reuse);
    assert_eq!(checkout_action(false, 1_000, 10_000, 11_000), CheckoutAction::DisconnectAndConnect);
    assert_eq!(checkout_action(true, 1_000, 10_000, 2_000), CheckoutAction::Connect);
    assert_eq!(checkout_action(false, 5_000, 10_000, 1_000), CheckoutAction::Reuse);
}

#[test]
fn channel_failure_stage_depends_on_confirmation() {
    let mut progress = ChannelProgress::new();
    assert_eq!(progress.observe(ChannelEvent::Failure), Some(CommandAttemptStage::ConnectionSetup));
    assert_eq!(progress.observe(ChannelEvent::Success), None);
    assert_eq!(progress.observe(ChannelEvent::Failure), Some(CommandAttemptStage::Runtime));
}

#[test]
fn channel_result_reports_exit_status() {
    let mut progress = ChannelProgress::new();
    progress.observe(ChannelEvent::Output);
    let result = progress.result();
    assert_eq!((result.code, result.success, result.timed_out), (-1, false, false));
    progress.observe(ChannelEvent::ExitStatus(0));
    progress.observe(ChannelEvent::ExitSignal);
    let result = progress.result();
    assert_eq!((result.code, result.success), (0, true));
    let mut signalled = ChannelProgress::new();
    signalled.observe(ChannelEvent::ExitSignal);
    assert_eq!(signalled.result().code, -1);
    signalled.observe(ChannelEvent::ExitStatus(3));
    assert_eq!((signalled.result().code, signalled.result().success), (3, false));
}
