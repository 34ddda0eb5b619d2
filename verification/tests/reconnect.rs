use std::cell::Cell;
use std::sync::atomic::{AtomicBool, AtomicUsize, Ordering};

use sshr::reconnect::{accepts, start, step, ReconnectAction, ReconnectEvent};
use sshr::ssh::SshContext;

/// Runs a session through the reconnection rules, with the outside steps given as
/// closures; the connection reports its exit code.
fn run_reconnect_loop<F, B, W, C>(connect: F, on_ssh_error: B, wait: W, is_closing: C) -> Result<(), String>
where
    F: Fn() -> Result<Option<i32>, String>,
    B: Fn(),
    W: Fn() -> bool,
    C: Fn() -> bool,
{
    let (mut state, mut action) = start();
    let mut failure: Option<String> = None;
    loop {
        let event = match action {
            ReconnectAction::Connect { .. } => match connect() {
                Ok(code) => ReconnectEvent::Exited { code, closing: is_closing() },
                Err(e) => {
                    failure = Some(e);
                    ReconnectEvent::ConnectFailed
                }
            },
            ReconnectAction::HandleSshError => {
                on_ssh_error();
                ReconnectEvent::SshErrorHandled
            }
            ReconnectAction::Prompt => ReconnectEvent::Answered { reconnect: wait() },
            ReconnectAction::Finish => return Ok(()),
            ReconnectAction::Fail => return Err(failure.unwrap_or_default()),
        };
        assert!(accepts(state, event));
        let (s, a) = step(state, event);
        state = s;
        action = a;
    }
}

struct ConnectSequence {
    codes: Vec<i32>,
    call_count: AtomicUsize,
}

impl ConnectSequence {
    fn new(codes: Vec<i32>) -> Self {
        Self { codes, call_count: AtomicUsize::new(0) }
    }

    fn connect(&self) -> Result<Option<i32>, String> {
        let i = self.call_count.fetch_add(1, Ordering::SeqCst);
        Ok(Some(self.codes.get(i).copied().unwrap_or(0)))
    }

    fn calls(&self) -> usize {
        self.call_count.load(Ordering::SeqCst)
    }
}

#[test]
fn success_on_first_connect() {
    let seq = ConnectSequence::new(vec![0]);
    let errors = AtomicUsize::new(0);
    let result = run_reconnect_loop(
        || seq.connect(),
        || {
            errors.fetch_add(1, Ordering::SeqCst);
        },
        || panic!("should not wait for keypress"),
        || false,
    );
    assert!(result.is_ok());
    assert_eq!(seq.calls(), 1);
    assert_eq!(errors.load(Ordering::SeqCst), 0);
}

#[test]
fn signal_breaks_loop_immediately() {
    let seq = ConnectSequence::new(vec![1]);
    let result = run_reconnect_loop(
        || seq.connect(),
        || panic!("should not call on_ssh_error"),
        || panic!("should not wait"),
        || true,
    );
    assert!(result.is_ok());
    assert_eq!(seq.calls(), 1);
}

#[test]
fn remote_cmd_failure_does_not_kill_master() {
    let seq = ConnectSequence::new(vec![1]);
    let errors = AtomicUsize::new(0);
    let result = run_reconnect_loop(
        || seq.connect(),
        || {
            errors.fetch_add(1, Ordering::SeqCst);
        },
        || false,
        || false,
    );
    assert!(result.is_ok());
    assert_eq!(seq.calls(), 1);
    assert_eq!(errors.load(Ordering::SeqCst), 0, "on_ssh_error must not fire for non-255 exits");
}

#[test]
fn ssh_error_kills_master_and_retries() {
    let seq = ConnectSequence::new(vec![255, 0]);
    let errors = AtomicUsize::new(0);
    let result = run_reconnect_loop(
        || seq.connect(),
        || {
            errors.fetch_add(1, Ordering::SeqCst);
        },
        || panic!("immediate retry should succeed, no prompt needed"),
        || false,
    );
    assert!(result.is_ok());
    assert_eq!(seq.calls(), 2);
    assert_eq!(errors.load(Ordering::SeqCst), 1);
}

#[test]
fn ssh_error_retry_also_fails_user_quits() {
    let seq = ConnectSequence::new(vec![255, 255]);
    let errors = AtomicUsize::new(0);
    let result = run_reconnect_loop(
        || seq.connect(),
        || {
            errors.fetch_add(1, Ordering::SeqCst);
        },
        || false,
        || false,
    );
    assert!(result.is_ok());
    assert_eq!(seq.calls(), 2);
    assert_eq!(errors.load(Ordering::SeqCst), 1);
}

#[test]
fn ssh_error_network_recovers_after_prompt() {
    let seq = ConnectSequence::new(vec![255, 255, 0]);
    let errors = AtomicUsize::new(0);
    let result = run_reconnect_loop(
        || seq.connect(),
        || {
            errors.fetch_add(1, Ordering::SeqCst);
        },
        || true,
        || false,
    );
    assert!(result.is_ok());
    assert_eq!(seq.calls(), 3);
    assert_eq!(errors.load(Ordering::SeqCst), 1);
}

#[test]
fn multiple_ssh_errors_before_recovery() {
    let seq = ConnectSequence::new(vec![255, 255, 255, 255, 0]);
    let errors = AtomicUsize::new(0);
    let waits = AtomicUsize::new(0);
    let result = run_reconnect_loop(
        || seq.connect(),
        || {
            errors.fetch_add(1, Ordering::SeqCst);
        },
        || {
            waits.fetch_add(1, Ordering::SeqCst);
            true
        },
        || false,
    );
    assert!(result.is_ok());
    assert_eq!(seq.calls(), 5);
    assert_eq!(errors.load(Ordering::SeqCst), 2);
    assert_eq!(waits.load(Ordering::SeqCst), 2);
}

#[test]
fn signal_during_retry_after_ssh_error() {
    let seq = ConnectSequence::new(vec![255, 1]);
    let errors = AtomicUsize::new(0);
    let closing = AtomicBool::new(false);
    let call_count = &seq.call_count;
    let result = run_reconnect_loop(
        || {
            let status = seq.connect();
            if call_count.load(Ordering::SeqCst) == 2 {
                closing.store(true, Ordering::SeqCst);
            }
            status
        },
        || {
            errors.fetch_add(1, Ordering::SeqCst);
        },
        || panic!("signal should prevent prompt"),
        || closing.load(Ordering::SeqCst),
    );
    assert!(result.is_ok());
    assert_eq!(seq.calls(), 2);
    assert_eq!(errors.load(Ordering::SeqCst), 1);
}

#[test]
fn connect_error_propagates() {
    let result = run_reconnect_loop(
        || Err("ssh not found".to_string()),
        || panic!("should not call on_ssh_error"),
        || panic!("should not wait"),
        || false,
    );
    assert!(result.is_err());
    assert!(result.unwrap_err().contains("ssh not found"));
}

#[test]
fn remote_failure_then_user_reconnects_successfully() {
    let seq = ConnectSequence::new(vec![1, 0]);
    let errors = AtomicUsize::new(0);
    let result = run_reconnect_loop(
        || seq.connect(),
        || {
            errors.fetch_add(1, Ordering::SeqCst);
        },
        || true,
        || false,
    );
    assert!(result.is_ok());
    assert_eq!(seq.calls(), 2);
    assert_eq!(errors.load(Ordering::SeqCst), 0, "non-255 should never trigger on_ssh_error");
}

#[test]
fn healthy_master_from_other_session_not_killed() {
    let seq = ConnectSequence::new(vec![0]);
    let errors = AtomicUsize::new(0);
    let result = run_reconnect_loop(
        || seq.connect(),
        || {
            errors.fetch_add(1, Ordering::SeqCst);
        },
        || panic!("should not wait"),
        || false,
    );
    assert!(result.is_ok());
    assert_eq!(errors.load(Ordering::SeqCst), 0, "must not kill another session's master");
}

#[test]
fn stale_master_killed_then_fresh_connection() {
    let seq = ConnectSequence::new(vec![255, 0]);
    let master_alive = AtomicBool::new(true);
    let result = run_reconnect_loop(
        || {
            if master_alive.load(Ordering::SeqCst) {
                seq.connect()
            } else {
                let _ = seq.connect();
                Ok(Some(0))
            }
        },
        || {
            master_alive.store(false, Ordering::SeqCst);
        },
        || panic!("immediate retry should succeed"),
        || false,
    );
    assert!(result.is_ok());
    assert!(!master_alive.load(Ordering::SeqCst), "master should have been killed");
}

#[test]
fn killed_by_signal_prompts_without_handler() {
    let calls = Cell::new(0);
    let errors = Cell::new(0);
    let result = run_reconnect_loop(
        || {
            calls.set(calls.get() + 1);
            Ok(None)
        },
        || errors.set(errors.get() + 1),
        || false,
        || false,
    );
    assert!(result.is_ok());
    assert_eq!(calls.get(), 1);
    assert_eq!(errors.get(), 0);
}

#[test]
fn step_rules_on_values() {
    let (s, a) = start();
    assert_eq!(a, ReconnectAction::Connect { announce: false });
    let (s, a) = step(s, ReconnectEvent::Exited { code: Some(255), closing: false });
    assert_eq!(a, ReconnectAction::HandleSshError);
    let (s, a) = step(s, ReconnectEvent::SshErrorHandled);
    assert_eq!(a, ReconnectAction::Connect { announce: false });
    let (s, a) = step(s, ReconnectEvent::Exited { code: Some(255), closing: false });
    assert_eq!(a, ReconnectAction::Prompt);
    let (s, a) = step(s, ReconnectEvent::Answered { reconnect: true });
    assert_eq!(a, ReconnectAction::Connect { announce: true });
    let (_, a) = step(s, ReconnectEvent::ConnectFailed);
    assert_eq!(a, ReconnectAction::Fail);
    assert!(!accepts(s, ReconnectEvent::SshErrorHandled));
}

/// A simulated remote for the whole scenario: ssh fails (exit 255) for the first
/// `fail_count` sessions, while the master check always answers that it is alive.
struct SimulatedSsh {
    fail_count: usize,
    sessions: AtomicUsize,
    checks: Cell<usize>,
    removed: Cell<usize>,
}

impl SimulatedSsh {
    fn new(fail_count: usize) -> Self {
        Self { fail_count, sessions: AtomicUsize::new(0), checks: Cell::new(0), removed: Cell::new(0) }
    }

    fn run_interactive(&self) -> Result<Option<i32>, String> {
        let n = self.sessions.fetch_add(1, Ordering::SeqCst) + 1;
        Ok(Some(if n <= self.fail_count { 255 } else { 0 }))
    }

    /// What the app does for a failed connection: check the master, then remove the
    /// sockets that the library names, if any.
    fn clean_stale_master(&self, ctx: &SshContext, check_ok: bool) {
        let args = ctx.control_args("check", "fermat", &Vec::new());
        assert_eq!(&args[..2], &["-O".to_string(), "check".to_string()][..]);
        self.checks.set(self.checks.get() + 1);
        if ctx.clean_stale_master("fermat", check_ok).is_some() {
            self.removed.set(self.removed.get() + 1);
        }
    }
}

#[test]
fn full_scenario_stale_master_then_recovery() {
    let ctx = SshContext::with_control_dir("ssh", "/tmp/ctl");
    let ssh = SimulatedSsh::new(1);
    let error_fired = AtomicBool::new(false);
    let result = run_reconnect_loop(
        || ssh.run_interactive(),
        || {
            ssh.clean_stale_master(&ctx, true);
            error_fired.store(true, Ordering::SeqCst);
        },
        || panic!("immediate retry should succeed without prompting"),
        || false,
    );
    assert!(result.is_ok());
    assert!(error_fired.load(Ordering::SeqCst));
    assert_eq!(ssh.checks.get(), 1, "should check master health");
    assert_eq!(ssh.removed.get(), 0, "a live master keeps its socket");
}

#[test]
fn full_scenario_healthy_master_not_killed() {
    let ssh = SimulatedSsh::new(0);
    let master_killed = AtomicBool::new(false);
    let result = run_reconnect_loop(
        || ssh.run_interactive(),
        || master_killed.store(true, Ordering::SeqCst),
        || panic!("should not wait"),
        || false,
    );
    assert!(result.is_ok());
    assert!(!master_killed.load(Ordering::SeqCst), "must not kill a healthy master from another session");
}

#[test]
fn full_scenario_network_down_then_recovery() {
    let ctx = SshContext::with_control_dir("ssh", "/tmp/ctl");
    let ssh = SimulatedSsh::new(4);
    let error_count = AtomicUsize::new(0);
    let wait_count = AtomicUsize::new(0);
    let result = run_reconnect_loop(
        || ssh.run_interactive(),
        || {
            ssh.clean_stale_master(&ctx, false);
            error_count.fetch_add(1, Ordering::SeqCst);
        },
        || {
            wait_count.fetch_add(1, Ordering::SeqCst);
            true
        },
        || false,
    );
    assert!(result.is_ok());
    assert!(error_count.load(Ordering::SeqCst) >= 2, "should clean stale sockets on each 255 cycle");
    assert!(wait_count.load(Ordering::SeqCst) >= 1, "should prompt user when retry also fails");
    assert_eq!(ssh.removed.get(), error_count.load(Ordering::SeqCst), "a dead master's sockets go");
}
