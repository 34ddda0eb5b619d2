use vstd::prelude::*;

verus! {

/// Where a connection session stands between two outside steps.
#[derive(PartialEq, Eq, Structural, Clone, Copy, Debug)]
pub enum ReconnectState {
    /// Waiting for the outcome of a connection attempt.
    Connecting,
    /// Waiting for the handler of a failed SSH connection to finish.
    HandlingSshError,
    /// Waiting for the outcome of the immediate retry after an SSH failure.
    Retrying,
    /// Waiting for the user to press a key.
    Prompting,
    /// The session is over.
    Finished,
}

/// What happened in the outside step that the state was waiting for.
#[derive(PartialEq, Eq, Structural, Clone, Copy, Debug)]
pub enum ReconnectEvent {
    /// The connection ran and ended: its exit code (`None` when a signal ended it) and
    /// whether a closing signal has arrived.
    Exited { code: Option<i32>, closing: bool },
    /// The connection could not be run at all.
    ConnectFailed,
    /// The handler for a failed SSH connection has run.
    SshErrorHandled,
    /// The user answered the prompt: `true` to reconnect, `false` to quit.
    Answered { reconnect: bool },
}

/// The outside step to take next.
#[derive(PartialEq, Eq, Structural, Clone, Copy, Debug)]
pub enum ReconnectAction {
    /// Run the connection (after saying that it reconnects, when `announce`).
    Connect { announce: bool },
    /// Run the handler for a failed SSH connection (tear down the broken master).
    HandleSshError,
    /// Tell the user that the connection is lost and wait for a key.
    Prompt,
    /// Stop, successfully.
    Finish,
    /// Stop, passing on the failure to run the connection.
    Fail,
}

/// The exit code with which SSH itself reports a failure.
pub open spec fn ssh_failure_code() -> i32 {
    255
}

/// A connection ended well: exit code zero.
pub open spec fn exit_success(code: Option<i32>) -> bool {
    code == Some(0i32)
}

/// The event is one that the state waits for.
pub open spec fn event_fits(state: ReconnectState, event: ReconnectEvent) -> bool {
    match state {
        ReconnectState::Connecting | ReconnectState::Retrying => event is Exited || event is ConnectFailed,
        ReconnectState::HandlingSshError => event is SshErrorHandled,
        ReconnectState::Prompting => event is Answered,
        ReconnectState::Finished => false,
    }
}

/// The reconnection rules: a connection that ends well, or a closing signal, ends the
/// session; SSH's own failure (exit 255) on a first attempt runs the failure handler and
/// one immediate retry; any other failure (or a failed retry) prompts the user, who may
/// reconnect or quit; a connection that cannot be run at all ends the session with that
/// failure.
pub open spec fn next(state: ReconnectState, event: ReconnectEvent) -> (ReconnectState, ReconnectAction) {
    match (state, event) {
        (ReconnectState::Connecting, ReconnectEvent::Exited { code, closing }) => {
            if exit_success(code) || closing {
                (ReconnectState::Finished, ReconnectAction::Finish)
            } else if code == Some(ssh_failure_code()) {
                (ReconnectState::HandlingSshError, ReconnectAction::HandleSshError)
            } else {
                (ReconnectState::Prompting, ReconnectAction::Prompt)
            }
        },
        (ReconnectState::Retrying, ReconnectEvent::Exited { code, closing }) => {
            if exit_success(code) || closing {
                (ReconnectState::Finished, ReconnectAction::Finish)
            } else {
                (ReconnectState::Prompting, ReconnectAction::Prompt)
            }
        },
        (ReconnectState::HandlingSshError, ReconnectEvent::SshErrorHandled) => {
            (ReconnectState::Retrying, ReconnectAction::Connect { announce: false })
        },
        (ReconnectState::Prompting, ReconnectEvent::Answered { reconnect }) => {
            if reconnect {
                (ReconnectState::Connecting, ReconnectAction::Connect { announce: true })
            } else {
                (ReconnectState::Finished, ReconnectAction::Finish)
            }
        },
        _ => (ReconnectState::Finished, ReconnectAction::Fail),
    }
}

/// The first step of a session: connect.
pub fn start() -> (r: (ReconnectState, ReconnectAction))
    ensures
        r == (ReconnectState::Connecting, ReconnectAction::Connect { announce: false }),
{
    (ReconnectState::Connecting, ReconnectAction::Connect { announce: false })
}

/// Whether `state` waits for `event`.
pub fn accepts(state: ReconnectState, event: ReconnectEvent) -> (r: bool)
    ensures
        r == event_fits(state, event),
{
    match state {
        ReconnectState::Connecting | ReconnectState::Retrying => match event {
            ReconnectEvent::Exited { .. } | ReconnectEvent::ConnectFailed => true,
            _ => false,
        },
        ReconnectState::HandlingSshError => match event {
            ReconnectEvent::SshErrorHandled => true,
            _ => false,
        },
        ReconnectState::Prompting => match event {
            ReconnectEvent::Answered { .. } => true,
            _ => false,
        },
        ReconnectState::Finished => false,
    }
}

/// The next state and outside step, given the outcome of the step just taken.
pub fn step(state: ReconnectState, event: ReconnectEvent) -> (r: (ReconnectState, ReconnectAction))
    requires
        event_fits(state, event),
    ensures
        r == next(state, event),
{
    match state {
        ReconnectState::Connecting => match event {
            ReconnectEvent::Exited { code, closing } => {
                if code == Some(0i32) || closing {
                    (ReconnectState::Finished, ReconnectAction::Finish)
                } else if code == Some(255i32) {
                    (ReconnectState::HandlingSshError, ReconnectAction::HandleSshError)
                } else {
                    (ReconnectState::Prompting, ReconnectAction::Prompt)
                }
            },
            _ => (ReconnectState::Finished, ReconnectAction::Fail),
        },
        ReconnectState::Retrying => match event {
            ReconnectEvent::Exited { code, closing } => {
                if code == Some(0i32) || closing {
                    (ReconnectState::Finished, ReconnectAction::Finish)
                } else {
                    (ReconnectState::Prompting, ReconnectAction::Prompt)
                }
            },
            _ => (ReconnectState::Finished, ReconnectAction::Fail),
        },
        ReconnectState::HandlingSshError => (ReconnectState::Retrying, ReconnectAction::Connect { announce: false }),
        ReconnectState::Prompting => match event {
            ReconnectEvent::Answered { reconnect } => {
                if reconnect {
                    (ReconnectState::Connecting, ReconnectAction::Connect { announce: true })
                } else {
                    (ReconnectState::Finished, ReconnectAction::Finish)
                }
            },
            _ => (ReconnectState::Finished, ReconnectAction::Fail),
        },
        ReconnectState::Finished => (ReconnectState::Finished, ReconnectAction::Fail),
    }
}

/// The outside steps that a session asks for when the outcomes `events` come in, from
/// `state` on; it stops at the first outcome that the state does not wait for.
pub open spec fn run(state: ReconnectState, events: Seq<ReconnectEvent>) -> Seq<ReconnectAction>
    decreases events.len(),
{
    if events.len() == 0 || !event_fits(state, events[0]) {
        Seq::empty()
    } else {
        let (s2, a) = next(state, events[0]);
        seq![a] + run(s2, events.drop_first())
    }
}

/// Some step strictly between positions `i` and `j` is a prompt.
pub open spec fn prompt_between(acts: Seq<ReconnectAction>, i: int, j: int) -> bool {
    exists|k: int| i < k < j && #[trigger] acts[k] == ReconnectAction::Prompt
}

/// Between any two runs of the SSH failure handler, the user has been prompted.
pub open spec fn handler_runs_separated_by_prompt(acts: Seq<ReconnectAction>) -> bool {
    forall|i: int, j: int|
        #![trigger acts[i], acts[j]]
        0 <= i < j < acts.len() && acts[i] == ReconnectAction::HandleSshError && acts[j]
            == ReconnectAction::HandleSshError ==> prompt_between(acts, i, j)
}

/// Every run of the SSH failure handler comes after a prompt.
pub open spec fn handler_runs_after_prompt(acts: Seq<ReconnectAction>) -> bool {
    forall|j: int|
        0 <= j < acts.len() && #[trigger] acts[j] == ReconnectAction::HandleSshError ==> prompt_between(acts, -1, j)
}

/// The SSH failure handler runs only in answer to a first connection attempt that SSH
/// itself failed (exit 255) with no closing signal: never after a remote command's own
/// failure, which may leave another session's healthy master in place.
pub proof fn handler_only_after_ssh_failure(state: ReconnectState, event: ReconnectEvent)
    requires
        event_fits(state, event),
        next(state, event).1 == ReconnectAction::HandleSshError,
    ensures
        state == ReconnectState::Connecting,
        event == (ReconnectEvent::Exited { code: Some(ssh_failure_code()), closing: false }),
{
}

/// A connection that ends well, or a closing signal, ends the session at once: no
/// handler, no retry and no prompt follow.
pub proof fn success_or_closing_ends_session(state: ReconnectState, code: Option<i32>, closing: bool)
    requires
        state == ReconnectState::Connecting || state == ReconnectState::Retrying,
        exit_success(code) || closing,
    ensures
        next(state, ReconnectEvent::Exited { code, closing }) == (
        ReconnectState::Finished,
        ReconnectAction::Finish,
        ),
{
}

/// After the SSH failure handler, the connection is retried once at once, and whatever
/// that retry's failure, the next step is a prompt, never the handler again.
pub proof fn handler_is_followed_by_one_retry(event: ReconnectEvent, retry: ReconnectEvent)
    requires
        event_fits(ReconnectState::HandlingSshError, event),
        event_fits(ReconnectState::Retrying, retry),
    ensures
        next(ReconnectState::HandlingSshError, event) == (
        ReconnectState::Retrying,
        ReconnectAction::Connect { announce: false },
        ),
        next(ReconnectState::Retrying, retry).1 != ReconnectAction::HandleSshError,
{
}

/// A connection that cannot be run ends the session with that failure.
pub proof fn connect_failure_is_passed_on(state: ReconnectState)
    requires
        state == ReconnectState::Connecting || state == ReconnectState::Retrying,
    ensures
        next(state, ReconnectEvent::ConnectFailed) == (ReconnectState::Finished, ReconnectAction::Fail),
{
}

/// A finished session takes no further outcome.
pub proof fn finished_is_final(events: Seq<ReconnectEvent>)
    ensures
        run(ReconnectState::Finished, events).len() == 0,
{
}

proof fn lemma_prompt_shift(a: ReconnectAction, rest: Seq<ReconnectAction>, i: int, j: int)
    requires
        -1 <= i,
        j <= rest.len(),
        prompt_between(rest, i, j),
    ensures
        prompt_between(seq![a] + rest, i + 1, j + 1),
{
    let acts = seq![a] + rest;
    let k = choose|k: int| i < k < j && #[trigger] rest[k] == ReconnectAction::Prompt;
    assert(acts[k + 1] == rest[k]);
}

proof fn lemma_prepend_separated(a: ReconnectAction, rest: Seq<ReconnectAction>)
    requires
        handler_runs_separated_by_prompt(rest),
        a == ReconnectAction::HandleSshError ==> handler_runs_after_prompt(rest),
    ensures
        handler_runs_separated_by_prompt(seq![a] + rest),
{
    let acts = seq![a] + rest;
    assert forall|i: int, j: int|
        #![trigger acts[i], acts[j]]
        0 <= i < j < acts.len() && acts[i] == ReconnectAction::HandleSshError && acts[j]
            == ReconnectAction::HandleSshError implies prompt_between(acts, i, j) by {
        assert(acts[j] == rest[j - 1]);
        if i == 0 {
            assert(rest[j - 1] == ReconnectAction::HandleSshError);
            lemma_prompt_shift(a, rest, -1, j - 1);
        } else {
            assert(acts[i] == rest[i - 1]);
            assert(rest[i - 1] == ReconnectAction::HandleSshError);
            lemma_prompt_shift(a, rest, i - 1, j - 1);
        }
    }
}

proof fn lemma_prepend_after_prompt(a: ReconnectAction, rest: Seq<ReconnectAction>)
    requires
        a != ReconnectAction::HandleSshError,
        a == ReconnectAction::Prompt || handler_runs_after_prompt(rest),
    ensures
        handler_runs_after_prompt(seq![a] + rest),
{
    let acts = seq![a] + rest;
    assert forall|j: int|
        0 <= j < acts.len() && #[trigger] acts[j] == ReconnectAction::HandleSshError implies prompt_between(acts, -1, j) by {
        assert(j > 0);
        assert(acts[j] == rest[j - 1]);
        if a == ReconnectAction::Prompt {
            assert(acts[0] == ReconnectAction::Prompt);
        } else {
            assert(rest[j - 1] == ReconnectAction::HandleSshError);
            lemma_prompt_shift(a, rest, -1, j - 1);
        }
    }
}

proof fn lemma_run_separated(state: ReconnectState, events: Seq<ReconnectEvent>)
    ensures
        handler_runs_separated_by_prompt(run(state, events)),
        (state == ReconnectState::HandlingSshError || state == ReconnectState::Retrying)
            ==> handler_runs_after_prompt(run(state, events)),
    decreases events.len(),
{
    if events.len() == 0 || !event_fits(state, events[0]) {
    } else {
        let (s2, a) = next(state, events[0]);
        let rest = run(s2, events.drop_first());
        lemma_run_separated(s2, events.drop_first());
        assert(run(state, events) == seq![a] + rest);
        if s2 == ReconnectState::Finished {
            assert(rest.len() == 0);
        }
        lemma_prepend_separated(a, rest);
        if state == ReconnectState::HandlingSshError || state == ReconnectState::Retrying {
            lemma_prepend_after_prompt(a, rest);
        }
    }
}

/// Whatever the outcomes, a session never runs the SSH failure handler twice without
/// prompting the user in between: a broken connection is torn down and retried once,
/// and then the user decides.
pub proof fn handler_runs_are_separated_by_prompts(events: Seq<ReconnectEvent>)
    ensures
        handler_runs_separated_by_prompt(run(ReconnectState::Connecting, events)),
{
    lemma_run_separated(ReconnectState::Connecting, events);
}

/// A retry that fails prompts the user: after the immediate retry, any exit that is not a
/// success (exit code zero) and comes with no closing signal leads to the prompt,
/// whatever its code.
pub proof fn failed_retry_prompts(code: Option<i32>, closing: bool)
    requires
        code != Some(0i32),
        !closing,
    ensures
        next(ReconnectState::Retrying, ReconnectEvent::Exited { code, closing }) == (
        ReconnectState::Prompting,
        ReconnectAction::Prompt,
        ),
{
}

/// A first attempt that fails otherwise than by SSH itself (any code but 0 and 255, or a
/// signal) prompts at once, without touching the master.
pub proof fn remote_failure_prompts(code: Option<i32>, closing: bool)
    requires
        code != Some(0i32),
        code != Some(255i32),
        !closing,
    ensures
        next(ReconnectState::Connecting, ReconnectEvent::Exited { code, closing }) == (
        ReconnectState::Prompting,
        ReconnectAction::Prompt,
        ),
{
}

/// A first attempt that SSH itself failed (exit 255), with no closing signal, runs the
/// handler that tears down the master.
pub proof fn ssh_failure_runs_handler()
    ensures
        next(ReconnectState::Connecting, ReconnectEvent::Exited { code: Some(255i32), closing: false }) == (
        ReconnectState::HandlingSshError,
        ReconnectAction::HandleSshError,
        ),
{
}

/// At the prompt, a key press reconnects (saying so) and end of input quits.
pub proof fn prompt_answer_decides(reconnect: bool)
    ensures
        next(ReconnectState::Prompting, ReconnectEvent::Answered { reconnect }) == (if reconnect {
            (ReconnectState::Connecting, ReconnectAction::Connect { announce: true })
        } else {
            (ReconnectState::Finished, ReconnectAction::Finish)
        }),
{
}

} // verus!
