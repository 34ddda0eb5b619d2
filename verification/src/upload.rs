use vstd::prelude::*;
use vstd::string::StringExecFns;

use crate::config::HostConfig;
use crate::copy::{join_path, path_join};
use crate::text::{
    after_first_word, concat, first_word, join, joined, lowercase, replace_all, replaced,
    split_first_word, to_lowercase, trim, trimmed,
};

verus! {

/// Where sshr's own shpool lives on the remote.
pub const REMOTE_SHPOOL_PATH: &'static str = "$HOME/.local/share/sshr/bin/shpool";

/// The socket that sshr's shpool listens on.
pub const REMOTE_SOCKET_PATH: &'static str = "$HOME/.local/run/sshr/shpool.socket";

/// The launcher script that starts the login shell with CWD reporting.
pub const REMOTE_LAUNCH: &'static str = "$HOME/.local/share/sshr/init/launch.sh";

pub const REMOTE_SHPOOL_DIR: &'static str = "~/.local/share/sshr/bin";

pub const REMOTE_SOCKET_DIR: &'static str = "~/.local/run/sshr";

pub const REMOTE_INIT_DIR: &'static str = "$HOME/.local/share/sshr/init";

/// The remote command that tells whether sshr's shpool is installed.
pub fn has_shpool_command() -> (r: String)
    ensures
        r@ == "test -x "@ + REMOTE_SHPOOL_DIR@ + "/shpool && echo yes || echo no"@,
{
    concat(concat("test -x ", REMOTE_SHPOOL_DIR).as_str(), "/shpool && echo yes || echo no")
}

/// Reads the output of the installation check: installed when it says "yes".
pub fn has_sshr_shpool(output: &str) -> (r: bool)
    ensures
        r == (trimmed(output@) == "yes"@),
{
    let t = trim(output);
    let yes = "yes".to_owned();
    t == yes
}

/// A remote command that makes the directory `dir` and its parents.
pub fn mkdir_command(dir: &str) -> (r: String)
    ensures
        r@ == "mkdir -p "@ + dir@,
{
    concat("mkdir -p ", dir)
}

/// Where the uploaded shpool goes on the remote.
pub fn remote_shpool_target() -> (r: String)
    ensures
        r@ == REMOTE_SHPOOL_DIR@ + "/shpool"@,
{
    concat(REMOTE_SHPOOL_DIR, "/shpool")
}

/// The remote command that makes the uploaded shpool executable.
pub fn chmod_shpool_command() -> (r: String)
    ensures
        r@ == "chmod +x "@ + REMOTE_SHPOOL_DIR@ + "/shpool"@,
{
    concat(concat("chmod +x ", REMOTE_SHPOOL_DIR).as_str(), "/shpool")
}

/// The remote's operating system and architecture, as the shpool binaries name them.
pub struct RemotePlatform {
    pub os: String,
    pub arch: String,
}

/// The architecture name that the binaries use for what `uname` reports.
pub open spec fn arch_name(arch: Seq<char>) -> Seq<char> {
    if arch == "amd64"@ {
        "x86_64"@
    } else if arch == "arm64"@ {
        "aarch64"@
    } else {
        arch
    }
}

/// The word, or "unknown" when there is none.
pub open spec fn or_unknown(w: Seq<char>) -> Seq<char> {
    if w.len() == 0 {
        "unknown"@
    } else {
        w
    }
}

impl RemotePlatform {
    /// The name of the shpool binary built for this platform.
    pub fn binary_name(&self) -> (r: String)
        ensures
            r@ == "shpool-"@ + self.os@ + "-"@ + self.arch@,
    {
        let mut r = concat("shpool-", self.os.as_str());
        r.append("-");
        r.append(self.arch.as_str());
        r
    }
}

/// Reads `uname -sm` output: the first word, in lower case, is the system; the second
/// is the architecture, with `amd64` and `arm64` renamed; a missing word reads
/// "unknown".
pub fn detect_remote_platform(output: &str) -> (r: RemotePlatform)
    ensures
        r.os@ == lowercase(or_unknown(first_word(output@))),
        r.arch@ == arch_name(or_unknown(first_word(after_first_word(output@)))),
{
    let (first, rest) = split_first_word(output);
    let (second, _) = split_first_word(rest.as_str());
    let os_word = if first.as_str().is_empty() {
        "unknown".to_owned()
    } else {
        first
    };
    let os = to_lowercase(os_word.as_str());
    let arch_word = if second.as_str().is_empty() {
        "unknown".to_owned()
    } else {
        second
    };
    let amd = "amd64".to_owned();
    let arm = "arm64".to_owned();
    let arch = if arch_word == amd {
        "x86_64".to_owned()
    } else if arch_word == arm {
        "aarch64".to_owned()
    } else {
        arch_word
    };
    RemotePlatform { os, arch }
}

/// A value as a double-quoted shell word: backslashes and double quotes escaped.
pub open spec fn double_quote_escaped(v: Seq<char>) -> Seq<char> {
    replaced(replaced(v, seq!['\\'], seq!['\\', '\\']), seq!['"'], seq!['\\', '"'])
}

/// The line that exports one variable.
pub open spec fn export_line(name: Seq<char>, value: Seq<char>) -> Seq<char> {
    "export "@ + name + "=\""@ + double_quote_escaped(value) + "\""@
}

pub open spec fn export_lines(env: Seq<(Seq<char>, Seq<char>)>) -> Seq<Seq<char>> {
    Seq::new(env.len(), |i: int| export_line(env[i].0, env[i].1))
}

/// The shell lines that export the environment, one per variable, in order.
pub fn build_env_exports(env: &Vec<crate::config::EnvDirective>) -> (r: String)
    ensures
        r@ == joined(export_lines(env.deep_view()), "\n"@),
{
    let mut lines: Vec<String> = Vec::new();
    for i in 0..env.len()
        invariant
            lines.deep_view() == export_lines(env.deep_view()).take(i as int),
    {
        let crate::config::EnvDirective::Assign(name, value) = &env[i];
        proof {
            reveal_strlit("\\");
            reveal_strlit("\\\\");
            reveal_strlit("\"");
            reveal_strlit("\\\"");
        }
        let e1 = replace_all(value.as_str(), "\\", "\\\\");
        let escaped = replace_all(e1.as_str(), "\"", "\\\"");
        assert("\\"@ =~= seq!['\\']);
        assert("\\\\"@ =~= seq!['\\', '\\']);
        assert("\""@ =~= seq!['"']);
        assert("\\\""@ =~= seq!['\\', '"']);
        let mut line = concat("export ", name.as_str());
        line.append("=\"");
        line.append(escaped.as_str());
        line.append("\"");
        let ghost before = lines.deep_view();
        lines.push(line);
        assert(lines.deep_view() =~= before.push(export_line(name@, value@)));
        assert(export_lines(env.deep_view()).take(i + 1) =~= export_lines(env.deep_view()).take(i as int).push(
            export_line(name@, value@),
        ));
    }
    assert(export_lines(env.deep_view()).take(env.len() as int) =~= export_lines(env.deep_view()));
    join(&lines, "\n")
}

/// The part of the remote setup script before the environment exports.
pub const INIT_SCRIPT_HEAD: &'static str = r#"mkdir -p $HOME/.local/share/sshr/init/zsh $HOME/.local/share/sshr/init/fish/vendor_conf.d
cat > $HOME/.local/share/sshr/init/launch.sh << 'SSHR_EOF'
#!/bin/sh
export SSH_CONNECTION="${SSH_CONNECTION:-sshr}"
"#;

/// The part of the remote setup script after the environment exports.
pub const INIT_SCRIPT_TAIL: &'static str = r#"login_shell="${1:-$SHELL}"
if [ "${login_shell#/}" = "$login_shell" ]; then
    login_shell=$(command -v "$login_shell" 2>/dev/null || echo "$login_shell")
fi
shell_name=$(basename "$login_shell")
init_dir="$HOME/.local/share/sshr/init"

case "$shell_name" in
    bash) exec env ENV="$init_dir/bash_init.sh" "$login_shell" --posix ;;
    zsh)  exec env ZDOTDIR="$init_dir/zsh" "$login_shell" ;;
    fish) exec env XDG_DATA_DIRS="$init_dir:${XDG_DATA_DIRS:-/usr/local/share:/usr/share}" "$login_shell" ;;
    *)    exec "$login_shell" ;;
esac
SSHR_EOF
chmod +x $HOME/.local/share/sshr/init/launch.sh
cat > $HOME/.local/share/sshr/init/bash_init.sh << 'SSHR_EOF'
set +o posix
unset ENV
[ -f ~/.bashrc ] && . ~/.bashrc
__sshr_osc7() { printf '\033]7;file://%s%s\a' "$(hostname)" "$PWD"; }
PROMPT_COMMAND="${PROMPT_COMMAND:+$PROMPT_COMMAND; }__sshr_osc7"
SSHR_EOF
cat > $HOME/.local/share/sshr/init/zsh/.zshenv << 'SSHR_EOF'
ZDOTDIR="$HOME"
[ -f "$ZDOTDIR/.zshenv" ] && . "$ZDOTDIR/.zshenv"
__sshr_osc7() { printf '\033]7;file://%s%s\a' "$(hostname)" "$PWD" }
precmd_functions+=(__sshr_osc7)
SSHR_EOF
cat > $HOME/.local/share/sshr/init/fish/vendor_conf.d/sshr.fish << 'SSHR_EOF'
function __sshr_osc7 --on-event fish_prompt
    printf '\e]7;file://%s%s\a' (hostname) $PWD
end
SSHR_EOF
"#;

/// The remote script that writes the launcher (with the exports of `env`) and the
/// per-shell init files that report the working directory.
pub open spec fn init_script(env: Seq<(Seq<char>, Seq<char>)>) -> Seq<char> {
    let block = joined(export_lines(env), "\n"@);
    INIT_SCRIPT_HEAD@ + (if block.len() == 0 {
        Seq::empty()
    } else {
        block + "\n"@
    }) + INIT_SCRIPT_TAIL@
}

/// The setup script for the host's configuration (`ensure_init_files` runs it).
pub fn init_files_script(host_cfg: &HostConfig) -> (r: String)
    ensures
        r@ == init_script(host_cfg@.env),
{
    let block = build_env_exports(&host_cfg.env);
    let mut r = INIT_SCRIPT_HEAD.to_owned();
    if !block.as_str().is_empty() {
        r.append(block.as_str());
        r.append("\n");
    } else {
        assert(r@ =~= INIT_SCRIPT_HEAD@ + Seq::<char>::empty());
    }
    r.append(INIT_SCRIPT_TAIL);
    r
}

/// The directories where the local shpool binaries may be, in the order they are tried:
/// the directory that `SSHR_SHPOOL_DIR` names (when set), then, for each directory from
/// the executable's upward, its `shpool/bin` and its `share/sshr/shpool/bin`.
pub open spec fn shpool_dir_candidates(env_dir: Option<Seq<char>>, ancestors: Seq<Seq<char>>) -> Seq<Seq<char>> {
    (match env_dir {
        Some(d) => seq![d],
        None => Seq::empty(),
    }) + Seq::new(
        2 * ancestors.len(),
        |i: int|
            if i % 2 == 0 {
                path_join(ancestors[i / 2], "shpool/bin"@)
            } else {
                path_join(ancestors[i / 2], "share/sshr/shpool/bin"@)
            },
    )
}

/// The candidate directories for the shpool binaries; the first that is a directory is
/// the one used.
pub fn shpool_dirs(env_dir: &Option<String>, ancestors: &Vec<String>) -> (r: Vec<String>)
    ensures
        r.deep_view() == shpool_dir_candidates(env_dir.deep_view(), ancestors.deep_view()),
{
    let mut out: Vec<String> = Vec::new();
    match env_dir {
        Some(d) => out.push(d.clone()),
        None => {},
    }
    let ghost head = out.deep_view();
    assert(head =~= match env_dir.deep_view() {
        Some(d) => seq![d],
        None => Seq::<Seq<char>>::empty(),
    });
    let ghost anc = ancestors.deep_view();
    let ghost tail = Seq::new(
        2 * anc.len(),
        |i: int|
            if i % 2 == 0 {
                path_join(anc[i / 2], "shpool/bin"@)
            } else {
                path_join(anc[i / 2], "share/sshr/shpool/bin"@)
            },
    );
    for k in 0..ancestors.len()
        invariant
            anc == ancestors.deep_view(),
            out.deep_view() == head + tail.take(2 * k),
            tail.len() == 2 * anc.len(),
            tail == Seq::new(
                2 * anc.len(),
                |i: int|
                    if i % 2 == 0 {
                        path_join(anc[i / 2], "shpool/bin"@)
                    } else {
                        path_join(anc[i / 2], "share/sshr/shpool/bin"@)
                    },
            ),
    {
        let d = ancestors[k].as_str();
        assert(anc[k as int] == d@);
        let a = join_path(d, "shpool/bin");
        let b = join_path(d, "share/sshr/shpool/bin");
        assert(tail[2 * k] == a@) by {
            assert((2 * k) % 2 == 0);
            assert((2 * k) / 2 == k);
        }
        assert(tail[2 * k + 1] == b@) by {
            assert((2 * k + 1) % 2 == 1);
            assert((2 * k + 1) / 2 == k);
        }
        let ghost before = out.deep_view();
        out.push(a);
        out.push(b);
        assert(out.deep_view() =~= before.push(a@).push(b@));
        assert(tail.take(2 * k + 2) =~= tail.take(2 * k).push(a@).push(b@));
    }
    assert(tail.take(2 * anc.len() as int) =~= tail);
    out
}

/// Where making sure of shpool on a remote stands between two outside steps.
#[derive(Debug)]
pub enum EnsureState {
    /// Waiting for the output of the installation check.
    Checking,
    /// Waiting for the remote's `uname -sm`.
    Detecting,
    /// Waiting for the local shpool binary to be looked up.
    Locating,
    /// Waiting for the remote binary directory to be made; `local` is to be uploaded.
    MakingBinDir { local: String },
    /// Waiting for the upload of shpool.
    Uploading,
    /// Waiting for the uploaded shpool to be made executable.
    MarkingExecutable,
    /// Waiting for the socket directory to be made.
    PreparingSocket,
    /// Waiting for the init files to be written.
    WritingInit,
    /// Done.
    Finished,
}

pub enum EnsureStateView {
    Checking,
    Detecting,
    Locating,
    MakingBinDir { local: Seq<char> },
    Uploading,
    MarkingExecutable,
    PreparingSocket,
    WritingInit,
    Finished,
}

impl DeepView for EnsureState {
    type V = EnsureStateView;

    open spec fn deep_view(&self) -> EnsureStateView {
        match self {
            EnsureState::Checking => EnsureStateView::Checking,
            EnsureState::Detecting => EnsureStateView::Detecting,
            EnsureState::Locating => EnsureStateView::Locating,
            EnsureState::MakingBinDir { local } => EnsureStateView::MakingBinDir { local: local@ },
            EnsureState::Uploading => EnsureStateView::Uploading,
            EnsureState::MarkingExecutable => EnsureStateView::MarkingExecutable,
            EnsureState::PreparingSocket => EnsureStateView::PreparingSocket,
            EnsureState::WritingInit => EnsureStateView::WritingInit,
            EnsureState::Finished => EnsureStateView::Finished,
        }
    }
}

/// The outside step to take next.
#[derive(Debug)]
pub enum EnsureAction {
    /// Run this remote command and hand back its output.
    Run(String),
    /// Look up the local shpool binary of this name, and hand back its path if there is
    /// one.
    Locate(String),
    /// Upload the local file to the remote target.
    Upload { local: String, target: String },
    /// Stop: shpool and the init files are in place.
    Finish,
    /// Stop: shpool could not be installed.
    Fail,
}

pub enum EnsureActionView {
    Run(Seq<char>),
    Locate(Seq<char>),
    Upload { local: Seq<char>, target: Seq<char> },
    Finish,
    Fail,
}

impl DeepView for EnsureAction {
    type V = EnsureActionView;

    open spec fn deep_view(&self) -> EnsureActionView {
        match self {
            EnsureAction::Run(c) => EnsureActionView::Run(c@),
            EnsureAction::Locate(n) => EnsureActionView::Locate(n@),
            EnsureAction::Upload { local, target } => EnsureActionView::Upload { local: local@, target: target@ },
            EnsureAction::Finish => EnsureActionView::Finish,
            EnsureAction::Fail => EnsureActionView::Fail,
        }
    }
}

/// What the outside step returned.
pub enum EnsureEvent {
    /// The output of the remote command that ran.
    Output(String),
    /// The local binary that was found, if any.
    Located(Option<String>),
    /// The upload went through.
    Uploaded,
}

pub enum EnsureEventView {
    Output(Seq<char>),
    Located(Option<Seq<char>>),
    Uploaded,
}

impl DeepView for EnsureEvent {
    type V = EnsureEventView;

    open spec fn deep_view(&self) -> EnsureEventView {
        match self {
            EnsureEvent::Output(o) => EnsureEventView::Output(o@),
            EnsureEvent::Located(p) => EnsureEventView::Located(p.deep_view()),
            EnsureEvent::Uploaded => EnsureEventView::Uploaded,
        }
    }
}

/// The remote command that checks for sshr's shpool.
pub open spec fn check_command() -> Seq<char> {
    "test -x "@ + REMOTE_SHPOOL_DIR@ + "/shpool && echo yes || echo no"@
}

/// The remote command that reports the remote's system and architecture.
pub open spec fn uname_command() -> Seq<char> {
    "uname -sm"@
}

/// The name of the shpool binary for the platform that `uname -sm` reported.
pub open spec fn platform_binary(uname: Seq<char>) -> Seq<char> {
    "shpool-"@ + lowercase(or_unknown(first_word(uname))) + "-"@ + arch_name(
        or_unknown(first_word(after_first_word(uname))),
    )
}

pub open spec fn bin_dir_command() -> Seq<char> {
    "mkdir -p "@ + REMOTE_SHPOOL_DIR@
}

pub open spec fn shpool_target() -> Seq<char> {
    REMOTE_SHPOOL_DIR@ + "/shpool"@
}

pub open spec fn chmod_command() -> Seq<char> {
    "chmod +x "@ + REMOTE_SHPOOL_DIR@ + "/shpool"@
}

pub open spec fn socket_dir_command() -> Seq<char> {
    "mkdir -p "@ + REMOTE_SOCKET_DIR@
}

/// The first step: check for shpool, or, when an upload is forced, find out what the
/// remote runs.
pub open spec fn ensure_first(force: bool) -> (EnsureStateView, EnsureActionView) {
    if force {
        (EnsureStateView::Detecting, EnsureActionView::Run(uname_command()))
    } else {
        (EnsureStateView::Checking, EnsureActionView::Run(check_command()))
    }
}

/// The rules: when shpool is missing (or an upload is forced), find the binary built for
/// the remote's platform, fail when there is none, else make the remote directory,
/// upload it and make it executable; then make the socket directory and write the init
/// files for `env`.
pub open spec fn ensure_next(state: EnsureStateView, event: EnsureEventView, env: Seq<(Seq<char>, Seq<char>)>) -> (EnsureStateView, EnsureActionView) {
    match (state, event) {
        (EnsureStateView::Checking, EnsureEventView::Output(o)) => {
            if trimmed(o) == "yes"@ {
                (EnsureStateView::PreparingSocket, EnsureActionView::Run(socket_dir_command()))
            } else {
                (EnsureStateView::Detecting, EnsureActionView::Run(uname_command()))
            }
        },
        (EnsureStateView::Detecting, EnsureEventView::Output(o)) => {
            (EnsureStateView::Locating, EnsureActionView::Locate(platform_binary(o)))
        },
        (EnsureStateView::Locating, EnsureEventView::Located(found)) => match found {
            Some(local) => (EnsureStateView::MakingBinDir { local }, EnsureActionView::Run(bin_dir_command())),
            None => (EnsureStateView::Finished, EnsureActionView::Fail),
        },
        (EnsureStateView::MakingBinDir { local }, EnsureEventView::Output(_)) => {
            (EnsureStateView::Uploading, EnsureActionView::Upload { local, target: shpool_target() })
        },
        (EnsureStateView::Uploading, EnsureEventView::Uploaded) => {
            (EnsureStateView::MarkingExecutable, EnsureActionView::Run(chmod_command()))
        },
        (EnsureStateView::MarkingExecutable, EnsureEventView::Output(_)) => {
            (EnsureStateView::PreparingSocket, EnsureActionView::Run(socket_dir_command()))
        },
        (EnsureStateView::PreparingSocket, EnsureEventView::Output(_)) => {
            (EnsureStateView::WritingInit, EnsureActionView::Run(init_script(env)))
        },
        (EnsureStateView::WritingInit, EnsureEventView::Output(_)) => (EnsureStateView::Finished, EnsureActionView::Finish),
        _ => (EnsureStateView::Finished, EnsureActionView::Fail),
    }
}

/// The outcome is one that the state waits for.
pub open spec fn ensure_event_fits(state: EnsureStateView, event: EnsureEventView) -> bool {
    match state {
        EnsureStateView::Locating => event is Located,
        EnsureStateView::Uploading => event is Uploaded,
        EnsureStateView::Finished => false,
        _ => event is Output,
    }
}

/// Whether `state` waits for `event`.
pub fn ensure_accepts(state: &EnsureState, event: &EnsureEvent) -> (r: bool)
    ensures
        r == ensure_event_fits(state.deep_view(), event.deep_view()),
{
    match state {
        EnsureState::Locating => match event {
            EnsureEvent::Located(_) => true,
            _ => false,
        },
        EnsureState::Uploading => match event {
            EnsureEvent::Uploaded => true,
            _ => false,
        },
        EnsureState::Finished => false,
        _ => match event {
            EnsureEvent::Output(_) => true,
            _ => false,
        },
    }
}

/// Starts making sure that sshr's shpool is on the remote.
pub fn ensure_shpool(force: bool) -> (r: (EnsureState, EnsureAction))
    ensures
        (r.0.deep_view(), r.1.deep_view()) == ensure_first(force),
{
    if force {
        (EnsureState::Detecting, EnsureAction::Run("uname -sm".to_owned()))
    } else {
        (EnsureState::Checking, EnsureAction::Run(has_shpool_command()))
    }
}

/// The next step of making sure of shpool, given what the last one returned.
pub fn ensure_shpool_step(state: EnsureState, event: EnsureEvent, host_cfg: &HostConfig) -> (r: (EnsureState, EnsureAction))
    requires
        ensure_event_fits(state.deep_view(), event.deep_view()),
    ensures
        (r.0.deep_view(), r.1.deep_view()) == ensure_next(state.deep_view(), event.deep_view(), host_cfg@.env),
{
    match (state, event) {
        (EnsureState::Checking, EnsureEvent::Output(o)) => {
            if has_sshr_shpool(o.as_str()) {
                (EnsureState::PreparingSocket, EnsureAction::Run(mkdir_command(REMOTE_SOCKET_DIR)))
            } else {
                (EnsureState::Detecting, EnsureAction::Run("uname -sm".to_owned()))
            }
        },
        (EnsureState::Detecting, EnsureEvent::Output(o)) => {
            let platform = detect_remote_platform(o.as_str());
            (EnsureState::Locating, EnsureAction::Locate(platform.binary_name()))
        },
        (EnsureState::Locating, EnsureEvent::Located(found)) => match found {
            Some(local) => (EnsureState::MakingBinDir { local }, EnsureAction::Run(mkdir_command(REMOTE_SHPOOL_DIR))),
            None => (EnsureState::Finished, EnsureAction::Fail),
        },
        (EnsureState::MakingBinDir { local }, EnsureEvent::Output(_)) => {
            (EnsureState::Uploading, EnsureAction::Upload { local, target: remote_shpool_target() })
        },
        (EnsureState::Uploading, EnsureEvent::Uploaded) => {
            (EnsureState::MarkingExecutable, EnsureAction::Run(chmod_shpool_command()))
        },
        (EnsureState::MarkingExecutable, EnsureEvent::Output(_)) => {
            (EnsureState::PreparingSocket, EnsureAction::Run(mkdir_command(REMOTE_SOCKET_DIR)))
        },
        (EnsureState::PreparingSocket, EnsureEvent::Output(_)) => {
            (EnsureState::WritingInit, EnsureAction::Run(init_files_script(host_cfg)))
        },
        (EnsureState::WritingInit, EnsureEvent::Output(_)) => (EnsureState::Finished, EnsureAction::Finish),
        _ => (EnsureState::Finished, EnsureAction::Fail),
    }
}

/// The outside steps that making sure of shpool asks for as the outcomes `events` come
/// in, from `state` on; it stops at the first outcome that the state does not wait for.
pub open spec fn ensure_run(state: EnsureStateView, events: Seq<EnsureEventView>, env: Seq<(Seq<char>, Seq<char>)>) -> Seq<EnsureActionView>
    decreases events.len(),
{
    if events.len() == 0 || !ensure_event_fits(state, events[0]) {
        Seq::empty()
    } else {
        let (s2, a) = ensure_next(state, events[0], env);
        seq![a] + ensure_run(s2, events.drop_first(), env)
    }
}

/// The step looks up or uploads a shpool binary.
pub open spec fn installs(a: EnsureActionView) -> bool {
    a is Locate || a is Upload
}

/// The steps of a whole run: the first step, then those that the outcomes bring.
pub open spec fn ensure_steps(force: bool, events: Seq<EnsureEventView>, env: Seq<(Seq<char>, Seq<char>)>) -> Seq<EnsureActionView> {
    seq![ensure_first(force).1] + ensure_run(ensure_first(force).0, events, env)
}

proof fn lemma_no_install_after_setup(state: EnsureStateView, events: Seq<EnsureEventView>, env: Seq<(Seq<char>, Seq<char>)>)
    requires
        state is PreparingSocket || state is WritingInit || state is Finished,
    ensures
        forall|k: int| 0 <= k < ensure_run(state, events, env).len() ==> !installs(#[trigger] ensure_run(state, events, env)[k]),
    decreases events.len(),
{
    if events.len() > 0 && ensure_event_fits(state, events[0]) {
        let (s2, a) = ensure_next(state, events[0], env);
        lemma_no_install_after_setup(s2, events.drop_first(), env);
        let rest = ensure_run(s2, events.drop_first(), env);
        assert forall|k: int| 0 <= k < (seq![a] + rest).len() implies !installs(#[trigger] (seq![a] + rest)[k]) by {
            if k > 0 {
                assert((seq![a] + rest)[k] == rest[k - 1]);
            }
        }
    }
}

/// A remote that already has sshr's shpool keeps it: once the check answers "yes", no
/// step of the run looks up or uploads a binary.
pub proof fn present_shpool_is_kept(output: Seq<char>, events: Seq<EnsureEventView>, env: Seq<(Seq<char>, Seq<char>)>)
    requires
        trimmed(output) == "yes"@,
    ensures
        forall|k: int|
            0 <= k < ensure_steps(false, seq![EnsureEventView::Output(output)] + events, env).len() ==> !installs(
                #[trigger] ensure_steps(false, seq![EnsureEventView::Output(output)] + events, env)[k],
            ),
{
    let all = seq![EnsureEventView::Output(output)] + events;
    assert(all.drop_first() =~= events);
    let rest = ensure_run(EnsureStateView::PreparingSocket, events, env);
    lemma_no_install_after_setup(EnsureStateView::PreparingSocket, events, env);
    let steps = ensure_steps(false, all, env);
    assert(steps == seq![EnsureActionView::Run(check_command())] + (seq![EnsureActionView::Run(socket_dir_command())] + rest));
    assert forall|k: int| 0 <= k < steps.len() implies !installs(#[trigger] steps[k]) by {
        if k > 1 {
            assert(steps[k] == rest[k - 2]);
        }
    }
}

/// A remote without sshr's shpool gets the binary built for its platform: after a check
/// that does not answer "yes", the remote's `uname -sm` is asked for, the binary named
/// after what it reports is looked up, and once it is found and the remote directory
/// made, that binary is uploaded to the shpool path and then made executable.
pub proof fn missing_shpool_is_uploaded(
    check: Seq<char>,
    uname: Seq<char>,
    local: Seq<char>,
    mkdir_output: Seq<char>,
    env: Seq<(Seq<char>, Seq<char>)>,
)
    requires
        trimmed(check) != "yes"@,
    ensures
        ({
            let (s1, a1) = ensure_next(EnsureStateView::Checking, EnsureEventView::Output(check), env);
            let (s2, a2) = ensure_next(s1, EnsureEventView::Output(uname), env);
            let (s3, a3) = ensure_next(s2, EnsureEventView::Located(Some(local)), env);
            let (s4, a4) = ensure_next(s3, EnsureEventView::Output(mkdir_output), env);
            let (s5, a5) = ensure_next(s4, EnsureEventView::Uploaded, env);
            &&& a1 == EnsureActionView::Run(uname_command())
            &&& a2 == EnsureActionView::Locate(platform_binary(uname))
            &&& a3 == EnsureActionView::Run(bin_dir_command())
            &&& a4 == (EnsureActionView::Upload { local, target: shpool_target() })
            &&& a5 == EnsureActionView::Run(chmod_command())
        }),
{
}

/// A forced upload skips the check and goes straight to finding out the remote's
/// platform.
pub proof fn forced_upload_skips_check()
    ensures
        ensure_first(true) == (EnsureStateView::Detecting, EnsureActionView::Run(uname_command())),
{
}

/// The Finish steps of a run from `state`, each with the two steps before it as far as
/// they lie in the run; what lies before the run is told by the state.
pub open spec fn finish_after_setup(state: EnsureStateView, acts: Seq<EnsureActionView>, env: Seq<(Seq<char>, Seq<char>)>) -> bool {
    forall|k: int|
        0 <= k < acts.len() && #[trigger] acts[k] is Finish ==> {
            ||| (k >= 2 && acts[k - 1] == EnsureActionView::Run(init_script(env)) && acts[k - 2]
                == EnsureActionView::Run(socket_dir_command()))
            ||| (k == 1 && state is PreparingSocket && acts[0] == EnsureActionView::Run(init_script(env)))
            ||| (k == 0 && state is WritingInit)
        }
}

proof fn lemma_finish_after_setup(state: EnsureStateView, events: Seq<EnsureEventView>, env: Seq<(Seq<char>, Seq<char>)>)
    ensures
        finish_after_setup(state, ensure_run(state, events, env), env),
    decreases events.len(),
{
    if events.len() > 0 && ensure_event_fits(state, events[0]) {
        let (s2, a) = ensure_next(state, events[0], env);
        lemma_finish_after_setup(s2, events.drop_first(), env);
        let rest = ensure_run(s2, events.drop_first(), env);
        let acts = seq![a] + rest;
        assert(ensure_run(state, events, env) == acts);
        assert forall|k: int| 0 <= k < acts.len() && #[trigger] acts[k] is Finish implies {
            ||| (k >= 2 && acts[k - 1] == EnsureActionView::Run(init_script(env)) && acts[k - 2]
                == EnsureActionView::Run(socket_dir_command()))
            ||| (k == 1 && state is PreparingSocket && acts[0] == EnsureActionView::Run(init_script(env)))
            ||| (k == 0 && state is WritingInit)
        } by {
            if k > 0 {
                assert(acts[k] == rest[k - 1]);
                assert(rest[k - 1] is Finish);
                if k - 1 >= 2 {
                    assert(acts[k - 1] == rest[k - 2]);
                    assert(acts[k - 2] == rest[k - 3]);
                } else if k - 1 == 1 {
                    assert(acts[k - 1] == rest[0]);
                }
            }
        }
    }
}

/// Whatever the outcomes, a run that finishes has just made the socket directory and
/// then written the init files: the two steps before Finish.
pub proof fn finish_follows_setup(force: bool, events: Seq<EnsureEventView>, env: Seq<(Seq<char>, Seq<char>)>)
    ensures
        forall|k: int|
            0 <= k < ensure_steps(force, events, env).len() && (#[trigger] ensure_steps(force, events, env)[k]) is Finish ==> {
                &&& k >= 2
                &&& ensure_steps(force, events, env)[k - 1] == EnsureActionView::Run(init_script(env))
                &&& ensure_steps(force, events, env)[k - 2] == EnsureActionView::Run(socket_dir_command())
            },
{
    let (s0, a0) = ensure_first(force);
    let rest = ensure_run(s0, events, env);
    lemma_finish_after_setup(s0, events, env);
    let steps = ensure_steps(force, events, env);
    assert forall|k: int| 0 <= k < steps.len() && (#[trigger] steps[k]) is Finish implies {
        &&& k >= 2
        &&& steps[k - 1] == EnsureActionView::Run(init_script(env))
        &&& steps[k - 2] == EnsureActionView::Run(socket_dir_command())
    } by {
        assert(k > 0);
        assert(steps[k] == rest[k - 1]);
        assert(rest[k - 1] is Finish);
        assert(steps[k - 1] == rest[k - 2]);
        assert(steps[k - 2] == rest[k - 3]);
    }
}

} // verus!
