use vstd::prelude::*;
use vstd::string::StringExecFns;

use crate::text::{chars_of, is_white_space, is_whitespace, replace_all, replaced};
use crate::upload::{REMOTE_LAUNCH, REMOTE_SHPOOL_PATH, REMOTE_SOCKET_PATH};

verus! {

/// A character that a shell word cannot hold unquoted here.
pub open spec fn needs_quote(c: char) -> bool {
    is_white_space(c) || c == '\'' || c == '"' || c == '\\'
}

/// `s` as one shell word: unchanged when it holds no white space, quote or backslash,
/// else in single quotes, each single quote in it written as `'\''`.
pub open spec fn shell_escaped(s: Seq<char>) -> Seq<char> {
    if exists|k: int| 0 <= k < s.len() && needs_quote(#[trigger] s[k]) {
        seq!['\''] + replaced(s, seq!['\''], seq!['\'', '\\', '\'', '\'']) + seq!['\'']
    } else {
        s
    }
}

pub fn shell_escape(s: &str) -> (r: String)
    ensures
        r@ == shell_escaped(s@),
{
    let v = chars_of(s);
    let mut found = false;
    let mut i: usize = 0;
    while i < v.len() && !found
        invariant
            v@ == s@,
            0 <= i <= v@.len(),
            !found ==> forall|k: int| 0 <= k < i ==> !needs_quote(#[trigger] v@[k]),
            found ==> exists|k: int| 0 <= k < v@.len() && needs_quote(#[trigger] v@[k]),
        decreases v@.len() - i,
    {
        let c = v[i];
        if is_whitespace(c) || c == '\'' || c == '"' || c == '\\' {
            assert(needs_quote(v@[i as int]));
            found = true;
        }
        i += 1;
    }
    if found {
        proof {
            reveal_strlit("'");
            reveal_strlit("'\\''");
            assert("'"@ =~= seq!['\'']);
            assert("'\\''"@ =~= seq!['\'', '\\', '\'', '\'']);
        }
        let inner = replace_all(s, "'", "'\\''");
        let mut r = String::new();
        r.append("'");
        r.append(inner.as_str());
        r.append("'");
        proof {
            assert(r@ =~= seq!['\''] + replaced(s@, seq!['\''], seq!['\'', '\\', '\'', '\'']) + seq!['\'']);
        }
        r
    } else {
        s.to_owned()
    }
}

/// The remote command that attaches (or creates) `session`: launched through the
/// shell launcher, with `shell` as the login shell when given and `remote_cwd` (as one
/// shell word) as the starting directory when given.
pub open spec fn shpool_command(session: Seq<char>, shell: Option<Seq<char>>, remote_cwd: Option<Seq<char>>) -> Seq<char> {
    REMOTE_SHPOOL_PATH@ + " --socket "@ + REMOTE_SOCKET_PATH@ + " attach -f "@ + session + match shell {
        Some(s) => " -c \""@ + REMOTE_LAUNCH@ + " "@ + s + "\""@,
        None => " -c "@ + REMOTE_LAUNCH@,
    } + match remote_cwd {
        Some(cwd) => " -d "@ + shell_escaped(cwd),
        None => Seq::empty(),
    }
}

pub fn build_shpool_cmd(session: &str, shell: Option<&str>, remote_cwd: Option<&str>) -> (r: String)
    ensures
        r@ == shpool_command(session@, shell.deep_view(), remote_cwd.deep_view()),
{
    let mut cmd = String::new();
    cmd.append(REMOTE_SHPOOL_PATH);
    cmd.append(" --socket ");
    cmd.append(REMOTE_SOCKET_PATH);
    cmd.append(" attach -f ");
    cmd.append(session);
    let ghost head = cmd@;
    match shell {
        Some(s) => {
            cmd.append(" -c \"");
            cmd.append(REMOTE_LAUNCH);
            cmd.append(" ");
            cmd.append(s);
            cmd.append("\"");
        },
        None => {
            cmd.append(" -c ");
            cmd.append(REMOTE_LAUNCH);
        },
    }
    let ghost mid = cmd@;
    match remote_cwd {
        Some(cwd) => {
            let e = shell_escape(cwd);
            cmd.append(" -d ");
            cmd.append(e.as_str());
        },
        None => {
            assert(cmd@ =~= mid + Seq::<char>::empty());
        },
    }
    cmd
}

} // verus!
