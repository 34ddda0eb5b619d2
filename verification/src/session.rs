use vstd::prelude::*;
use vstd::string::StringExecFns;

use crate::text::{
    chars_of, contains, contains_seq, decimal, decimal_string, find_char, first_index, first_word,
    first_word_of, has_prefix, join, joined, lemma_decimal_injective, lines, lines_of, lowercase,
    parse_usize, parsed_usize, replace_all, replaced, starts_with, string_from_range, to_lowercase,
    trim, trimmed,
};
use crate::upload::{REMOTE_SHPOOL_PATH, REMOTE_SOCKET_PATH};

verus! {

/// One session that shpool lists: its name and the whole line that lists it.
pub struct SessionEntry {
    pub name: String,
    pub raw_line: String,
}

pub struct SessionEntryView {
    pub name: Seq<char>,
    pub raw_line: Seq<char>,
}

impl DeepView for SessionEntry {
    type V = SessionEntryView;

    open spec fn deep_view(&self) -> SessionEntryView {
        SessionEntryView { name: self.name@, raw_line: self.raw_line@ }
    }
}

impl Clone for SessionEntry {
    fn clone(&self) -> (r: Self)
        ensures
            r.deep_view() == self.deep_view(),
    {
        SessionEntry { name: self.name.clone(), raw_line: self.raw_line.clone() }
    }
}

/// The session of each non-blank line: named by the line's first word.
pub open spec fn entries_of_lines(ls: Seq<Seq<char>>) -> Seq<SessionEntryView>
    decreases ls.len(),
{
    if ls.len() == 0 {
        Seq::empty()
    } else {
        let prev = entries_of_lines(ls.drop_last());
        let l = ls.last();
        if trimmed(l).len() == 0 {
            prev
        } else {
            prev.push(SessionEntryView { name: first_word(l), raw_line: l })
        }
    }
}

/// The sessions that shpool's `list` output shows: every non-blank line after the
/// header.
pub open spec fn session_list(output: Seq<char>) -> Seq<SessionEntryView> {
    let ls = lines(output);
    if ls.len() == 0 {
        Seq::empty()
    } else {
        entries_of_lines(ls.skip(1))
    }
}

pub fn parse_session_list(output: &str) -> (r: Vec<SessionEntry>)
    ensures
        r.deep_view() == session_list(output@),
{
    let ls = lines_of(output);
    let mut out: Vec<SessionEntry> = Vec::new();
    if ls.len() == 0 {
        assert(out.deep_view() =~= session_list(output@));
        return out;
    }
    let ghost body = ls.deep_view().skip(1);
    for i in 1..ls.len()
        invariant
            ls.deep_view() == lines(output@),
            body == ls.deep_view().skip(1),
            out.deep_view() == entries_of_lines(body.take(i - 1)),
    {
        let line = &ls[i];
        let t = trim(line.as_str());
        assert(body.take(i as int).drop_last() =~= body.take(i - 1));
        assert(body.take(i as int).last() == line@);
        if !t.as_str().is_empty() {
            let e = SessionEntry { name: first_word_of(line.as_str()), raw_line: line.clone() };
            let ghost before = out.deep_view();
            out.push(e);
            assert(out.deep_view() =~= before.push(e.deep_view()));
        }
    }
    assert(body.take(ls.len() - 1) =~= body);
    out
}

/// The remote command that lists the sessions.
pub fn list_sessions() -> (r: String)
    ensures
        r@ == REMOTE_SHPOOL_PATH@ + " --socket "@ + REMOTE_SOCKET_PATH@ + " list 2>/dev/null"@,
{
    let mut r = String::new();
    r.append(REMOTE_SHPOOL_PATH);
    r.append(" --socket ");
    r.append(REMOTE_SOCKET_PATH);
    r.append(" list 2>/dev/null");
    r
}

/// The remote command that kills the named sessions.
pub fn kill_sessions(sessions: &Vec<String>) -> (r: String)
    ensures
        r@ == REMOTE_SHPOOL_PATH@ + " --socket "@ + REMOTE_SOCKET_PATH@ + " kill "@ + joined(
            sessions.deep_view(),
            " "@,
        ),
{
    let list = join(sessions, " ");
    let mut r = String::new();
    r.append(REMOTE_SHPOOL_PATH);
    r.append(" --socket ");
    r.append(REMOTE_SOCKET_PATH);
    r.append(" kill ");
    r.append(list.as_str());
    r
}

/// A kill command reached the host: ssh ran it and did not report its own failure
/// (exit 255); a connection that is down leaves the kill to be replayed.
pub open spec fn kill_reached(code: Option<i32>) -> bool {
    code is Some && code != Some(255i32)
}

/// Whether the kill command, ending with exit code `code` (`None` when a signal ended
/// ssh), reached the host.
pub fn kill_went_through(code: Option<i32>) -> (r: bool)
    ensures
        r == kill_reached(code),
{
    match code {
        Some(c) => c != 255,
        None => false,
    }
}

/// The `i`-th name that this client gives its sessions.
pub open spec fn candidate_name(prefix: Seq<char>, i: nat) -> Seq<char> {
    prefix + "-s"@ + decimal(i)
}

pub open spec fn names_of(sessions: Seq<SessionEntryView>) -> Seq<Seq<char>> {
    Seq::new(sessions.len(), |k: int| sessions[k].name)
}

proof fn lemma_candidate_injective(prefix: Seq<char>, a: nat, b: nat)
    requires
        candidate_name(prefix, a) == candidate_name(prefix, b),
    ensures
        a == b,
{
    reveal_strlit("-s");
    let ca = candidate_name(prefix, a);
    let cb = candidate_name(prefix, b);
    let n = prefix.len() + 2;
    assert(ca.skip(n as int) =~= decimal(a));
    assert(cb.skip(n as int) =~= decimal(b));
    lemma_decimal_injective(a, b);
}

/// The first of this client's session names that no listed session has yet.
pub fn new_session_name(prefix: &str, sessions: &Vec<SessionEntry>) -> (r: String)
    ensures
        exists|i: nat|
            {
                &&& r@ == candidate_name(prefix@, i)
                &&& !names_of(sessions.deep_view()).contains(r@)
                &&& forall|j: nat| j < i ==> names_of(sessions.deep_view()).contains(#[trigger] candidate_name(prefix@, j))
            },
{
    let ghost names = names_of(sessions.deep_view());
    let ghost taken = names.to_set();
    let ghost mut seen: Set<Seq<char>> = Set::empty();
    proof {
        names.lemma_cardinality_of_set();
    }
    let mut i: usize = 0;
    loop
        invariant
            names == names_of(sessions.deep_view()),
            taken == names.to_set(),
            taken.len() <= names.len(),
            names.len() == sessions@.len(),
            seen.finite(),
            seen.len() == i,
            seen.subset_of(taken),
            forall|c: Seq<char>| #[trigger] seen.contains(c) ==> exists|j: nat| j < i && c == candidate_name(prefix@, j),
            forall|j: nat| j < i ==> names.contains(#[trigger] candidate_name(prefix@, j)),
            i <= sessions@.len(),
        decreases sessions@.len() - i,
    {
        let mut name = String::new();
        name.append(prefix);
        name.append("-s");
        let num = decimal_string(i);
        name.append(num.as_str());
        assert(name@ == candidate_name(prefix@, i as nat));
        let mut found = false;
        let mut k: usize = 0;
        while k < sessions.len()
            invariant
                names == names_of(sessions.deep_view()),
                0 <= k <= sessions@.len(),
                !found ==> forall|m: int| 0 <= m < k ==> names[m] != name@,
                found ==> names.contains(name@),
            decreases sessions@.len() - k,
        {
            if sessions[k].name == name {
                assert(names[k as int] == name@);
                found = true;
            }
            k += 1;
        }
        if !found {
            assert(!names.contains(name@));
            return name;
        }
        proof {
            assert(!seen.contains(name@)) by {
                if seen.contains(name@) {
                    let j = choose|j: nat| j < i && name@ == candidate_name(prefix@, j);
                    lemma_candidate_injective(prefix@, j, i as nat);
                }
            }
            assert(taken.contains(name@));
            seen = seen.insert(name@);
            vstd::set_lib::lemma_len_subset(seen, taken);
        }
        i += 1;
    }
}

/// The prefix that this machine's host name gives its session names: the name up to
/// its first dot, in lower case, with spaces turned into dashes.
pub open spec fn host_prefix(full: Seq<char>) -> Seq<char> {
    replaced(lowercase(full.take(first_index(full, '.'))), " "@, "-"@)
}

pub fn prefix_from_hostname(full: &str) -> (r: String)
    ensures
        r@ == host_prefix(full@),
{
    let v = chars_of(full);
    let i = find_char(&v, '.');
    let short = string_from_range(&v, 0, i);
    let lower = to_lowercase(short.as_str());
    proof {
        reveal_strlit(" ");
    }
    replace_all(lower.as_str(), " ", "-")
}

/// hostname's `get`: this machine's host name, made UTF-8 lossily, or `None` when the
/// system does not give it. Nothing is stated of the name, which the machine decides.
#[verifier::external_body]
fn system_hostname() -> (r: Option<String>) {
    match hostname::get() {
        Ok(h) => Some(h.to_string_lossy().into_owned()),
        Err(_) => None,
    }
}

/// The prefix for the host name that the system gave, or for "unknown" when it gave
/// none.
pub fn session_prefix(hostname: &Option<String>) -> (r: String)
    ensures
        r@ == host_prefix(
            match hostname.deep_view() {
                Some(h) => h,
                None => "unknown"@,
            },
        ),
{
    match hostname {
        Some(h) => prefix_from_hostname(h.as_str()),
        None => prefix_from_hostname("unknown"),
    }
}

/// The prefix of this client's session names, from this machine's host name (or from
/// "unknown" when the system does not give one).
pub fn local_prefix() -> (r: String)
    ensures
        exists|full: Seq<char>| r@ == host_prefix(full),
{
    let name = system_hostname();
    session_prefix(&name)
}

/// The session belongs to the client whose prefix is given: its name starts with the
/// prefix and a dash.
pub open spec fn owned_by(e: SessionEntryView, prefix: Seq<char>) -> bool {
    has_prefix(e.name, prefix + "-"@)
}

/// The sessions shown: all of them with `all`, else this client's.
pub open spec fn visible_sessions(sessions: Seq<SessionEntryView>, prefix: Seq<char>, all: bool) -> Seq<SessionEntryView>
    decreases sessions.len(),
{
    if sessions.len() == 0 {
        Seq::empty()
    } else {
        let prev = visible_sessions(sessions.drop_last(), prefix, all);
        if all || owned_by(sessions.last(), prefix) {
            prev.push(sessions.last())
        } else {
            prev
        }
    }
}

/// The sessions to show: all of them with `all`, else those of the client `prefix`.
pub fn client_sessions(sessions: &Vec<SessionEntry>, prefix: &str, all: bool) -> (r: Vec<SessionEntry>)
    ensures
        r.deep_view() == visible_sessions(sessions.deep_view(), prefix@, all),
{
    let mut dash = String::new();
    dash.append(prefix);
    dash.append("-");
    let mut out: Vec<SessionEntry> = Vec::new();
    let ghost all_s = sessions.deep_view();
    for i in 0..sessions.len()
        invariant
            all_s == sessions.deep_view(),
            dash@ == prefix@ + "-"@,
            out.deep_view() == visible_sessions(all_s.take(i as int), prefix@, all),
    {
        assert(all_s.take(i + 1).drop_last() =~= all_s.take(i as int));
        assert(all_s.take(i + 1).last() == sessions[i as int].deep_view());
        if all || starts_with(sessions[i].name.as_str(), dash.as_str()) {
            let e = sessions[i].clone();
            let ghost before = out.deep_view();
            out.push(e);
            assert(out.deep_view() =~= before.push(e.deep_view()));
        }
    }
    assert(all_s.take(sessions.len() as int) =~= all_s);
    out
}

/// With `all`, every session is shown, in order.
pub proof fn all_shows_every_session(sessions: Seq<SessionEntryView>, prefix: Seq<char>)
    ensures
        visible_sessions(sessions, prefix, true) == sessions,
    decreases sessions.len(),
{
    if sessions.len() > 0 {
        all_shows_every_session(sessions.drop_last(), prefix);
        assert(sessions.drop_last().push(sessions.last()) =~= sessions);
    }
}

/// Without `all`, only this client's sessions are shown, and all of them.
pub proof fn own_sessions_only(sessions: Seq<SessionEntryView>, prefix: Seq<char>)
    ensures
        forall|e: SessionEntryView|
            visible_sessions(sessions, prefix, false).contains(e) <==> (sessions.contains(e) && owned_by(e, prefix)),
    decreases sessions.len(),
{
    if sessions.len() > 0 {
        own_sessions_only(sessions.drop_last(), prefix);
        let prev = visible_sessions(sessions.drop_last(), prefix, false);
        let last = sessions.last();
        assert forall|e: SessionEntryView|
            visible_sessions(sessions, prefix, false).contains(e) <==> (sessions.contains(e) && owned_by(e, prefix)) by {
            if visible_sessions(sessions, prefix, false).contains(e) {
                let in_prev = if owned_by(last, prefix) {
                    let k = choose|k: int| 0 <= k < prev.push(last).len() && prev.push(last)[k] == e;
                    if k == prev.len() {
                        assert(sessions[sessions.len() - 1] == e);
                        false
                    } else {
                        assert(prev[k] == e);
                        true
                    }
                } else {
                    true
                };
                if in_prev {
                    assert(prev.contains(e));
                    assert(sessions.drop_last().contains(e));
                    let m = choose|m: int| 0 <= m < sessions.drop_last().len() && sessions.drop_last()[m] == e;
                    assert(sessions.drop_last()[m] == sessions[m]);
                }
            }
            if sessions.contains(e) && owned_by(e, prefix) {
                let m = choose|m: int| 0 <= m < sessions.len() && sessions[m] == e;
                if m == sessions.len() - 1 {
                    assert(prev.push(last)[prev.len() as int] == e);
                } else {
                    assert(sessions.drop_last()[m] == e);
                    assert(prev.contains(e));
                    let k = choose|k: int| 0 <= k < prev.len() && prev[k] == e;
                    if owned_by(last, prefix) {
                        assert(prev.push(last)[k] == e);
                    }
                }
            }
        }
    }
}

/// The names of the detached sessions that cleaning kills: those whose line says
/// "detached", of this client unless `all`.
pub open spec fn detached_names(sessions: Seq<SessionEntryView>, prefix: Seq<char>, all: bool) -> Seq<Seq<char>>
    decreases sessions.len(),
{
    if sessions.len() == 0 {
        Seq::empty()
    } else {
        let prev = detached_names(sessions.drop_last(), prefix, all);
        let e = sessions.last();
        if contains_seq(e.raw_line, "detached"@) && (all || owned_by(e, prefix)) {
            prev.push(e.name)
        } else {
            prev
        }
    }
}

/// The names of the detached sessions to clean up.
pub fn clean_detached(sessions: &Vec<SessionEntry>, prefix: &str, all: bool) -> (r: Vec<String>)
    ensures
        r.deep_view() == detached_names(sessions.deep_view(), prefix@, all),
{
    let mut dash = String::new();
    dash.append(prefix);
    dash.append("-");
    let mut out: Vec<String> = Vec::new();
    let ghost all_s = sessions.deep_view();
    for i in 0..sessions.len()
        invariant
            all_s == sessions.deep_view(),
            dash@ == prefix@ + "-"@,
            out.deep_view() == detached_names(all_s.take(i as int), prefix@, all),
    {
        assert(all_s.take(i + 1).drop_last() =~= all_s.take(i as int));
        assert(all_s.take(i + 1).last() == sessions[i as int].deep_view());
        if contains(sessions[i].raw_line.as_str(), "detached") && (all || starts_with(
            sessions[i].name.as_str(),
            dash.as_str(),
        )) {
            let n = sessions[i].name.clone();
            let ghost before = out.deep_view();
            out.push(n);
            assert(out.deep_view() =~= before.push(n@));
        }
    }
    assert(all_s.take(sessions.len() as int) =~= all_s);
    out
}

/// Why a typed selection picks no session.
#[derive(PartialEq, Eq, Structural, Clone, Copy, Debug)]
pub enum SelectError {
    /// The input is not a number.
    InvalidSelection,
    /// The number names no listed session.
    OutOfRange,
}

/// The session that the user's typed answer picks from a numbered list (numbered from
/// one), or why it picks none.
pub open spec fn selection(sessions: Seq<SessionEntryView>, input: Seq<char>) -> Result<Seq<char>, SelectError> {
    match parsed_usize(trimmed(input)) {
        None => Err(SelectError::InvalidSelection),
        Some(idx) => if idx < 1 || idx > sessions.len() {
            Err(SelectError::OutOfRange)
        } else {
            Ok(sessions[idx - 1].name)
        },
    }
}

pub fn select_session(sessions: &Vec<SessionEntry>, input: &str) -> (r: Result<String, SelectError>)
    ensures
        match r {
            Ok(name) => selection(sessions.deep_view(), input@) == Ok::<Seq<char>, SelectError>(name@),
            Err(e) => selection(sessions.deep_view(), input@) == Err::<Seq<char>, SelectError>(e),
        },
{
    let t = trim(input);
    match parse_usize(t.as_str()) {
        None => Err(SelectError::InvalidSelection),
        Some(idx) => {
            if idx < 1 || idx > sessions.len() {
                Err(SelectError::OutOfRange)
            } else {
                Ok(sessions[idx - 1].name.clone())
            }
        },
    }
}

/// Cleaning kills only detached sessions, and without `all` only this client's.
pub proof fn cleaning_kills_only_detached(sessions: Seq<SessionEntryView>, prefix: Seq<char>, all: bool, name: Seq<char>)
    requires
        detached_names(sessions, prefix, all).contains(name),
    ensures
        exists|i: int|
            0 <= i < sessions.len() && #[trigger] sessions[i].name == name && contains_seq(sessions[i].raw_line, "detached"@)
                && (all || owned_by(sessions[i], prefix)),
    decreases sessions.len(),
{
    let prev = detached_names(sessions.drop_last(), prefix, all);
    let e = sessions.last();
    let k = choose|k: int| 0 <= k < detached_names(sessions, prefix, all).len() && detached_names(sessions, prefix, all)[k] == name;
    if contains_seq(e.raw_line, "detached"@) && (all || owned_by(e, prefix)) && k == prev.len() {
        assert(sessions[sessions.len() - 1] == e);
    } else {
        assert(prev[k] == name);
        cleaning_kills_only_detached(sessions.drop_last(), prefix, all, name);
        let i = choose|i: int|
            0 <= i < sessions.drop_last().len() && #[trigger] sessions.drop_last()[i].name == name && contains_seq(
                sessions.drop_last()[i].raw_line,
                "detached"@,
            ) && (all || owned_by(sessions.drop_last()[i], prefix));
        assert(sessions[i] == sessions.drop_last()[i]);
    }
}

} // verus!
