use vstd::prelude::*;
use vstd::string::StringExecFns;

use crate::text::{
    first_index, lemma_first_index, line_body, lines, lines_of, split_once, split_once_char,
};

verus! {

/// A session that is to be closed on a host: the host and the session's name.
pub struct WalEntry {
    pub host: String,
    pub session: String,
}

impl DeepView for WalEntry {
    type V = (Seq<char>, Seq<char>);

    open spec fn deep_view(&self) -> (Seq<char>, Seq<char>) {
        (self.host@, self.session@)
    }
}

impl Clone for WalEntry {
    fn clone(&self) -> (r: Self)
        ensures
            r.deep_view() == self.deep_view(),
    {
        WalEntry { host: self.host.clone(), session: self.session.clone() }
    }
}

/// The entries that a log's lines record: each line that holds a `:` records the host
/// before its first `:` and the session after it; other lines are ignored.
pub open spec fn entries_of_lines(ls: Seq<Seq<char>>) -> Seq<(Seq<char>, Seq<char>)>
    decreases ls.len(),
{
    if ls.len() == 0 {
        Seq::empty()
    } else {
        let prev = entries_of_lines(ls.drop_last());
        match split_once(ls.last(), ':') {
            Some(e) => prev.push(e),
            None => prev,
        }
    }
}

/// The entries that the log text `content` records.
pub open spec fn wal_entries(content: Seq<char>) -> Seq<(Seq<char>, Seq<char>)> {
    entries_of_lines(lines(content))
}

/// The log line of one entry, without its newline.
pub open spec fn entry_text(e: (Seq<char>, Seq<char>)) -> Seq<char> {
    e.0 + seq![':'] + e.1
}

/// The log text that records `es`: one line per entry, each ended by a newline.
pub open spec fn wal_text(es: Seq<(Seq<char>, Seq<char>)>) -> Seq<char>
    decreases es.len(),
{
    if es.len() == 0 {
        Seq::empty()
    } else {
        entry_text(es[0]) + seq!['\n'] + wal_text(es.drop_first())
    }
}

proof fn lemma_wal_text_push(es: Seq<(Seq<char>, Seq<char>)>, e: (Seq<char>, Seq<char>))
    ensures
        wal_text(es.push(e)) == wal_text(es) + entry_text(e) + seq!['\n'],
    decreases es.len(),
{
    if es.len() == 0 {
        assert(es.push(e).drop_first() =~= Seq::<(Seq<char>, Seq<char>)>::empty());
        assert(es.push(e)[0] == e);
        assert(wal_text(es.push(e).drop_first()) == Seq::<char>::empty());
        assert(wal_text(es) == Seq::<char>::empty());
        assert(wal_text(es.push(e)) =~= entry_text(e) + seq!['\n']);
    } else {
        assert(es.push(e).drop_first() =~= es.drop_first().push(e));
        lemma_wal_text_push(es.drop_first(), e);
        assert(wal_text(es.push(e)) =~= wal_text(es) + entry_text(e) + seq!['\n']);
    }
}

/// Reads the entries that the log text `content` records.
pub fn read_entries(content: &str) -> (r: Vec<WalEntry>)
    ensures
        r.deep_view() == wal_entries(content@),
{
    let ls = lines_of(content);
    let ghost lv = ls.deep_view();
    let mut out: Vec<WalEntry> = Vec::new();
    for i in 0..ls.len()
        invariant
            lv == ls.deep_view(),
            out.deep_view() == entries_of_lines(lv.take(i as int)),
    {
        assert(lv.take(i + 1).drop_last() =~= lv.take(i as int));
        assert(lv.take(i + 1).last() == ls[i as int]@);
        match split_once_char(ls[i].as_str(), ':') {
            Some((host, session)) => {
                let e = WalEntry { host, session };
                let ghost before = out.deep_view();
                out.push(e);
                assert(out.deep_view() =~= before.push(e.deep_view()));
            },
            None => {},
        }
    }
    assert(lv.take(ls.len() as int) =~= lv);
    out
}

/// The log text that records `entries`.
pub fn write_entries(entries: &Vec<WalEntry>) -> (r: String)
    ensures
        r@ == wal_text(entries.deep_view()),
{
    let ghost es = entries.deep_view();
    let mut out = String::new();
    assert(es.take(0) =~= Seq::<(Seq<char>, Seq<char>)>::empty());
    for i in 0..entries.len()
        invariant
            es == entries.deep_view(),
            out@ == wal_text(es.take(i as int)),
    {
        let ghost before = out@;
        out.append(entries[i].host.as_str());
        out.append(":");
        out.append(entries[i].session.as_str());
        out.append("\n");
        proof {
            reveal_strlit(":");
            reveal_strlit("\n");
            assert(es.take(i + 1) =~= es.take(i as int).push(es[i as int]));
            lemma_wal_text_push(es.take(i as int), es[i as int]);
            assert(out@ =~= before + entry_text(es[i as int]) + seq!['\n']);
        }
    }
    assert(es.take(entries.len() as int) =~= es);
    out
}

/// The line that records one closed session (what the signal handler appends).
pub fn entry_line(host: &str, session: &str) -> (r: String)
    ensures
        r@ == entry_text((host@, session@)) + seq!['\n'],
{
    let mut r = String::new();
    r.append(host);
    r.append(":");
    r.append(session);
    r.append("\n");
    proof {
        reveal_strlit(":");
        reveal_strlit("\n");
        assert(r@ =~= entry_text((host@, session@)) + seq!['\n']);
    }
    r
}

/// The entries recorded for hosts other than `host`, in order.
pub open spec fn other_hosts(es: Seq<(Seq<char>, Seq<char>)>, host: Seq<char>) -> Seq<(Seq<char>, Seq<char>)>
    decreases es.len(),
{
    if es.len() == 0 {
        Seq::empty()
    } else {
        let prev = other_hosts(es.drop_last(), host);
        if es.last().0 != host {
            prev.push(es.last())
        } else {
            prev
        }
    }
}

/// The sessions recorded for `host`, in order.
pub open spec fn pending_for(es: Seq<(Seq<char>, Seq<char>)>, host: Seq<char>) -> Seq<Seq<char>>
    decreases es.len(),
{
    if es.len() == 0 {
        Seq::empty()
    } else {
        let prev = pending_for(es.drop_last(), host);
        if es.last().0 == host {
            prev.push(es.last().1)
        } else {
            prev
        }
    }
}

/// The entries without those that record `session` on `host`.
pub open spec fn without_entry(es: Seq<(Seq<char>, Seq<char>)>, host: Seq<char>, session: Seq<char>) -> Seq<(Seq<char>, Seq<char>)>
    decreases es.len(),
{
    if es.len() == 0 {
        Seq::empty()
    } else {
        let prev = without_entry(es.drop_last(), host, session);
        if !(es.last().0 == host && es.last().1 == session) {
            prev.push(es.last())
        } else {
            prev
        }
    }
}

/// The log text after recording that `session` on `host` is to be closed.
pub fn record_close(content: &str, host: &str, session: &str) -> (r: String)
    ensures
        r@ == wal_text(wal_entries(content@).push((host@, session@))),
{
    let mut entries = read_entries(content);
    let e = WalEntry { host: host.to_owned(), session: session.to_owned() };
    let ghost before = entries.deep_view();
    entries.push(e);
    assert(entries.deep_view() =~= before.push((host@, session@)));
    write_entries(&entries)
}

/// The log text after the entry for `session` on `host` has been removed.
pub fn remove_entry(content: &str, host: &str, session: &str) -> (r: String)
    ensures
        r@ == wal_text(without_entry(wal_entries(content@), host@, session@)),
{
    let entries = read_entries(content);
    let ghost es = entries.deep_view();
    let h = host.to_owned();
    let s = session.to_owned();
    let mut kept: Vec<WalEntry> = Vec::new();
    for i in 0..entries.len()
        invariant
            es == entries.deep_view(),
            h@ == host@,
            s@ == session@,
            kept.deep_view() == without_entry(es.take(i as int), host@, session@),
    {
        assert(es.take(i + 1).drop_last() =~= es.take(i as int));
        assert(es.take(i + 1).last() == entries[i as int].deep_view());
        if !(entries[i].host == h && entries[i].session == s) {
            let e = entries[i].clone();
            let ghost before = kept.deep_view();
            kept.push(e);
            assert(kept.deep_view() =~= before.push(e.deep_view()));
        }
    }
    assert(es.take(entries.len() as int) =~= es);
    write_entries(&kept)
}

/// The log text once the kill of a recorded close has been tried: when the kill went
/// through, the log read back as `content` without that entry; when it did not, nothing
/// (the entry stays for the next connect).
pub fn settle_close(content: &str, host: &str, session: &str, killed: bool) -> (r: Option<String>)
    ensures
        killed ==> r.deep_view() == Some(wal_text(without_entry(wal_entries(content@), host@, session@))),
        !killed ==> r is None,
{
    if killed {
        Some(remove_entry(content, host, session))
    } else {
        None
    }
}

/// What to do on connecting to a host with closes pending: the sessions to kill and
/// the log text to keep once they are killed.
pub struct ReplayPlan {
    pub sessions: Vec<String>,
    pub remaining: String,
}

/// The pending closes for `host` in the log text `content`, if there are any.
pub fn replay(content: &str, host: &str) -> (r: Option<ReplayPlan>)
    ensures
        match r {
            None => pending_for(wal_entries(content@), host@).len() == 0,
            Some(plan) => {
                &&& pending_for(wal_entries(content@), host@).len() > 0
                &&& plan.sessions.deep_view() == pending_for(wal_entries(content@), host@)
                &&& plan.remaining@ == wal_text(other_hosts(wal_entries(content@), host@))
            },
        },
{
    let entries = read_entries(content);
    let ghost es = entries.deep_view();
    let h = host.to_owned();
    let mut names: Vec<String> = Vec::new();
    let mut others: Vec<WalEntry> = Vec::new();
    for i in 0..entries.len()
        invariant
            es == entries.deep_view(),
            h@ == host@,
            names.deep_view() == pending_for(es.take(i as int), host@),
            others.deep_view() == other_hosts(es.take(i as int), host@),
    {
        assert(es.take(i + 1).drop_last() =~= es.take(i as int));
        assert(es.take(i + 1).last() == entries[i as int].deep_view());
        if entries[i].host == h {
            let n = entries[i].session.clone();
            let ghost before = names.deep_view();
            names.push(n);
            assert(names.deep_view() =~= before.push(n@));
        } else {
            let e = entries[i].clone();
            let ghost before = others.deep_view();
            others.push(e);
            assert(others.deep_view() =~= before.push(e.deep_view()));
        }
    }
    assert(es.take(entries.len() as int) =~= es);
    if names.len() == 0 {
        return None;
    }
    let remaining = write_entries(&others);
    Some(ReplayPlan { sessions: names, remaining })
}

/// An entry that a log line can hold and give back unchanged: the host holds no `:`,
/// neither part holds a newline, and the session does not end with a carriage return.
pub open spec fn writable(e: (Seq<char>, Seq<char>)) -> bool {
    &&& forall|k: int| 0 <= k < e.0.len() ==> #[trigger] e.0[k] != ':' && e.0[k] != '\n'
    &&& forall|k: int| 0 <= k < e.1.len() ==> #[trigger] e.1[k] != '\n'
    &&& !(e.1.len() > 0 && e.1.last() == '\r')
}

pub open spec fn entry_texts(es: Seq<(Seq<char>, Seq<char>)>) -> Seq<Seq<char>> {
    Seq::new(es.len(), |i: int| entry_text(es[i]))
}

proof fn lemma_lines_of_wal_text(es: Seq<(Seq<char>, Seq<char>)>)
    requires
        forall|i: int| 0 <= i < es.len() ==> writable(#[trigger] es[i]),
    ensures
        lines(wal_text(es)) == entry_texts(es),
    decreases es.len(),
{
    if es.len() == 0 {
        assert(entry_texts(es) =~= Seq::<Seq<char>>::empty());
    } else {
        let e = es[0];
        assert(writable(e));
        let t = entry_text(e);
        let rest = wal_text(es.drop_first());
        let s = wal_text(es);
        assert(s == t + seq!['\n'] + rest);
        assert forall|k: int| 0 <= k < t.len() implies s[k] != '\n' by {
            assert(s[k] == t[k]);
            if k < e.0.len() {
                assert(t[k] == e.0[k]);
            } else if k > e.0.len() {
                assert(t[k] == e.1[k - e.0.len() - 1]);
            }
        }
        assert(s[t.len() as int] == '\n');
        lemma_first_index(s, '\n', t.len() as int);
        assert(s.take(t.len() as int) =~= t);
        assert(s.skip(t.len() as int + 1) =~= rest);
        assert(line_body(t, true) == t) by {
            if e.1.len() > 0 {
                assert(t.last() == e.1.last());
            } else {
                assert(t.last() == ':');
            }
        }
        assert forall|i: int| 0 <= i < es.drop_first().len() implies writable(#[trigger] es.drop_first()[i]) by {
            assert(es.drop_first()[i] == es[i + 1]);
        }
        lemma_lines_of_wal_text(es.drop_first());
        assert(entry_texts(es) =~= seq![t] + entry_texts(es.drop_first()));
    }
}

proof fn lemma_entries_of_texts(es: Seq<(Seq<char>, Seq<char>)>)
    requires
        forall|i: int| 0 <= i < es.len() ==> writable(#[trigger] es[i]),
    ensures
        entries_of_lines(entry_texts(es)) == es,
    decreases es.len(),
{
    if es.len() == 0 {
        assert(entry_texts(es) =~= Seq::<Seq<char>>::empty());
        assert(es =~= Seq::<(Seq<char>, Seq<char>)>::empty());
    } else {
        let e = es.last();
        assert(writable(e));
        let t = entry_text(e);
        assert(entry_texts(es).drop_last() =~= entry_texts(es.drop_last()));
        assert(entry_texts(es).last() == t);
        assert forall|k: int| 0 <= k < e.0.len() implies t[k] != ':' by {
            assert(t[k] == e.0[k]);
        }
        assert(t[e.0.len() as int] == ':');
        lemma_first_index(t, ':', e.0.len() as int);
        assert(t.take(e.0.len() as int) =~= e.0);
        assert(t.skip(e.0.len() as int + 1) =~= e.1);
        assert forall|i: int| 0 <= i < es.drop_last().len() implies writable(#[trigger] es.drop_last()[i]) by {
            assert(es.drop_last()[i] == es[i]);
        }
        lemma_entries_of_texts(es.drop_last());
        assert(es.drop_last().push(e) =~= es);
    }
}

/// Reading the log gives back exactly the entries that were written to it, for entries
/// that a log line can hold.
pub proof fn read_gives_back_written(es: Seq<(Seq<char>, Seq<char>)>)
    requires
        forall|i: int| 0 <= i < es.len() ==> writable(#[trigger] es[i]),
    ensures
        wal_entries(wal_text(es)) == es,
{
    lemma_lines_of_wal_text(es);
    lemma_entries_of_texts(es);
}


/// The closes pending for a host after one more is recorded for it: those before, then
/// the new one.
proof fn lemma_pending_after_push(es: Seq<(Seq<char>, Seq<char>)>, host: Seq<char>, session: Seq<char>)
    ensures
        pending_for(es.push((host, session)), host) == pending_for(es, host).push(session),
{
    assert(es.push((host, session)).drop_last() =~= es);
}

proof fn lemma_other_hosts_exclude(es: Seq<(Seq<char>, Seq<char>)>, host: Seq<char>)
    ensures
        forall|k: int| 0 <= k < other_hosts(es, host).len() ==> #[trigger] other_hosts(es, host)[k].0 != host,
    decreases es.len(),
{
    if es.len() > 0 {
        lemma_other_hosts_exclude(es.drop_last(), host);
        let prev = other_hosts(es.drop_last(), host);
        if es.last().0 != host {
            assert forall|k: int| 0 <= k < prev.push(es.last()).len() implies #[trigger] prev.push(es.last())[k].0 != host by {
                if k < prev.len() {
                    assert(prev.push(es.last())[k] == prev[k]);
                }
            }
        }
    }
}

proof fn lemma_without_absent(es: Seq<(Seq<char>, Seq<char>)>, host: Seq<char>, session: Seq<char>)
    requires
        !es.contains((host, session)),
    ensures
        without_entry(es, host, session) == es,
    decreases es.len(),
{
    if es.len() > 0 {
        assert(!es.drop_last().contains((host, session))) by {
            if es.drop_last().contains((host, session)) {
                let k = choose|k: int| 0 <= k < es.drop_last().len() && es.drop_last()[k] == (host, session);
                assert(es[k] == (host, session));
            }
        }
        lemma_without_absent(es.drop_last(), host, session);
        assert(es.drop_last().push(es.last()) =~= es);
    }
}

/// A recorded close is replayed on the next connect to its host: reading the log back
/// after recording `session` gives the closes pending for `host` before it, then
/// `session` (for entries that a log line can hold).
pub proof fn recorded_close_is_replayed(es: Seq<(Seq<char>, Seq<char>)>, host: Seq<char>, session: Seq<char>)
    requires
        forall|i: int| 0 <= i < es.len() ==> writable(#[trigger] es[i]),
        writable((host, session)),
    ensures
        pending_for(wal_entries(wal_text(es.push((host, session)))), host) == pending_for(es, host).push(session),
{
    let all = es.push((host, session));
    assert forall|i: int| 0 <= i < all.len() implies writable(#[trigger] all[i]) by {
        if i < es.len() {
            assert(all[i] == es[i]);
        }
    }
    read_gives_back_written(all);
    lemma_pending_after_push(es, host, session);
}

/// Once the replayed closes of a host are done, the log keeps no entry for that host.
pub proof fn replay_leaves_other_hosts_only(es: Seq<(Seq<char>, Seq<char>)>, host: Seq<char>)
    ensures
        forall|k: int| 0 <= k < other_hosts(es, host).len() ==> #[trigger] other_hosts(es, host)[k].0 != host,
{
    lemma_other_hosts_exclude(es, host);
}

/// Removing the entry of a close that went through undoes recording it, when the log
/// held no such entry before.
pub proof fn removing_undoes_recording(es: Seq<(Seq<char>, Seq<char>)>, host: Seq<char>, session: Seq<char>)
    requires
        !es.contains((host, session)),
    ensures
        without_entry(es.push((host, session)), host, session) == es,
{
    assert(es.push((host, session)).drop_last() =~= es);
    lemma_without_absent(es, host, session);
}

proof fn lemma_without_is_filter(
    es: Seq<(Seq<char>, Seq<char>)>,
    host: Seq<char>,
    session: Seq<char>,
    keep: spec_fn((Seq<char>, Seq<char>)) -> bool,
)
    requires
        forall|e: (Seq<char>, Seq<char>)| #[trigger] keep(e) == (e != (host, session)),
    ensures
        without_entry(es, host, session) == es.filter(keep),
    decreases es.len(),
{
    reveal(Seq::filter);
    if es.len() > 0 {
        lemma_without_is_filter(es.drop_last(), host, session, keep);
        assert(keep(es.last()) == (es.last() != (host, session)));
    }
}

proof fn lemma_without_excludes(es: Seq<(Seq<char>, Seq<char>)>, host: Seq<char>, session: Seq<char>)
    ensures
        !without_entry(es, host, session).contains((host, session)),
    decreases es.len(),
{
    if es.len() > 0 {
        lemma_without_excludes(es.drop_last(), host, session);
        let prev = without_entry(es.drop_last(), host, session);
        if !(es.last().0 == host && es.last().1 == session) {
            assert forall|k: int| 0 <= k < prev.push(es.last()).len() implies prev.push(es.last())[k] != (host, session) by {
                if k < prev.len() {
                    assert(prev.push(es.last())[k] == prev[k]);
                }
            }
        }
    }
}

/// Removing the entry of a close that went through removes every entry of that session
/// on that host, however many times it was recorded, and keeps all other entries in
/// their order.
pub proof fn removal_takes_every_copy(es: Seq<(Seq<char>, Seq<char>)>, host: Seq<char>, session: Seq<char>)
    ensures
        !without_entry(es, host, session).contains((host, session)),
        without_entry(es, host, session) == es.filter(|e: (Seq<char>, Seq<char>)| e != (host, session)),
{
    lemma_without_excludes(es, host, session);
    let keep = |e: (Seq<char>, Seq<char>)| e != (host, session);
    lemma_without_is_filter(es, host, session, keep);
}

/// The closes replayed for a host are exactly the sessions recorded for it: a session
/// is pending for `host` just when the log holds an entry of it on that host.
pub proof fn pending_are_the_recorded_sessions(es: Seq<(Seq<char>, Seq<char>)>, host: Seq<char>, session: Seq<char>)
    ensures
        pending_for(es, host).contains(session) <==> es.contains((host, session)),
    decreases es.len(),
{
    if es.len() > 0 {
        pending_are_the_recorded_sessions(es.drop_last(), host, session);
        let prev = pending_for(es.drop_last(), host);
        let last = es.last();
        if pending_for(es, host).contains(session) {
            let k = choose|k: int| 0 <= k < pending_for(es, host).len() && pending_for(es, host)[k] == session;
            if last.0 == host && k == prev.len() {
                assert(es[es.len() - 1] == (host, session));
            } else {
                assert(prev[k] == session);
                assert(prev.contains(session));
                let m = choose|m: int| 0 <= m < es.drop_last().len() && es.drop_last()[m] == (host, session);
                assert(es[m] == (host, session));
            }
        }
        if es.contains((host, session)) {
            let m = choose|m: int| 0 <= m < es.len() && es[m] == (host, session);
            if m == es.len() - 1 {
                assert(prev.push(session)[prev.len() as int] == session);
            } else {
                assert(es.drop_last()[m] == (host, session));
                assert(prev.contains(session));
                let k = choose|k: int| 0 <= k < prev.len() && prev[k] == session;
                if last.0 == host {
                    assert(prev.push(last.1)[k] == session);
                }
            }
        }
    }
}

} // verus!
