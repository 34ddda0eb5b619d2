use vstd::prelude::*;

use crate::config::clone_strings;

verus! {

/// What the words after the host ask for.
pub enum Subcommand {
    /// List the sessions (`list` or `ls`).
    List,
    /// Attach to an existing session, with these extra SSH arguments.
    Attach(Vec<String>),
    /// Kill these sessions (a picker chooses when there are none).
    Kill(Vec<String>),
    /// Kill the detached sessions.
    Clean,
    /// Open a new session, with these extra SSH arguments.
    Connect(Vec<String>),
}

pub enum SubcommandView {
    List,
    Attach(Seq<Seq<char>>),
    Kill(Seq<Seq<char>>),
    Clean,
    Connect(Seq<Seq<char>>),
}

impl DeepView for Subcommand {
    type V = SubcommandView;

    open spec fn deep_view(&self) -> SubcommandView {
        match self {
            Subcommand::List => SubcommandView::List,
            Subcommand::Attach(a) => SubcommandView::Attach(a.deep_view()),
            Subcommand::Kill(a) => SubcommandView::Kill(a.deep_view()),
            Subcommand::Clean => SubcommandView::Clean,
            Subcommand::Connect(a) => SubcommandView::Connect(a.deep_view()),
        }
    }
}

/// The subcommand that the words after the host name: the first word picks it, and
/// the rest are its arguments; a first word that names no subcommand (or no word at
/// all) opens a session with all the words as SSH arguments.
pub open spec fn subcommand_of(args: Seq<Seq<char>>) -> SubcommandView {
    if args.len() == 0 {
        SubcommandView::Connect(args)
    } else if args[0] == "list"@ || args[0] == "ls"@ {
        SubcommandView::List
    } else if args[0] == "attach"@ {
        SubcommandView::Attach(args.drop_first())
    } else if args[0] == "kill"@ {
        SubcommandView::Kill(args.drop_first())
    } else if args[0] == "clean"@ {
        SubcommandView::Clean
    } else {
        SubcommandView::Connect(args)
    }
}

fn tail_strings(v: &Vec<String>) -> (r: Vec<String>)
    requires
        v@.len() > 0,
    ensures
        r.deep_view() == v.deep_view().drop_first(),
{
    let mut r: Vec<String> = Vec::new();
    for i in 1..v.len()
        invariant
            r@.len() == i - 1,
            forall|j: int| 0 <= j < i - 1 ==> #[trigger] r@[j]@ == v@[j + 1]@,
    {
        r.push(v[i].clone());
    }
    assert(r.deep_view() =~= v.deep_view().drop_first());
    r
}

pub fn parse_subcommand(args: &Vec<String>) -> (r: Subcommand)
    ensures
        r.deep_view() == subcommand_of(args.deep_view()),
{
    if args.len() == 0 {
        let empty: Vec<String> = Vec::new();
        assert(args.deep_view() =~= empty.deep_view());
        return Subcommand::Connect(empty);
    }
    let first = &args[0];
    assert(args.deep_view()[0] == first@);
    if *first == "list".to_owned() || *first == "ls".to_owned() {
        Subcommand::List
    } else if *first == "attach".to_owned() {
        Subcommand::Attach(tail_strings(args))
    } else if *first == "kill".to_owned() {
        Subcommand::Kill(tail_strings(args))
    } else if *first == "clean".to_owned() {
        Subcommand::Clean
    } else {
        Subcommand::Connect(clone_strings(args))
    }
}

/// A setting given on the command line wins over the configured one.
pub fn effective_setting(cli: &Option<String>, configured: &Option<String>) -> (r: Option<String>)
    ensures
        r.deep_view() == (match cli.deep_view() {
            Some(c) => Some(c),
            None => configured.deep_view(),
        }),
{
    match cli {
        Some(c) => Some(c.clone()),
        None => match configured {
            Some(c) => Some(c.clone()),
            None => None,
        },
    }
}

/// The words after `kill` are the sessions to kill, all of them, in order.
pub proof fn kill_takes_the_named_sessions(names: Seq<Seq<char>>)
    ensures
        subcommand_of(seq!["kill"@] + names) == SubcommandView::Kill(names),
{
    reveal_strlit("kill");
    reveal_strlit("list");
    reveal_strlit("ls");
    reveal_strlit("attach");
    let args = seq!["kill"@] + names;
    assert(args[0] == "kill"@);
    assert("kill"@[0] != "list"@[0]);
    assert("kill"@ != "list"@);
    assert("kill"@.len() != "ls"@.len());
    assert("kill"@.len() != "attach"@.len());
    assert(args.drop_first() =~= names);
}

/// The words after `attach` are extra SSH arguments, all of them, in order.
pub proof fn attach_takes_the_ssh_arguments(extra: Seq<Seq<char>>)
    ensures
        subcommand_of(seq!["attach"@] + extra) == SubcommandView::Attach(extra),
{
    reveal_strlit("attach");
    reveal_strlit("list");
    reveal_strlit("ls");
    let args = seq!["attach"@] + extra;
    assert(args[0] == "attach"@);
    assert("attach"@.len() != "list"@.len());
    assert("attach"@.len() != "ls"@.len());
    assert(args.drop_first() =~= extra);
}

/// Words that do not start with a subcommand are all SSH arguments of a new session.
pub proof fn other_words_connect(args: Seq<Seq<char>>)
    requires
        args.len() > 0 ==> (args[0] != "list"@ && args[0] != "ls"@ && args[0] != "attach"@ && args[0]
            != "kill"@ && args[0] != "clean"@),
    ensures
        subcommand_of(args) == SubcommandView::Connect(args),
{
}

} // verus!
