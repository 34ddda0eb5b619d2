use vstd::prelude::*;
use vstd::string::StringExecFns;

use crate::text::concat;

verus! {

/// How sshr reaches hosts: the ssh program, and the directory of the control sockets
/// through which connections to a host share one master.
pub struct SshContext {
    pub control_dir: String,
    pub control_path: String,
    pub ssh_cmd: String,
}

/// The control path template for sockets in `dir`.
pub open spec fn control_path_in(dir: Seq<char>) -> Seq<char> {
    dir + "/%r@%h:%p"@
}

/// The argument `ControlPath=...` for a control path.
pub open spec fn control_path_arg(control_path: Seq<char>) -> Seq<char> {
    "ControlPath="@ + control_path
}

/// The multiplexing options: share a master, kept for ten minutes after its last user.
pub open spec fn mux_options(control_path: Seq<char>) -> Seq<Seq<char>> {
    seq!["-o"@, "ControlMaster=auto"@, "-o"@, control_path_arg(control_path), "-o"@, "ControlPersist=10m"@]
}

/// The scp form of ssh options: `-p` (a port for ssh) becomes `-P`.
pub open spec fn scp_options(args: Seq<Seq<char>>) -> Seq<Seq<char>> {
    Seq::new(args.len(), |i: int| if args[i] == "-p"@ { "-P"@ } else { args[i] })
}

fn push_str(v: &mut Vec<String>, s: &str)
    ensures
        final(v).deep_view() == old(v).deep_view().push(s@),
{
    let ghost before = v.deep_view();
    v.push(s.to_owned());
    assert(v.deep_view() =~= before.push(s@));
}

fn push_all(v: &mut Vec<String>, more: &Vec<String>)
    ensures
        final(v).deep_view() == old(v).deep_view() + more.deep_view(),
{
    let ghost start = v.deep_view();
    for i in 0..more.len()
        invariant
            v.deep_view() == start + more.deep_view().take(i as int),
    {
        let ghost before = v.deep_view();
        push_str(v, more[i].as_str());
        assert(more.deep_view().take(i + 1) =~= more.deep_view().take(i as int).push(more[i as int]@));
        assert(v.deep_view() =~= start + more.deep_view().take(i + 1));
    }
    assert(more.deep_view().take(more.len() as int) =~= more.deep_view());
}

/// Translates ssh-style arguments for scp, which takes the port as `-P`.
pub fn translate_for_scp(args: &Vec<String>) -> (r: Vec<String>)
    ensures
        r.deep_view() == scp_options(args.deep_view()),
{
    let mut out: Vec<String> = Vec::new();
    let dash_p = "-p".to_owned();
    let mut i: usize = 0;
    while i < args.len()
        invariant
            dash_p@ == "-p"@,
            0 <= i <= args@.len(),
            out.deep_view() == scp_options(args.deep_view()).take(i as int),
        decreases args@.len() - i,
    {
        let ghost before = out.deep_view();
        if args[i] == dash_p {
            push_str(&mut out, "-P");
        } else {
            push_str(&mut out, args[i].as_str());
        }
        assert(out.deep_view() =~= scp_options(args.deep_view()).take(i + 1));
        i += 1;
    }
    assert(scp_options(args.deep_view()).take(args.len() as int) =~= scp_options(args.deep_view()));
    out
}

impl SshContext {
    /// The context for the ssh program `ssh_cmd` with its control sockets in
    /// `control_dir`.
    pub fn with_control_dir(ssh_cmd: &str, control_dir: &str) -> (r: SshContext)
        ensures
            r.ssh_cmd@ == ssh_cmd@,
            r.control_dir@ == control_dir@,
            r.control_path@ == control_path_in(control_dir@),
    {
        SshContext {
            control_dir: control_dir.to_owned(),
            control_path: concat(control_dir, "/%r@%h:%p"),
            ssh_cmd: ssh_cmd.to_owned(),
        }
    }

    pub fn mux_args(&self) -> (r: Vec<String>)
        ensures
            r.deep_view() == mux_options(self.control_path@),
    {
        let mut v: Vec<String> = Vec::new();
        push_str(&mut v, "-o");
        push_str(&mut v, "ControlMaster=auto");
        push_str(&mut v, "-o");
        let cp = concat("ControlPath=", self.control_path.as_str());
        push_str(&mut v, cp.as_str());
        push_str(&mut v, "-o");
        push_str(&mut v, "ControlPersist=10m");
        assert(v.deep_view() =~= mux_options(self.control_path@));
        v
    }

    /// The arguments (after the program) of a control request `op` to the master.
    pub fn control_args(&self, op: &str, host: &str, extra_args: &Vec<String>) -> (r: Vec<String>)
        ensures
            r.deep_view() == seq!["-O"@, op@, "-o"@, control_path_arg(self.control_path@), host@]
                + extra_args.deep_view(),
    {
        let mut v: Vec<String> = Vec::new();
        push_str(&mut v, "-O");
        push_str(&mut v, op);
        push_str(&mut v, "-o");
        let cp = concat("ControlPath=", self.control_path.as_str());
        push_str(&mut v, cp.as_str());
        push_str(&mut v, host);
        assert(v.deep_view() =~= seq!["-O"@, op@, "-o"@, control_path_arg(self.control_path@), host@]);
        push_all(&mut v, extra_args);
        v
    }

    /// The arguments (after the program) of an interactive session, with a terminal
    /// for the remote command when there is one.
    pub fn interactive_args(&self, host: &str, extra_args: &Vec<String>, remote_cmd: Option<&str>) -> (r: Vec<String>)
        ensures
            r.deep_view() == mux_options(self.control_path@) + seq![host@] + extra_args.deep_view()
                + match remote_cmd {
                Some(c) => seq!["-t"@, c@],
                None => Seq::empty(),
            },
    {
        let mut v = self.mux_args();
        push_str(&mut v, host);
        push_all(&mut v, extra_args);
        let ghost before = v.deep_view();
        match remote_cmd {
            Some(c) => {
                push_str(&mut v, "-t");
                push_str(&mut v, c);
                assert(v.deep_view() =~= before + seq!["-t"@, c@]);
            },
            None => {
                assert(v.deep_view() =~= before + Seq::<Seq<char>>::empty());
            },
        }
        v
    }

    /// The arguments (after the program) that run `remote_cmd` and capture its output.
    pub fn capture_args(&self, host: &str, extra_args: &Vec<String>, remote_cmd: &str) -> (r: Vec<String>)
        ensures
            r.deep_view() == mux_options(self.control_path@) + seq![host@] + extra_args.deep_view()
                + seq![remote_cmd@],
    {
        let mut v = self.mux_args();
        push_str(&mut v, host);
        push_all(&mut v, extra_args);
        push_str(&mut v, remote_cmd);
        v
    }

    /// The arguments of scp that upload `local` to `remote` on `host` through the
    /// shared control socket.
    pub fn scp_args(&self, host: &str, extra_args: &Vec<String>, local: &str, remote: &str) -> (r: Vec<String>)
        ensures
            r.deep_view() == seq!["-o"@, control_path_arg(self.control_path@)] + scp_options(
                extra_args.deep_view(),
            ) + seq![local@, host@ + ":"@ + remote@],
    {
        let mut v: Vec<String> = Vec::new();
        push_str(&mut v, "-o");
        let cp = concat("ControlPath=", self.control_path.as_str());
        push_str(&mut v, cp.as_str());
        let translated = translate_for_scp(extra_args);
        push_all(&mut v, &translated);
        push_str(&mut v, local);
        let mut target = concat(host, ":");
        target.append(remote);
        push_str(&mut v, target.as_str());
        v
    }

    /// What to do after checking the master for `host`: nothing when the check
    /// succeeded, else remove the sockets that match the returned pattern, which the
    /// dead master left behind.
    pub fn clean_stale_master(&self, host: &str, check_succeeded: bool) -> (r: Option<String>)
        ensures
            check_succeeded ==> r is None,
            !check_succeeded ==> r.deep_view() == Some(self.control_dir@ + "/*@"@ + host@ + ":*"@),
    {
        if check_succeeded {
            None
        } else {
            let mut p = concat(self.control_dir.as_str(), "/*@");
            p.append(host);
            p.append(":*");
            Some(p)
        }
    }
}

} // verus!
