use vstd::prelude::*;
use vstd::string::StringExecFns;

use crate::config::{glob_match, glob_matches_str, CopyDirective, CopyView};
use crate::glob::{has_no_star, wildcard_matches};
use vstd::utf8::encode_utf8;
use crate::text::{concat, has_prefix, starts_with, words, words_of};

verus! {

/// Matches a file name against an exclusion pattern (`*` any run of bytes, `?` one).
pub fn glob_match_simple(pattern: &str, text: &str) -> (r: bool)
    ensures
        r == glob_matches_str(pattern@, text@),
        has_no_star(encode_utf8(text@)) ==> r == wildcard_matches(encode_utf8(pattern@), encode_utf8(text@)),
{
    glob_match(pattern, text)
}

/// `p` joined to the directory `base`, as `PathBuf::join` joins a relative path on
/// Unix: a separator goes between them unless `base` is empty or already ends with one.
pub open spec fn path_join(base: Seq<char>, p: Seq<char>) -> Seq<char> {
    if base.len() == 0 || base.last() == '/' {
        base + p
    } else {
        base + seq!['/'] + p
    }
}

pub fn join_path(base: &str, p: &str) -> (r: String)
    ensures
        r@ == path_join(base@, p@),
{
    let n = base.unicode_len();
    if n == 0 || base.get_char(n - 1) == '/' {
        concat(base, p)
    } else {
        let mut r = concat(base, "/");
        r.append(p);
        proof {
            reveal_strlit("/");
            assert(r@ =~= base@ + seq!['/'] + p@);
        }
        r
    }
}

/// The local path that a source word names: absolute as written, else under `home`.
pub open spec fn source_path(home: Seq<char>, p: Seq<char>) -> Seq<char> {
    if has_prefix(p, "/"@) {
        p
    } else {
        path_join(home, p)
    }
}

/// The glob pattern that a source word gives: absolute as written, else under `home`.
pub open spec fn source_pattern(home: Seq<char>, p: Seq<char>) -> Seq<char> {
    if has_prefix(p, "/"@) {
        p
    } else {
        home + "/"@ + p
    }
}

/// What a copy directive's source names: paths, or glob patterns still to be expanded.
pub enum Sources {
    Paths(Vec<String>),
    Patterns(Vec<String>),
}

/// Each word of the directive's source, made into a path or (for a glob directive) a
/// pattern, in order.
pub open spec fn sources_of(home: Seq<char>, src: Seq<char>, glob: bool) -> Seq<Seq<char>> {
    let ws = words(src);
    Seq::new(ws.len(), |i: int| if glob { source_pattern(home, ws[i]) } else { source_path(home, ws[i]) })
}

pub fn resolve_sources(home: &str, copy: &CopyDirective) -> (r: Sources)
    ensures
        match r {
            Sources::Paths(v) => !copy.glob && v.deep_view() == sources_of(home@, copy.src@, false),
            Sources::Patterns(v) => copy.glob && v.deep_view() == sources_of(home@, copy.src@, true),
        },
{
    let parts = words_of(copy.src.as_str());
    let mut out: Vec<String> = Vec::new();
    let ghost ws = parts.deep_view();
    for i in 0..parts.len()
        invariant
            ws == parts.deep_view(),
            ws == words(copy.src@),
            out.deep_view() == sources_of(home@, copy.src@, copy.glob).take(i as int),
    {
        let p = parts[i].as_str();
        let item = if starts_with(p, "/") {
            p.to_owned()
        } else if copy.glob {
            let mut full = concat(home, "/");
            full.append(p);
            full
        } else {
            join_path(home, p)
        };
        assert(parts[i as int]@ == ws[i as int]);
        assert(item@ == sources_of(home@, copy.src@, copy.glob)[i as int]);
        let ghost before = out.deep_view();
        out.push(item);
        assert(out.deep_view() == before.push(item@));
        assert(out.deep_view() =~= sources_of(home@, copy.src@, copy.glob).take(i + 1));
    }
    assert(sources_of(home@, copy.src@, copy.glob).take(parts.len() as int) =~= sources_of(home@, copy.src@, copy.glob));
    if copy.glob {
        Sources::Patterns(out)
    } else {
        Sources::Paths(out)
    }
}

/// Result of std's `Path::strip_prefix`, read as text: the path relative to `base` when
/// `base` is a leading run of its components.
pub uninterp spec fn path_strip_prefix(path: Seq<char>, base: Seq<char>) -> Option<Seq<char>>;

/// Result of std's `Path::parent`, read as text.
pub uninterp spec fn path_parent(path: Seq<char>) -> Option<Seq<char>>;

/// Result of std's `Path::file_name`, read as text.
pub uninterp spec fn path_file_name(path: Seq<char>) -> Option<Seq<char>>;

/// std's `Path::strip_prefix`. The contract names its result, which depends on the two
/// paths alone; the component rules are not restated.
#[verifier::external_body]
fn strip_path_prefix(path: &str, base: &str) -> (r: Option<String>)
    ensures
        r.deep_view() == path_strip_prefix(path@, base@),
{
    match std::path::Path::new(path).strip_prefix(base) {
        Ok(p) => Some(p.to_string_lossy().into_owned()),
        Err(_) => None,
    }
}

/// std's `Path::parent`. The contract names its result, which depends on the path
/// alone.
#[verifier::external_body]
fn parent_path(path: &str) -> (r: Option<String>)
    ensures
        r.deep_view() == path_parent(path@),
{
    match std::path::Path::new(path).parent() {
        Some(p) => Some(p.to_string_lossy().into_owned()),
        None => None,
    }
}

/// std's `Path::file_name`. The contract names its result, which depends on the path
/// alone.
#[verifier::external_body]
fn file_name_of(path: &str) -> (r: Option<String>)
    ensures
        r.deep_view() == path_file_name(path@),
{
    match std::path::Path::new(path).file_name() {
        Some(n) => Some(n.to_string_lossy().into_owned()),
        None => None,
    }
}

/// Some exclusion pattern matches the name.
pub open spec fn excluded(excludes: Seq<Seq<char>>, name: Seq<char>) -> bool {
    exists|i: int| 0 <= i < excludes.len() && glob_matches_str(#[trigger] excludes[i], name)
}

pub fn is_excluded(excludes: &Vec<String>, name: &str) -> (r: bool)
    ensures
        r == excluded(excludes.deep_view(), name@),
{
    let ghost ex = excludes.deep_view();
    for i in 0..excludes.len()
        invariant
            ex == excludes.deep_view(),
            forall|k: int| 0 <= k < i ==> !glob_matches_str(#[trigger] ex[k], name@),
    {
        if glob_match_simple(excludes[i].as_str(), name) {
            assert(glob_matches_str(ex[i as int], name@));
            return true;
        }
    }
    false
}

/// What to do with one local source path.
pub enum CopyStep {
    /// The path does not exist: skip it.
    Missing,
    /// An exclusion pattern matches its name: skip it.
    Excluded,
    /// Copy the directory, recursively, to this path under the remote home.
    Directory { remote: String },
    /// Make the remote directory first (when there is one to make), then upload the file
    /// to the target.
    File { mkdir: Option<String>, target: String },
}

pub enum CopyStepView {
    Missing,
    Excluded,
    Directory { remote: Seq<char> },
    File { mkdir: Option<Seq<char>>, target: Seq<char> },
}

impl DeepView for CopyStep {
    type V = CopyStepView;

    open spec fn deep_view(&self) -> CopyStepView {
        match self {
            CopyStep::Missing => CopyStepView::Missing,
            CopyStep::Excluded => CopyStepView::Excluded,
            CopyStep::Directory { remote } => CopyStepView::Directory { remote: remote@ },
            CopyStep::File { mkdir, target } => CopyStepView::File { mkdir: mkdir.deep_view(), target: target@ },
        }
    }
}

/// Where a local path goes, relative to the remote home: the destination when one is
/// given, else the path relative to the local home (`relative`), or the path itself
/// when it is not under the home.
pub open spec fn remote_of(dest: Option<Seq<char>>, relative: Option<Seq<char>>, local: Seq<char>) -> Seq<char> {
    match dest {
        Some(d) => d,
        None => match relative {
            Some(rel) => rel,
            None => local,
        },
    }
}

/// Where a local path under the local home `home` goes.
pub open spec fn remote_path_of(dest: Option<Seq<char>>, home: Seq<char>, local: Seq<char>) -> Seq<char> {
    remote_of(dest, path_strip_prefix(local, home), local)
}

/// The copy rules for one local path, given its file name, its path relative to the
/// local home and the parent of where it goes: skip what is missing, then what an
/// exclusion matches by file name; copy a directory recursively; make a file's remote
/// directory (when it has a non-empty one) and upload it.
pub open spec fn copy_decision(
    c: CopyView,
    local: Seq<char>,
    exists: bool,
    is_dir: bool,
    name: Option<Seq<char>>,
    relative: Option<Seq<char>>,
    remote_parent: Option<Seq<char>>,
) -> CopyStepView {
    let file_name = match name {
        Some(n) => n,
        None => Seq::empty(),
    };
    let remote = remote_of(c.dest, relative, local);
    if !exists {
        CopyStepView::Missing
    } else if excluded(c.excludes, file_name) {
        CopyStepView::Excluded
    } else if is_dir {
        CopyStepView::Directory { remote }
    } else {
        CopyStepView::File {
            mkdir: match remote_parent {
                Some(dir) => if dir.len() > 0 {
                    Some("mkdir -p ~/"@ + dir)
                } else {
                    None
                },
                None => None,
            },
            target: "~/"@ + remote,
        }
    }
}

/// The copy rules for one local path under the local home `home`, with std's path
/// functions applied to it.
pub open spec fn copy_step(c: CopyView, home: Seq<char>, local: Seq<char>, exists: bool, is_dir: bool) -> CopyStepView {
    copy_decision(
        c,
        local,
        exists,
        is_dir,
        path_file_name(local),
        path_strip_prefix(local, home),
        path_parent(remote_path_of(c.dest, home, local)),
    )
}

/// Where a local path goes, relative to the remote home.
pub fn remote_path(dest: &Option<String>, relative: &Option<String>, local: &str) -> (r: String)
    ensures
        r@ == remote_of(dest.deep_view(), relative.deep_view(), local@),
{
    match dest {
        Some(d) => d.clone(),
        None => match relative {
            Some(rel) => rel.clone(),
            None => local.to_owned(),
        },
    }
}

/// What to do with the local path `local` of the directive `copy`, given whether it
/// exists, whether it is a directory, its file name, its path relative to the local
/// home, and the parent of where it goes.
pub fn decide_copy(
    copy: &CopyDirective,
    local: &str,
    exists: bool,
    is_dir: bool,
    name: &Option<String>,
    relative: &Option<String>,
    remote_parent: &Option<String>,
) -> (r: CopyStep)
    ensures
        r.deep_view() == copy_decision(
            copy.deep_view(),
            local@,
            exists,
            is_dir,
            name.deep_view(),
            relative.deep_view(),
            remote_parent.deep_view(),
        ),
{
    if !exists {
        return CopyStep::Missing;
    }
    let file_name = match name {
        Some(n) => n.clone(),
        None => String::new(),
    };
    if is_excluded(&copy.excludes, file_name.as_str()) {
        return CopyStep::Excluded;
    }
    let remote = remote_path(&copy.dest, relative, local);
    if is_dir {
        return CopyStep::Directory { remote };
    }
    let mkdir = match remote_parent {
        Some(dir) => if !dir.as_str().is_empty() {
            Some(concat("mkdir -p ~/", dir.as_str()))
        } else {
            None
        },
        None => None,
    };
    CopyStep::File { mkdir, target: concat("~/", remote.as_str()) }
}

/// What to do with the local path `local` of the directive `copy`, given whether it
/// exists and whether it is a directory.
pub fn plan_copy(copy: &CopyDirective, home: &str, local: &str, exists: bool, is_dir: bool) -> (r: CopyStep)
    ensures
        r.deep_view() == copy_step(copy.deep_view(), home@, local@, exists, is_dir),
{
    let name = file_name_of(local);
    let relative = strip_path_prefix(local, home);
    let remote = remote_path(&copy.dest, &relative, local);
    let remote_parent = parent_path(remote.as_str());
    decide_copy(copy, local, exists, is_dir, &name, &relative, &remote_parent)
}

/// The remote command that makes the directory `remote_dir` under the remote home.
pub fn remote_mkdir_command(remote_dir: &str) -> (r: String)
    ensures
        r@ == "mkdir -p ~/"@ + remote_dir@,
{
    concat("mkdir -p ~/", remote_dir)
}

/// The remote path of the entry `name` of the copied directory `remote_dir`.
pub fn remote_child(remote_dir: &str, name: &str) -> (r: String)
    ensures
        r@ == remote_dir@ + "/"@ + name@,
{
    let mut r = concat(remote_dir, "/");
    r.append(name);
    r
}

/// The scp target for `remote` under the remote home.
pub fn remote_target(remote: &str) -> (r: String)
    ensures
        r@ == "~/"@ + remote@,
{
    concat("~/", remote)
}

/// Where copying the configured files stands between two outside steps.
#[derive(PartialEq, Eq, Structural, Clone, Copy, Debug)]
pub enum CopyStage {
    /// Waiting for the glob patterns of the directive in hand to be expanded.
    Expanding,
    /// Waiting to learn whether the path in hand exists and is a directory.
    Inspecting,
    /// Waiting for the step decided for the path in hand to be carried out.
    Handling,
    /// All directives are done.
    Finished,
}

/// The progress through the directives: the directive in hand, its local paths once
/// known, and the path in hand.
pub struct CopyProgress {
    pub directive: usize,
    pub paths: Vec<String>,
    pub next: usize,
    pub stage: CopyStage,
}

pub struct CopyProgressView {
    pub directive: int,
    pub paths: Seq<Seq<char>>,
    pub next: int,
    pub stage: CopyStage,
}

impl View for CopyProgress {
    type V = CopyProgressView;

    open spec fn view(&self) -> CopyProgressView {
        CopyProgressView {
            directive: self.directive as int,
            paths: self.paths.deep_view(),
            next: self.next as int,
            stage: self.stage,
        }
    }
}

/// The outside step to take next.
pub enum CopyAction {
    /// Expand these glob patterns and hand back the paths that they match, in order.
    Expand(Vec<String>),
    /// Find out whether this local path exists and whether it is a directory.
    Inspect(String),
    /// Carry out the step decided for this local path.
    Handle { local: String, step: CopyStep },
    /// Stop: every directive is done.
    Finish,
}

pub enum CopyActionView {
    Expand(Seq<Seq<char>>),
    Inspect(Seq<char>),
    Handle { local: Seq<char>, step: CopyStepView },
    Finish,
}

impl DeepView for CopyAction {
    type V = CopyActionView;

    open spec fn deep_view(&self) -> CopyActionView {
        match self {
            CopyAction::Expand(p) => CopyActionView::Expand(p.deep_view()),
            CopyAction::Inspect(l) => CopyActionView::Inspect(l@),
            CopyAction::Handle { local, step } => CopyActionView::Handle { local: local@, step: step.deep_view() },
            CopyAction::Finish => CopyActionView::Finish,
        }
    }
}

/// What the outside step found or did.
pub enum CopyEvent {
    /// The paths that the patterns matched.
    Expanded(Vec<String>),
    /// Whether the path exists, and whether it is a directory.
    Inspected { exists: bool, is_dir: bool },
    /// The step for the path was carried out.
    Handled,
}

pub enum CopyEventView {
    Expanded(Seq<Seq<char>>),
    Inspected { exists: bool, is_dir: bool },
    Handled,
}

impl DeepView for CopyEvent {
    type V = CopyEventView;

    open spec fn deep_view(&self) -> CopyEventView {
        match self {
            CopyEvent::Expanded(p) => CopyEventView::Expanded(p.deep_view()),
            CopyEvent::Inspected { exists, is_dir } => CopyEventView::Inspected { exists: *exists, is_dir: *is_dir },
            CopyEvent::Handled => CopyEventView::Handled,
        }
    }
}

/// The state after the last directive.
pub open spec fn copy_finished(d: int) -> (CopyProgressView, CopyActionView) {
    (CopyProgressView { directive: d, paths: Seq::empty(), next: 0, stage: CopyStage::Finished }, CopyActionView::Finish)
}

/// Taking up the directives from `d` on: a glob directive first has its patterns
/// expanded; any other has its paths looked at one by one; a directive without paths is
/// passed over; after the last, the run finishes.
pub open spec fn copy_enter(cs: Seq<CopyView>, home: Seq<char>, d: int) -> (CopyProgressView, CopyActionView)
    decreases cs.len() - d,
{
    if d < 0 || d >= cs.len() {
        copy_finished(d)
    } else {
        let srcs = sources_of(home, cs[d].src, cs[d].glob);
        if cs[d].glob {
            (CopyProgressView { directive: d, paths: Seq::empty(), next: 0, stage: CopyStage::Expanding }, CopyActionView::Expand(srcs))
        } else if srcs.len() > 0 {
            (CopyProgressView { directive: d, paths: srcs, next: 0, stage: CopyStage::Inspecting }, CopyActionView::Inspect(srcs[0]))
        } else {
            copy_enter(cs, home, d + 1)
        }
    }
}

/// Taking up path `i` of the paths `ps` of directive `d`, or the next directive once
/// they are all done.
pub open spec fn copy_begin(cs: Seq<CopyView>, home: Seq<char>, d: int, ps: Seq<Seq<char>>, i: int) -> (CopyProgressView, CopyActionView) {
    if 0 <= i < ps.len() {
        (CopyProgressView { directive: d, paths: ps, next: i, stage: CopyStage::Inspecting }, CopyActionView::Inspect(ps[i]))
    } else {
        copy_enter(cs, home, d + 1)
    }
}

/// The outcome is one that the progress waits for.
pub open spec fn copy_event_fits(cs: Seq<CopyView>, st: CopyProgressView, ev: CopyEventView) -> bool {
    &&& 0 <= st.directive < cs.len()
    &&& match st.stage {
        CopyStage::Expanding => ev is Expanded,
        CopyStage::Inspecting => ev is Inspected && 0 <= st.next < st.paths.len(),
        CopyStage::Handling => ev is Handled && 0 <= st.next < st.paths.len(),
        CopyStage::Finished => false,
    }
}

/// The copy rules, step by step: each path of each directive, in order, is looked at and
/// then handled as `copy_step` decides.
pub open spec fn copy_next(cs: Seq<CopyView>, home: Seq<char>, st: CopyProgressView, ev: CopyEventView) -> (CopyProgressView, CopyActionView) {
    match (st.stage, ev) {
        (CopyStage::Expanding, CopyEventView::Expanded(ps)) => copy_begin(cs, home, st.directive, ps, 0),
        (CopyStage::Inspecting, CopyEventView::Inspected { exists, is_dir }) => (
            CopyProgressView { stage: CopyStage::Handling, ..st },
            CopyActionView::Handle {
                local: st.paths[st.next],
                step: copy_step(cs[st.directive], home, st.paths[st.next], exists, is_dir),
            },
        ),
        (CopyStage::Handling, CopyEventView::Handled) => copy_begin(cs, home, st.directive, st.paths, st.next + 1),
        _ => copy_finished(st.directive),
    }
}

fn copy_enter_from(copies: &Vec<CopyDirective>, home: &str, d: usize) -> (r: (CopyProgress, CopyAction))
    requires
        d <= copies.len(),
    ensures
        (r.0@, r.1.deep_view()) == copy_enter(copies.deep_view(), home@, d as int),
{
    let ghost cs = copies.deep_view();
    let mut k = d;
    loop
        invariant
            cs == copies.deep_view(),
            d <= k <= copies.len(),
            copy_enter(cs, home@, k as int) == copy_enter(cs, home@, d as int),
        decreases copies.len() - k,
    {
        if k == copies.len() {
            let r = (CopyProgress { directive: k, paths: Vec::new(), next: 0, stage: CopyStage::Finished }, CopyAction::Finish);
            assert(r.0@.paths =~= Seq::<Seq<char>>::empty());
            assert((r.0@, r.1.deep_view()) == copy_enter(cs, home@, k as int));
            return r;
        }
        assert(copies[k as int].deep_view() == cs[k as int]);
        match resolve_sources(home, &copies[k]) {
            Sources::Patterns(p) => {
                let r = (CopyProgress { directive: k, paths: Vec::new(), next: 0, stage: CopyStage::Expanding }, CopyAction::Expand(p));
                assert(r.0@.paths =~= Seq::<Seq<char>>::empty());
                assert((r.0@, r.1.deep_view()) == copy_enter(cs, home@, k as int));
                return r;
            },
            Sources::Paths(ps) => {
                if ps.len() > 0 {
                    let first = ps[0].clone();
                    assert(ps.deep_view()[0] == ps@[0]@);
                    let r = (CopyProgress { directive: k, paths: ps, next: 0, stage: CopyStage::Inspecting }, CopyAction::Inspect(first));
                    assert((r.0@, r.1.deep_view()) == copy_enter(cs, home@, k as int));
                    return r;
                }
                assert(ps.deep_view().len() == 0);
                k = k + 1;
            },
        }
    }
}

fn copy_begin_at(copies: &Vec<CopyDirective>, home: &str, d: usize, ps: Vec<String>, i: usize) -> (r: (CopyProgress, CopyAction))
    requires
        d < copies.len(),
    ensures
        (r.0@, r.1.deep_view()) == copy_begin(copies.deep_view(), home@, d as int, ps.deep_view(), i as int),
{
    if i < ps.len() {
        let local = ps[i].clone();
        assert(ps.deep_view()[i as int] == ps@[i as int]@);
        (CopyProgress { directive: d, paths: ps, next: i, stage: CopyStage::Inspecting }, CopyAction::Inspect(local))
    } else {
        copy_enter_from(copies, home, d + 1)
    }
}

/// Starts copying the files of `copies` (paths under the local home `home`) to the
/// remote.
pub fn run_copy_directives(copies: &Vec<CopyDirective>, home: &str) -> (r: (CopyProgress, CopyAction))
    ensures
        (r.0@, r.1.deep_view()) == copy_enter(copies.deep_view(), home@, 0),
{
    copy_enter_from(copies, home, 0)
}

/// Whether the progress waits for `event`.
pub fn copy_accepts(copies: &Vec<CopyDirective>, state: &CopyProgress, event: &CopyEvent) -> (r: bool)
    ensures
        r == copy_event_fits(copies.deep_view(), state@, event.deep_view()),
{
    if state.directive >= copies.len() {
        return false;
    }
    match state.stage {
        CopyStage::Expanding => match event {
            CopyEvent::Expanded(_) => true,
            _ => false,
        },
        CopyStage::Inspecting => match event {
            CopyEvent::Inspected { .. } => state.next < state.paths.len(),
            _ => false,
        },
        CopyStage::Handling => match event {
            CopyEvent::Handled => state.next < state.paths.len(),
            _ => false,
        },
        CopyStage::Finished => false,
    }
}

/// The next step of copying, given what the last one found or did.
pub fn copy_directives_step(copies: &Vec<CopyDirective>, home: &str, state: CopyProgress, event: CopyEvent) -> (r: (CopyProgress, CopyAction))
    requires
        copy_event_fits(copies.deep_view(), state@, event.deep_view()),
    ensures
        (r.0@, r.1.deep_view()) == copy_next(copies.deep_view(), home@, state@, event.deep_view()),
{
    let ghost st = state@;
    let CopyProgress { directive, paths, next, stage } = state;
    match event {
        CopyEvent::Expanded(ps) => copy_begin_at(copies, home, directive, ps, 0),
        CopyEvent::Inspected { exists, is_dir } => {
            let local = paths[next].clone();
            assert(copies[directive as int].deep_view() == copies.deep_view()[directive as int]);
            let step = plan_copy(&copies[directive], home, local.as_str(), exists, is_dir);
            (CopyProgress { directive, paths, next, stage: CopyStage::Handling }, CopyAction::Handle { local, step })
        },
        CopyEvent::Handled => {
            assert(st.stage == CopyStage::Handling);
            assert(st.paths == paths.deep_view());
            assert(paths.deep_view().len() == paths@.len());
            let count = paths.len();
            assert(next < count);
            copy_begin_at(copies, home, directive, paths, next + 1)
        },
    }
}

proof fn lemma_enter_moves_forward(cs: Seq<CopyView>, home: Seq<char>, d: int)
    requires
        0 <= d <= cs.len(),
    ensures
        copy_enter(cs, home, d).0.directive >= d,
        copy_enter(cs, home, d).1 is Finish <==> copy_enter(cs, home, d).0.directive == cs.len(),
        copy_enter(cs, home, d).0.directive <= cs.len(),
    decreases cs.len() - d,
{
    if d < cs.len() {
        let srcs = sources_of(home, cs[d].src, cs[d].glob);
        if !cs[d].glob && srcs.len() == 0 {
            lemma_enter_moves_forward(cs, home, d + 1);
        }
    }
}

/// The directives are worked through in order: no step goes back to an earlier
/// directive, and the run finishes exactly when it has gone past the last one.
pub proof fn directives_are_taken_in_order(cs: Seq<CopyView>, home: Seq<char>, st: CopyProgressView, ev: CopyEventView)
    requires
        copy_event_fits(cs, st, ev),
    ensures
        copy_next(cs, home, st, ev).0.directive >= st.directive,
        copy_next(cs, home, st, ev).1 is Finish <==> copy_next(cs, home, st, ev).0.directive == cs.len(),
        copy_enter(cs, home, 0).1 is Finish <==> copy_enter(cs, home, 0).0.directive == cs.len(),
{
    lemma_enter_moves_forward(cs, home, st.directive + 1);
    lemma_enter_moves_forward(cs, home, 0);
}

/// A path that exists and whose file name an exclusion pattern matches is skipped,
/// whether it is a file or a directory.
pub proof fn excluded_paths_are_skipped(
    c: CopyView,
    local: Seq<char>,
    is_dir: bool,
    name: Seq<char>,
    relative: Option<Seq<char>>,
    remote_parent: Option<Seq<char>>,
)
    requires
        exists|i: int| 0 <= i < c.excludes.len() && glob_matches_str(#[trigger] c.excludes[i], name),
    ensures
        copy_decision(c, local, true, is_dir, Some(name), relative, remote_parent) == CopyStepView::Excluded,
{
}

/// A path that does not exist is skipped, whatever else is known of it.
pub proof fn missing_paths_are_skipped(
    c: CopyView,
    local: Seq<char>,
    is_dir: bool,
    name: Option<Seq<char>>,
    relative: Option<Seq<char>>,
    remote_parent: Option<Seq<char>>,
)
    ensures
        copy_decision(c, local, false, is_dir, name, relative, remote_parent) == CopyStepView::Missing,
{
}

/// A directory that exists and that no exclusion matches is copied to the destination
/// when one is given, else to its place relative to the home.
pub proof fn directories_are_copied_to_their_place(
    c: CopyView,
    local: Seq<char>,
    name: Seq<char>,
    relative: Seq<char>,
    remote_parent: Option<Seq<char>>,
)
    requires
        forall|i: int| 0 <= i < c.excludes.len() ==> !glob_matches_str(#[trigger] c.excludes[i], name),
    ensures
        copy_decision(c, local, true, true, Some(name), Some(relative), remote_parent) == (CopyStepView::Directory {
            remote: match c.dest {
                Some(d) => d,
                None => relative,
            },
        }),
{
}

} // verus!
