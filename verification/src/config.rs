use vstd::prelude::*;
use vstd::string::StringSliceAdditionalSpecFns;
use vstd::utf8::{
    char_u32_cast, encode_scalar, encode_utf8, encode_utf8_decode_utf8, last_continuation_byte, leading_byte_width_1,
    leading_byte_width_2, leading_byte_width_3, leading_byte_width_4, second_last_continuation_byte,
    third_last_continuation_byte,
};

use crate::glob::{
    glob_result, has_no_star, literal_pattern_accepts_itself_only, lone_star_accepts, wildcard_match,
    wildcard_matches,
};
use crate::text::{
    append_chars, chars_of, first_index, is_alphanumeric, lemma_first_index, push_char,
    replace_all, replaced, split_once, split_once_char, string_from_range, unicode_alphanumeric,
};
use vstd::string::StringExecFns;

verus! {

/// An environment assignment to make on the remote: name and value.
pub enum EnvDirective {
    Assign(String, String),
}

impl DeepView for EnvDirective {
    type V = (Seq<char>, Seq<char>);

    open spec fn deep_view(&self) -> (Seq<char>, Seq<char>) {
        match self {
            EnvDirective::Assign(name, value) => (name@, value@),
        }
    }
}

impl Clone for EnvDirective {
    fn clone(&self) -> (r: Self)
        ensures
            r.deep_view() == self.deep_view(),
    {
        match self {
            EnvDirective::Assign(name, value) => EnvDirective::Assign(name.clone(), value.clone()),
        }
    }
}

/// A file or set of files to copy to the remote.
pub struct CopyDirective {
    pub src: String,
    pub dest: Option<String>,
    pub glob: bool,
    pub excludes: Vec<String>,
}

pub struct CopyView {
    pub src: Seq<char>,
    pub dest: Option<Seq<char>>,
    pub glob: bool,
    pub excludes: Seq<Seq<char>>,
}

impl DeepView for CopyDirective {
    type V = CopyView;

    open spec fn deep_view(&self) -> CopyView {
        CopyView {
            src: self.src@,
            dest: self.dest.deep_view(),
            glob: self.glob,
            excludes: self.excludes.deep_view(),
        }
    }
}

pub fn clone_strings(v: &Vec<String>) -> (r: Vec<String>)
    ensures
        r.deep_view() == v.deep_view(),
{
    let mut r: Vec<String> = Vec::new();
    for i in 0..v.len()
        invariant
            r@.len() == i,
            forall|j: int| 0 <= j < i ==> #[trigger] r@[j]@ == v@[j]@,
    {
        let s = v[i].clone();
        r.push(s);
    }
    assert(r.deep_view() =~= v.deep_view());
    r
}

pub fn clone_opt_string(o: &Option<String>) -> (r: Option<String>)
    ensures
        r.deep_view() == o.deep_view(),
{
    match o {
        Some(s) => Some(s.clone()),
        None => None,
    }
}

impl Clone for CopyDirective {
    fn clone(&self) -> (r: Self)
        ensures
            r.deep_view() == self.deep_view(),
    {
        CopyDirective {
            src: self.src.clone(),
            dest: clone_opt_string(&self.dest),
            glob: self.glob,
            excludes: clone_strings(&self.excludes),
        }
    }
}

/// Everything that applies to one host: the defaults with the matching host sections
/// laid over them.
pub struct HostConfig {
    pub shell: Option<String>,
    pub env: Vec<EnvDirective>,
    pub cwd: Option<String>,
    pub copy: Vec<CopyDirective>,
    pub delegate: Option<String>,
    pub remote_dir: Option<String>,
    pub shell_integration: Option<bool>,
}

pub struct HostConfigView {
    pub shell: Option<Seq<char>>,
    pub env: Seq<(Seq<char>, Seq<char>)>,
    pub cwd: Option<Seq<char>>,
    pub copy: Seq<CopyView>,
    pub delegate: Option<Seq<char>>,
    pub remote_dir: Option<Seq<char>>,
    pub shell_integration: Option<bool>,
}

impl View for HostConfig {
    type V = HostConfigView;

    open spec fn view(&self) -> HostConfigView {
        HostConfigView {
            shell: self.shell.deep_view(),
            env: self.env.deep_view(),
            cwd: self.cwd.deep_view(),
            copy: self.copy.deep_view(),
            delegate: self.delegate.deep_view(),
            remote_dir: self.remote_dir.deep_view(),
            shell_integration: self.shell_integration,
        }
    }
}

/// The configuration that sets nothing.
pub open spec fn empty_host_config() -> HostConfigView {
    HostConfigView {
        shell: None,
        env: Seq::empty(),
        cwd: None,
        copy: Seq::empty(),
        delegate: None,
        remote_dir: None,
        shell_integration: None,
    }
}

impl Default for HostConfig {
    fn default() -> (r: Self)
        ensures
            r@ == empty_host_config(),
    {
        let r = HostConfig {
            shell: None,
            env: Vec::new(),
            cwd: None,
            copy: Vec::new(),
            delegate: None,
            remote_dir: None,
            shell_integration: None,
        };
        assert(r@.env =~= Seq::<(Seq<char>, Seq<char>)>::empty());
        assert(r@.copy =~= Seq::<CopyView>::empty());
        r
    }
}

/// Appends clones of `more` to `base`.
fn extend_env(base: &mut Vec<EnvDirective>, more: &Vec<EnvDirective>)
    ensures
        final(base).deep_view() == old(base).deep_view() + more.deep_view(),
{
    let ghost start = base.deep_view();
    let n0 = base.len();
    for i in 0..more.len()
        invariant
            base@.len() == n0 + i,
            n0 == start.len(),
            forall|j: int| 0 <= j < n0 ==> #[trigger] base@[j].deep_view() == start[j],
            forall|j: int| 0 <= j < i ==> #[trigger] base@[n0 + j].deep_view() == more@[j].deep_view(),
    {
        let d = more[i].clone();
        base.push(d);
    }
    assert forall|j: int| 0 <= j < base@.len() implies #[trigger] base.deep_view()[j] == (start
        + more.deep_view())[j] by {
        if j >= n0 {
            assert(base@[n0 + (j - n0)].deep_view() == more@[j - n0].deep_view());
        }
    }
    assert(base.deep_view() =~= start + more.deep_view());
}

/// Appends clones of `more` to `base`.
fn extend_copy(base: &mut Vec<CopyDirective>, more: &Vec<CopyDirective>)
    ensures
        final(base).deep_view() == old(base).deep_view() + more.deep_view(),
{
    let ghost start = base.deep_view();
    let n0 = base.len();
    for i in 0..more.len()
        invariant
            base@.len() == n0 + i,
            n0 == start.len(),
            forall|j: int| 0 <= j < n0 ==> #[trigger] base@[j].deep_view() == start[j],
            forall|j: int| 0 <= j < i ==> #[trigger] base@[n0 + j].deep_view() == more@[j].deep_view(),
    {
        let d = more[i].clone();
        base.push(d);
    }
    assert forall|j: int| 0 <= j < base@.len() implies #[trigger] base.deep_view()[j] == (start
        + more.deep_view())[j] by {
        if j >= n0 {
            assert(base@[n0 + (j - n0)].deep_view() == more@[j - n0].deep_view());
        }
    }
    assert(base.deep_view() =~= start + more.deep_view());
}

impl Clone for HostConfig {
    fn clone(&self) -> (r: Self)
        ensures
            r@ == self@,
    {
        let mut env: Vec<EnvDirective> = Vec::new();
        extend_env(&mut env, &self.env);
        let mut copy: Vec<CopyDirective> = Vec::new();
        extend_copy(&mut copy, &self.copy);
        assert(env.deep_view() =~= self.env.deep_view());
        assert(copy.deep_view() =~= self.copy.deep_view());
        HostConfig {
            shell: clone_opt_string(&self.shell),
            env,
            cwd: clone_opt_string(&self.cwd),
            copy,
            delegate: clone_opt_string(&self.delegate),
            remote_dir: clone_opt_string(&self.remote_dir),
            shell_integration: self.shell_integration,
        }
    }
}

/// `overlay` laid over `base`: each setting that `overlay` gives replaces that of
/// `base`, and its environment and copy lists are appended to those of `base`.
pub open spec fn merged(base: HostConfigView, overlay: HostConfigView) -> HostConfigView {
    HostConfigView {
        shell: if overlay.shell is Some { overlay.shell } else { base.shell },
        env: base.env + overlay.env,
        cwd: if overlay.cwd is Some { overlay.cwd } else { base.cwd },
        copy: base.copy + overlay.copy,
        delegate: if overlay.delegate is Some { overlay.delegate } else { base.delegate },
        remote_dir: if overlay.remote_dir is Some { overlay.remote_dir } else { base.remote_dir },
        shell_integration: if overlay.shell_integration is Some {
            overlay.shell_integration
        } else {
            base.shell_integration
        },
    }
}

pub fn merge_config(base: &mut HostConfig, overlay: &HostConfig)
    ensures
        final(base)@ == merged(old(base)@, overlay@),
{
    if overlay.shell.is_some() {
        base.shell = clone_opt_string(&overlay.shell);
    }
    extend_env(&mut base.env, &overlay.env);
    if overlay.cwd.is_some() {
        base.cwd = clone_opt_string(&overlay.cwd);
    }
    extend_copy(&mut base.copy, &overlay.copy);
    if overlay.delegate.is_some() {
        base.delegate = clone_opt_string(&overlay.delegate);
    }
    if overlay.remote_dir.is_some() {
        base.remote_dir = clone_opt_string(&overlay.remote_dir);
    }
    if overlay.shell_integration.is_some() {
        base.shell_integration = overlay.shell_integration;
    }
}

/// Whether the wildcard `pattern` matches `text`, compared as UTF-8 bytes.
pub open spec fn glob_matches_str(pattern: Seq<char>, text: Seq<char>) -> bool {
    glob_result(encode_utf8(pattern), encode_utf8(text))
}

/// The user part (if the text holds an `@`) and the host part of `user@host` text.
pub open spec fn user_and_host(s: Seq<char>) -> (Option<Seq<char>>, Seq<char>) {
    match split_once(s, '@') {
        Some((u, h)) => (Some(u), h),
        None => (None, s),
    }
}

/// A host section's pattern applies to a host: the host parts match, and where the
/// pattern names a user, the host names one that matches it.
pub open spec fn host_matches_spec(pattern: Seq<char>, hostname: Seq<char>) -> bool {
    let (pu, ph) = user_and_host(pattern);
    let (hu, hh) = user_and_host(hostname);
    &&& match pu {
        Some(pu) => match hu {
            Some(hu) => glob_matches_str(pu, hu),
            None => false,
        },
        None => true,
    }
    &&& glob_matches_str(ph, hh)
}

/// Matches `text` against the wildcard `pattern` (`*` any run of bytes, `?` one byte).
/// For a text without `*` this is wildcard matching proper; a `*` in the text is first
/// read as a literal.
pub fn glob_match(pattern: &str, text: &str) -> (r: bool)
    ensures
        r == glob_matches_str(pattern@, text@),
        has_no_star(encode_utf8(text@)) ==> r == wildcard_matches(encode_utf8(pattern@), encode_utf8(text@)),
{
    wildcard_match(pattern, text)
}

proof fn lemma_scalar_bytes(u: u32)
    ensures
        u <= 0x7f ==> leading_byte_width_1(u) as u32 == u,
        leading_byte_width_2(u) >= 0x80,
        leading_byte_width_3(u) >= 0x80,
        leading_byte_width_4(u) >= 0x80,
        last_continuation_byte(u) >= 0x80,
        second_last_continuation_byte(u) >= 0x80,
        third_last_continuation_byte(u) >= 0x80,
{
    assert(u <= 0x7f ==> leading_byte_width_1(u) as u32 == u) by (bit_vector);
    assert(leading_byte_width_2(u) >= 0x80) by (bit_vector);
    assert(leading_byte_width_3(u) >= 0x80) by (bit_vector);
    assert(leading_byte_width_4(u) >= 0x80) by (bit_vector);
    assert(last_continuation_byte(u) >= 0x80) by (bit_vector);
    assert(second_last_continuation_byte(u) >= 0x80) by (bit_vector);
    assert(third_last_continuation_byte(u) >= 0x80) by (bit_vector);
}

/// The code of the ASCII character `c` occurs as a byte of the UTF-8 encoding of `s`
/// only where `s` holds `c`.
proof fn lemma_encoding_avoids(s: Seq<char>, c: char)
    requires
        (c as u32) < 0x80,
        forall|k: int| 0 <= k < s.len() ==> s[k] != c,
    ensures
        forall|k: int| 0 <= k < encode_utf8(s).len() ==> #[trigger] encode_utf8(s)[k] as u32 != c as u32,
    decreases s.len(),
{
    if s.len() > 0 {
        let u = s[0] as u32;
        if u == c as u32 {
            char_u32_cast(s[0], u);
            char_u32_cast(c, u);
            assert(s[0] == c);
        }
        lemma_scalar_bytes(u);
        let head = encode_scalar(u);
        assert forall|k: int| 0 <= k < head.len() implies #[trigger] head[k] as u32 != c as u32 by {
            if u <= 0x7f {
                assert(head[k] as u32 == u);
            }
        }
        assert forall|k: int| 0 <= k < s.drop_first().len() implies s.drop_first()[k] != c by {
            assert(s.drop_first()[k] == s[k + 1]);
        }
        lemma_encoding_avoids(s.drop_first(), c);
        let rest = encode_utf8(s.drop_first());
        assert(encode_utf8(s) == head + rest);
        assert forall|k: int| 0 <= k < encode_utf8(s).len() implies #[trigger] encode_utf8(s)[k] as u32 != c as u32 by {
            if k < head.len() {
                assert(encode_utf8(s)[k] == head[k]);
            } else {
                assert(encode_utf8(s)[k] == rest[k - head.len()]);
            }
        }
    }
}

/// The host pattern `*` matches every name that holds no `*` (a `*` in the name is
/// first read as a literal by the matcher, so a name such as `**` is not matched).
pub proof fn lone_star_matches_any_name(name: Seq<char>)
    requires
        forall|k: int| 0 <= k < name.len() ==> name[k] != '*',
    ensures
        glob_matches_str(seq!['*'], name),
{
    assert(('*' as u32) == 42);
    lemma_encoding_avoids(name, '*');
    lemma_scalar_bytes(42u32);
    assert(encode_utf8(seq!['*']) =~= seq![42u8]) by {
        assert(seq!['*'].drop_first() =~= Seq::<char>::empty());
        assert(seq!['*'][0] as u32 == 42);
        assert(encode_scalar(42u32) =~= seq![42u8]);
        assert(encode_utf8(Seq::<char>::empty()) =~= Seq::<u8>::empty());
        assert(encode_utf8(seq!['*']) == encode_scalar(42u32) + encode_utf8(Seq::<char>::empty()));
    }
    lone_star_accepts(encode_utf8(name));
}

/// A host pattern with no `*` and no `?` matches exactly the name equal to it.
pub proof fn literal_pattern_matches_only_itself(pattern: Seq<char>, name: Seq<char>)
    requires
        forall|k: int| 0 <= k < pattern.len() ==> pattern[k] != '*' && pattern[k] != '?',
    ensures
        glob_matches_str(pattern, name) == (pattern == name),
{
    assert(('*' as u32) == 42);
    assert(('?' as u32) == 63);
    lemma_encoding_avoids(pattern, '*');
    lemma_encoding_avoids(pattern, '?');
    literal_pattern_accepts_itself_only(encode_utf8(pattern), encode_utf8(name));
    encode_utf8_decode_utf8(pattern);
    encode_utf8_decode_utf8(name);
}

pub fn host_matches(pattern: &str, hostname: &str) -> (r: bool)
    ensures
        r == host_matches_spec(pattern@, hostname@),
{
    let (pat_user, pat_host) = match split_once_char(pattern, '@') {
        Some((u, h)) => (Some(u), h),
        None => (None, pattern.to_owned()),
    };
    let (host_user, host_host) = match split_once_char(hostname, '@') {
        Some((u, h)) => (Some(u), h),
        None => (None, hostname.to_owned()),
    };
    if let Some(pu) = pat_user {
        match host_user {
            Some(hu) => {
                if !glob_match(pu.as_str(), hu.as_str()) {
                    return false;
                }
            },
            None => {
                return false;
            },
        }
    }
    glob_match(pat_host.as_str(), host_host.as_str())
}

/// The first value that `vars` gives `name`, if any.
pub open spec fn lookup(vars: Seq<(Seq<char>, Seq<char>)>, name: Seq<char>) -> Option<Seq<char>>
    decreases vars.len(),
{
    if vars.len() == 0 {
        None
    } else if vars[0].0 == name {
        Some(vars[0].1)
    } else {
        lookup(vars.drop_first(), name)
    }
}

proof fn lemma_lookup_at(vars: Seq<(Seq<char>, Seq<char>)>, name: Seq<char>, i: int)
    requires
        0 <= i <= vars.len(),
        forall|k: int| 0 <= k < i ==> #[trigger] vars[k].0 != name,
    ensures
        lookup(vars, name) == (if i < vars.len() && vars[i].0 == name {
            Some(vars[i].1)
        } else {
            lookup(vars.skip(i), name)
        }),
    decreases i,
{
    if i == 0 {
        assert(vars.skip(0) =~= vars);
    } else {
        assert forall|k: int| 0 <= k < i - 1 implies #[trigger] vars.drop_first()[k].0 != name by {
            assert(vars.drop_first()[k] == vars[k + 1]);
        }
        assert(vars[0].0 != name);
        lemma_lookup_at(vars.drop_first(), name, i - 1);
        assert(vars.drop_first().skip(i - 1) =~= vars.skip(i));
    }
}

/// A snapshot of the local environment: each variable's name and value, in the order
/// they were read. A name that appears twice is given its first value.
pub struct LocalEnv {
    pub vars: Vec<(String, String)>,
}

impl View for LocalEnv {
    type V = Seq<(Seq<char>, Seq<char>)>;

    open spec fn view(&self) -> Seq<(Seq<char>, Seq<char>)> {
        Seq::new(self.vars@.len(), |i: int| (self.vars@[i].0@, self.vars@[i].1@))
    }
}

impl LocalEnv {
    pub fn new(vars: Vec<(String, String)>) -> (r: LocalEnv)
        ensures
            r.vars@ == vars@,
    {
        LocalEnv { vars }
    }

    /// The value of the variable `name`, as `std::env::var` would give it.
    pub fn get(&self, name: &str) -> (r: Option<String>)
        ensures
            r.deep_view() == lookup(self@, name@),
    {
        let key = name.to_owned();
        let mut i: usize = 0;
        while i < self.vars.len()
            invariant
                key@ == name@,
                0 <= i <= self.vars@.len(),
                forall|k: int| 0 <= k < i ==> #[trigger] self@[k].0 != name@,
            decreases self.vars@.len() - i,
        {
            if self.vars[i].0 == key {
                proof {
                    lemma_lookup_at(self@, name@, i as int);
                }
                return Some(self.vars[i].1.clone());
            }
            i += 1;
        }
        proof {
            lemma_lookup_at(self@, name@, i as int);
            assert(self@.skip(i as int).len() == 0);
        }
        None
    }
}

/// A character that can continue a `$NAME` reference.
pub open spec fn is_name_char(c: char) -> bool {
    unicode_alphanumeric(c) || c == '_'
}

/// Length of the run of name characters at the start of `s`.
pub open spec fn name_len(s: Seq<char>) -> int
    decreases s.len(),
{
    if s.len() > 0 && is_name_char(s[0]) {
        1 + name_len(s.drop_first())
    } else {
        0
    }
}

proof fn lemma_name_len(s: Seq<char>, i: int)
    requires
        0 <= i <= s.len(),
        forall|k: int| 0 <= k < i ==> is_name_char(#[trigger] s[k]),
        i == s.len() || !is_name_char(s[i]),
    ensures
        name_len(s) == i,
    decreases i,
{
    if i > 0 {
        assert forall|k: int| 0 <= k < i - 1 implies is_name_char(#[trigger] s.drop_first()[k]) by {
            assert(s.drop_first()[k] == s[k + 1]);
        }
        lemma_name_len(s.drop_first(), i - 1);
    }
}

/// What follows a `${NAME}` reference whose name took `n` characters of `rest`: the
/// closing brace is consumed with it.
pub open spec fn after_name(rest: Seq<char>, n: int) -> Seq<char> {
    if 0 <= n < rest.len() {
        rest.skip(n + 1)
    } else {
        Seq::empty()
    }
}

/// What follows a `$NAME` reference whose name took `n` characters of `rest`: the
/// character that ends the name is kept.
pub open spec fn after_bare(rest: Seq<char>, n: int) -> Seq<char> {
    if 0 <= n <= rest.len() {
        rest.skip(n)
    } else {
        Seq::empty()
    }
}

/// `s` with each `${NAME}` and `$NAME` reference that `vars` defines replaced by its
/// value; an undefined reference is left as written (a `${NAME` without its closing
/// brace gets one), and a `$` followed by no name stays a `$`. The character after a
/// `$NAME` stays in the text.
pub open spec fn expand_vars(s: Seq<char>, vars: Seq<(Seq<char>, Seq<char>)>) -> Seq<char>
    decreases s.len(),
{
    if s.len() == 0 {
        Seq::empty()
    } else if s[0] != '$' {
        seq![s[0]] + expand_vars(s.drop_first(), vars)
    } else if s.len() > 1 && s[1] == '{' {
        let rest = s.skip(2);
        let n = first_index(rest, '}');
        let name = rest.take(n);
        let piece = match lookup(vars, name) {
            Some(v) => v,
            None => seq!['$', '{'] + name + seq!['}'],
        };
        piece + expand_vars(after_name(rest, n), vars)
    } else {
        let rest = s.drop_first();
        let n = name_len(rest);
        let name = rest.take(n);
        let piece = if n == 0 {
            seq!['$']
        } else {
            match lookup(vars, name) {
                Some(v) => v,
                None => seq!['$'] + name,
            }
        };
        piece + expand_vars(after_bare(rest, n), vars)
    }
}

/// Expands the `${NAME}` reference that starts at `cs[i]`, appending its expansion to
/// `out`; returns the position after it.
fn expand_braced(cs: &Vec<char>, i: usize, env: &LocalEnv, out: &mut String) -> (next: usize)
    requires
        i + 1 < cs@.len(),
        cs@[i as int] == '$',
        cs@[i + 1] == '{',
    ensures
        i < next <= cs@.len(),
        old(out)@ + expand_vars(cs@.skip(i as int), env@) == final(out)@ + expand_vars(cs@.skip(next as int), env@),
{
    let n = cs.len();
    let ghost cur = cs@.skip(i as int);
    let start = i + 2;
    let mut j = start;
    while j < n && cs[j] != '}'
        invariant
            n == cs@.len(),
            start <= j <= n,
            forall|k: int| start <= k < j ==> cs@[k] != '}',
        decreases n - j,
    {
        j += 1;
    }
    let ghost rest = cur.skip(2);
    proof {
        assert(rest =~= cs@.skip(start as int));
        assert forall|k: int| 0 <= k < j - start implies rest[k] != '}' by {
            assert(rest[k] == cs@[start + k]);
        }
        lemma_first_index(rest, '}', j - start);
    }
    let name = string_from_range(cs, start, j);
    assert(name@ =~= rest.take(j - start));
    let ghost before = out@;
    match env.get(name.as_str()) {
        Some(v) => {
            out.append(v.as_str());
        },
        None => {
            out.append("${");
            out.append(name.as_str());
            out.append("}");
            proof {
                reveal_strlit("${");
                reveal_strlit("}");
                assert(out@ =~= before + (seq!['$', '{'] + name@ + seq!['}']));
            }
        },
    }
    if j < n {
        assert(after_name(rest, j - start) =~= cs@.skip(j + 1));
        j + 1
    } else {
        assert(after_name(rest, j - start) =~= cs@.skip(n as int));
        n
    }
}

/// Expands the `$NAME` reference (or lone `$`) that starts at `cs[i]`, appending its
/// expansion to `out`; returns the position after it.
fn expand_bare(cs: &Vec<char>, i: usize, env: &LocalEnv, out: &mut String) -> (next: usize)
    requires
        i < cs@.len(),
        cs@[i as int] == '$',
        !(i + 1 < cs@.len() && cs@[i + 1] == '{'),
    ensures
        i < next <= cs@.len(),
        old(out)@ + expand_vars(cs@.skip(i as int), env@) == final(out)@ + expand_vars(cs@.skip(next as int), env@),
{
    let n = cs.len();
    let ghost cur = cs@.skip(i as int);
    let start = i + 1;
    let mut j = start;
    while j < n && (is_alphanumeric(cs[j]) || cs[j] == '_')
        invariant
            n == cs@.len(),
            start <= j <= n,
            forall|k: int| start <= k < j ==> is_name_char(#[trigger] cs@[k]),
        decreases n - j,
    {
        j += 1;
    }
    let ghost rest = cur.drop_first();
    proof {
        assert(rest =~= cs@.skip(start as int));
        assert forall|k: int| 0 <= k < j - start implies is_name_char(#[trigger] rest[k]) by {
            assert(rest[k] == cs@[start + k]);
        }
        if j < n {
            assert(rest[j - start] == cs@[j as int]);
        }
        lemma_name_len(rest, j - start);
    }
    let name = string_from_range(cs, start, j);
    assert(name@ =~= rest.take(j - start));
    let ghost before = out@;
    if j == start {
        push_char(out, '$');
    } else {
        match env.get(name.as_str()) {
            Some(v) => {
                out.append(v.as_str());
            },
            None => {
                push_char(out, '$');
                out.append(name.as_str());
                assert(out@ =~= before + (seq!['$'] + name@));
            },
        }
    }
    assert(after_bare(rest, j - start) =~= cs@.skip(j as int));
    j
}

/// Expands the `$NAME` and `${NAME}` references in `s` from the local environment.
pub fn expand_env_vars(s: &str, env: &LocalEnv) -> (r: String)
    ensures
        r@ == expand_vars(s@, env@),
{
    let cs = chars_of(s);
    let n = cs.len();
    let mut out = String::new();
    let mut i: usize = 0;
    assert(cs@.skip(0) =~= cs@);
    assert(out@ + expand_vars(cs@, env@) =~= expand_vars(cs@, env@));
    while i < n
        invariant
            cs@ == s@,
            n == cs@.len(),
            0 <= i <= n,
            expand_vars(s@, env@) == out@ + expand_vars(cs@.skip(i as int), env@),
        decreases n - i,
    {
        let c = cs[i];
        if c == '$' {
            if i + 1 < n && cs[i + 1] == '{' {
                i = expand_braced(&cs, i, env, &mut out);
            } else {
                i = expand_bare(&cs, i, env, &mut out);
            }
        } else {
            let ghost cur = cs@.skip(i as int);
            assert(cur.drop_first() =~= cs@.skip(i + 1));
            push_char(&mut out, c);
            i += 1;
        }
    }
    assert(cs@.skip(n as int) =~= Seq::<char>::empty());
    out
}

/// `s` with the references `${k}` and then `$k` to each already resolved variable
/// replaced by its value, variable by variable in order.
pub open spec fn substitute_resolved(s: Seq<char>, resolved: Seq<(Seq<char>, Seq<char>)>) -> Seq<char>
    decreases resolved.len(),
{
    if resolved.len() == 0 {
        s
    } else {
        let s1 = substitute_resolved(s, resolved.drop_last());
        let (k, v) = resolved.last();
        replaced(replaced(s1, seq!['$', '{'] + k + seq!['}'], v), seq!['$'] + k, v)
    }
}

/// One round of expansion: earlier variables first, then the local environment.
pub open spec fn expansion_round(
    s: Seq<char>,
    resolved: Seq<(Seq<char>, Seq<char>)>,
    vars: Seq<(Seq<char>, Seq<char>)>,
) -> Seq<char> {
    expand_vars(substitute_resolved(s, resolved), vars)
}

/// Expansion rounds repeated until one changes nothing, or `rounds` have run.
pub open spec fn expand_until_stable(
    s: Seq<char>,
    resolved: Seq<(Seq<char>, Seq<char>)>,
    vars: Seq<(Seq<char>, Seq<char>)>,
    rounds: nat,
) -> Seq<char>
    decreases rounds,
{
    if rounds == 0 {
        s
    } else {
        let next = expansion_round(s, resolved, vars);
        if next == s {
            next
        } else {
            expand_until_stable(next, resolved, vars, (rounds - 1) as nat)
        }
    }
}

/// The most expansion rounds that one value gets.
pub open spec fn max_rounds() -> nat {
    10
}

/// Each assignment's value expanded (in at most ten rounds) against the assignments
/// before it, as they were resolved, and against the local environment.
pub open spec fn resolved_env(env: Seq<(Seq<char>, Seq<char>)>, vars: Seq<(Seq<char>, Seq<char>)>) -> Seq<(Seq<char>, Seq<char>)>
    decreases env.len(),
{
    if env.len() == 0 {
        Seq::empty()
    } else {
        let prev = resolved_env(env.drop_last(), vars);
        prev.push((env.last().0, expand_until_stable(env.last().1, prev, vars, max_rounds())))
    }
}

pub open spec fn pairs_view(v: Seq<(String, String)>) -> Seq<(Seq<char>, Seq<char>)> {
    Seq::new(v.len(), |i: int| (v[i].0@, v[i].1@))
}

proof fn lemma_resolved_env_len(env: Seq<(Seq<char>, Seq<char>)>, vars: Seq<(Seq<char>, Seq<char>)>)
    ensures
        resolved_env(env, vars).len() == env.len(),
    decreases env.len(),
{
    if env.len() > 0 {
        lemma_resolved_env_len(env.drop_last(), vars);
    }
}

/// One expansion round of `s`.
fn expand_once(s: &String, resolved: &Vec<(String, String)>, local: &LocalEnv) -> (r: String)
    ensures
        r@ == expansion_round(s@, pairs_view(resolved@), local@),
{
    let mut expanded = s.clone();
    let ghost rv = pairs_view(resolved@);
    for idx in 0..resolved.len()
        invariant
            rv == pairs_view(resolved@),
            expanded@ == substitute_resolved(s@, rv.take(idx as int)),
    {
        let k = &resolved[idx].0;
        let v = &resolved[idx].1;
        let braced = {
            let mut b = String::new();
            b.append("${");
            b.append(k.as_str());
            b.append("}");
            b
        };
        let bare = {
            let mut b = String::new();
            b.append("$");
            b.append(k.as_str());
            b
        };
        proof {
            reveal_strlit("${");
            reveal_strlit("}");
            reveal_strlit("$");
            assert(braced@ =~= seq!['$', '{'] + k@ + seq!['}']);
            assert(bare@ =~= seq!['$'] + k@);
        }
        let e1 = replace_all(expanded.as_str(), braced.as_str(), v.as_str());
        expanded = replace_all(e1.as_str(), bare.as_str(), v.as_str());
        assert(rv.take(idx + 1).drop_last() =~= rv.take(idx as int));
    }
    assert(rv.take(resolved@.len() as int) =~= rv);
    expand_env_vars(expanded.as_str(), local)
}

/// Resolves the values of `env` in order: each value's references to the variables
/// before it and to the local environment are expanded, round after round, until a
/// round changes nothing or ten rounds have run.
pub fn resolve_env(env: &mut Vec<EnvDirective>, local: &LocalEnv)
    ensures
        final(env).deep_view() == resolved_env(old(env).deep_view(), local@),
{
    let ghost initial = env.deep_view();
    let mut resolved: Vec<(String, String)> = Vec::new();
    let mut out: Vec<EnvDirective> = Vec::new();
    for i in 0..env.len()
        invariant
            initial == env.deep_view(),
            pairs_view(resolved@) == resolved_env(initial.take(i as int), local@),
            out.deep_view() == pairs_view(resolved@),
    {
        let EnvDirective::Assign(name, value) = &env[i];
        let ghost prev = pairs_view(resolved@);
        let mut expanded = value.clone();
        let mut changed = true;
        let mut iterations: usize = 0;
        while changed && iterations < 10
            invariant
                prev == pairs_view(resolved@),
                0 <= iterations <= 10,
                expand_until_stable(value@, prev, local@, max_rounds()) == (if changed {
                    expand_until_stable(expanded@, prev, local@, (10 - iterations) as nat)
                } else {
                    expanded@
                }),
            decreases 10 - iterations,
        {
            changed = false;
            iterations += 1;
            let before = expanded.clone();
            expanded = expand_once(&before, &resolved, local);
            if expanded != before {
                changed = true;
            }
        }
        proof {
            assert(initial.take(i + 1).drop_last() =~= initial.take(i as int));
            assert(initial.take(i + 1).last() == (name@, value@));
        }
        let entry = (name.clone(), expanded.clone());
        let ghost before_resolved = resolved@;
        resolved.push(entry);
        out.push(EnvDirective::Assign(name.clone(), expanded));
        proof {
            assert(resolved@ == before_resolved.push(entry));
            assert(pairs_view(resolved@) =~= prev.push((name@, expand_until_stable(value@, prev, local@, max_rounds()))));
            assert(out.deep_view() =~= pairs_view(resolved@));
        }
    }
    assert(initial.take(initial.len() as int) =~= initial);
    *env = out;
}

/// Host sections laid over `base` in order: each one whose pattern matches `hostname`
/// is merged in.
pub open spec fn layered(
    base: HostConfigView,
    hosts: Seq<(Seq<char>, HostConfigView)>,
    hostname: Seq<char>,
) -> HostConfigView
    decreases hosts.len(),
{
    if hosts.len() == 0 {
        base
    } else {
        let prev = layered(base, hosts.drop_last(), hostname);
        if host_matches_spec(hosts.last().0, hostname) {
            merged(prev, hosts.last().1)
        } else {
            prev
        }
    }
}

/// The whole configuration: the top-level settings and the host sections in order.
pub struct Config {
    pub defaults: HostConfig,
    pub hosts: Vec<(String, HostConfig)>,
}

pub struct ConfigView {
    pub defaults: HostConfigView,
    pub hosts: Seq<(Seq<char>, HostConfigView)>,
}

impl View for Config {
    type V = ConfigView;

    open spec fn view(&self) -> ConfigView {
        ConfigView {
            defaults: self.defaults@,
            hosts: Seq::new(self.hosts@.len(), |i: int| (self.hosts@[i].0@, self.hosts@[i].1@)),
        }
    }
}

/// What applies to `hostname`: the defaults with every matching host section merged
/// in, in order. Environment values stay as written, for the remote shell to expand.
pub open spec fn host_config(cfg: ConfigView, hostname: Seq<char>) -> HostConfigView {
    layered(cfg.defaults, cfg.hosts, hostname)
}

impl Config {
    /// The configuration with nothing set and no host sections.
    pub fn empty() -> (r: Config)
        ensures
            r@.defaults == empty_host_config(),
            r@.hosts.len() == 0,
    {
        Config { defaults: HostConfig::default(), hosts: Vec::new() }
    }

    /// The settings for `hostname`.
    pub fn for_host(&self, hostname: &str) -> (r: HostConfig)
        ensures
            r@ == host_config(self@, hostname@),
    {
        let mut result = self.defaults.clone();
        let ghost hosts = self@.hosts;
        for i in 0..self.hosts.len()
            invariant
                hosts == self@.hosts,
                result@ == layered(self@.defaults, hosts.take(i as int), hostname@),
        {
            let (pattern, host_cfg) = &self.hosts[i];
            assert(hosts.take(i + 1).drop_last() =~= hosts.take(i as int));
            assert(hosts.take(i + 1).last() == (pattern@, host_cfg@));
            if host_matches(pattern.as_str(), hostname) {
                merge_config(&mut result, host_cfg);
            }
        }
        assert(hosts.take(hosts.len() as int) =~= hosts);
        result
    }
}

/// One entry of a `copy` list as the configuration file gives it: a bare path, or a
/// table with the source, an optional destination, glob flag and exclusions.
pub enum RawCopy {
    Simple(String),
    Detailed { src: String, dest: Option<String>, glob: Option<bool>, exclude: Option<Vec<String>> },
}

/// The settings of one section of the configuration file (the top level or a host
/// section), as read; `env` holds the `[env]` table's entries, which come in key order
/// (see `raw_config_ordered`).
pub struct RawSection {
    pub shell: Option<String>,
    pub cwd: Option<String>,
    pub delegate: Option<String>,
    pub remote_dir: Option<String>,
    pub shell_integration: Option<bool>,
    pub env: Option<Vec<(String, String)>>,
    pub copy: Option<Vec<RawCopy>>,
}

/// The configuration file as read: its top-level section and its host sections, in
/// pattern order.
pub struct RawConfig {
    pub top: RawSection,
    pub hosts: Option<Vec<(String, RawSection)>>,
}

/// `a` sorts before `b` as `String`s do: character by character, a proper prefix first
/// (UTF-8 keeps the order of the characters' code points).
pub open spec fn text_before(a: Seq<char>, b: Seq<char>) -> bool
    decreases a.len(),
{
    if a.len() == 0 {
        b.len() > 0
    } else if b.len() == 0 {
        false
    } else if a[0] != b[0] {
        a[0] < b[0]
    } else {
        text_before(a.drop_first(), b.drop_first())
    }
}

/// Each key sorts strictly before the next one: the keys of a table, in the order the
/// table gives them, with none repeated.
pub open spec fn keys_ascending(keys: Seq<Seq<char>>) -> bool {
    forall|i: int| 0 <= i < keys.len() - 1 ==> text_before(#[trigger] keys[i], keys[i + 1])
}

/// An `[env]` table as read has its names in ascending order.
pub open spec fn env_ordered(env: Option<Vec<(String, String)>>) -> bool {
    match env {
        Some(list) => keys_ascending(Seq::new(list@.len(), |i: int| list@[i].0@)),
        None => true,
    }
}

/// The tables of the file as read come in key order: the `[env]` tables by name and
/// the host sections by pattern.
pub open spec fn raw_config_ordered(raw: RawConfig) -> bool {
    &&& env_ordered(raw.top.env)
    &&& match raw.hosts {
        Some(h) => {
            &&& keys_ascending(Seq::new(h@.len(), |i: int| h@[i].0@))
            &&& forall|i: int| 0 <= i < h@.len() ==> env_ordered(#[trigger] h@[i].1.env)
        },
        None => true,
    }
}

/// Whether `a` sorts before `b`.
pub fn text_is_before(a: &str, b: &str) -> (r: bool)
    ensures
        r == text_before(a@, b@),
{
    let x = chars_of(a);
    let y = chars_of(b);
    let mut i: usize = 0;
    assert(x@.skip(0) =~= x@);
    assert(y@.skip(0) =~= y@);
    while i < x.len() && i < y.len() && x[i] == y[i]
        invariant
            x@ == a@,
            y@ == b@,
            i <= x@.len(),
            i <= y@.len(),
            text_before(a@, b@) == text_before(x@.skip(i as int), y@.skip(i as int)),
        decreases x@.len() - i,
    {
        assert(x@.skip(i as int).drop_first() =~= x@.skip(i + 1));
        assert(y@.skip(i as int).drop_first() =~= y@.skip(i + 1));
        i += 1;
    }
    if i == x.len() {
        i < y.len()
    } else if i == y.len() {
        false
    } else {
        assert(x@.skip(i as int)[0] == x@[i as int]);
        assert(y@.skip(i as int)[0] == y@[i as int]);
        x[i] < y[i]
    }
}

/// Whether an `[env]` table as read has its names in ascending order.
pub fn env_is_ordered(env: &Option<Vec<(String, String)>>) -> (r: bool)
    ensures
        r == env_ordered(*env),
{
    match env {
        None => true,
        Some(list) => {
            let ghost keys = Seq::new(list@.len(), |i: int| list@[i].0@);
            let mut i: usize = 1;
            while i < list.len()
                invariant
                    *env == Some(*list),
                    keys == Seq::new(list@.len(), |i: int| list@[i].0@),
                    1 <= i,
                    forall|k: int| 0 <= k < i - 1 && k < keys.len() - 1 ==> text_before(#[trigger] keys[k], keys[k + 1]),
                decreases list@.len() - i,
            {
                if !text_is_before(list[i - 1].0.as_str(), list[i].0.as_str()) {
                    let ghost k = i - 1;
                    assert(keys[k] == list@[k].0@);
                    assert(keys[k + 1] == list@[k + 1].0@);
                    assert(0 <= k < keys.len() - 1 && !text_before(keys[k], keys[k + 1]));
                    assert(!keys_ascending(keys));
                    assert(Seq::new(list@.len(), |i: int| list@[i].0@) =~= keys);
                    return false;
                }
                i += 1;
            }
            assert(Seq::new(list@.len(), |i: int| list@[i].0@) =~= keys);
            true
        },
    }
}

/// Whether the tables of the file as read come in key order.
pub fn raw_config_is_ordered(raw: &RawConfig) -> (r: bool)
    ensures
        r == raw_config_ordered(*raw),
{
    if !env_is_ordered(&raw.top.env) {
        return false;
    }
    match &raw.hosts {
        None => true,
        Some(h) => {
            let ghost keys = Seq::new(h@.len(), |i: int| h@[i].0@);
            let mut i: usize = 0;
            while i < h.len()
                invariant
                    raw.hosts == Some(*h),
                    env_ordered(raw.top.env),
                    keys == Seq::new(h@.len(), |i: int| h@[i].0@),
                    i <= h@.len(),
                    forall|k: int| 0 <= k < i - 1 ==> text_before(#[trigger] keys[k], keys[k + 1]),
                    forall|k: int| 0 <= k < i ==> env_ordered(#[trigger] h@[k].1.env),
                decreases h@.len() - i,
            {
                if i > 0 && !text_is_before(h[i - 1].0.as_str(), h[i].0.as_str()) {
                    let ghost k = i - 1;
                    assert(keys[k] == h@[k].0@);
                    assert(keys[k + 1] == h@[k + 1].0@);
                    assert(0 <= k < keys.len() - 1 && !text_before(keys[k], keys[k + 1]));
                    assert(!keys_ascending(keys));
                    assert(Seq::new(h@.len(), |i: int| h@[i].0@) =~= keys);
                    return false;
                }
                if !env_is_ordered(&h[i].1.env) {
                    assert(!env_ordered(h@[i as int].1.env));
                    return false;
                }
                i += 1;
            }
            assert(Seq::new(h@.len(), |i: int| h@[i].0@) =~= keys);
            true
        },
    }
}

/// The copy directive that a `copy` entry stands for.
pub open spec fn copy_of_raw(c: RawCopy) -> CopyView {
    match c {
        RawCopy::Simple(s) => CopyView { src: s@, dest: None, glob: false, excludes: Seq::empty() },
        RawCopy::Detailed { src, dest, glob, exclude } => CopyView {
            src: src@,
            dest: dest.deep_view(),
            glob: match glob {
                Some(g) => g,
                None => false,
            },
            excludes: match exclude {
                Some(e) => e.deep_view(),
                None => Seq::empty(),
            },
        },
    }
}

pub open spec fn copies_of_raw(copy: Option<Vec<RawCopy>>) -> Seq<CopyView> {
    match copy {
        Some(list) => Seq::new(list@.len(), |i: int| copy_of_raw(list@[i])),
        None => Seq::empty(),
    }
}

/// The value that marks a variable to be copied from the local environment.
pub open spec fn copy_env_marker() -> Seq<char> {
    "_kitty_copy_env_var_"@
}

/// An `[env]` value as it enters the configuration: the marker value takes the local
/// variable of that name (empty when it is unset); any other value stays as written.
pub open spec fn env_value(name: Seq<char>, value: Seq<char>, vars: Seq<(Seq<char>, Seq<char>)>) -> Seq<char> {
    if value == copy_env_marker() {
        match lookup(vars, name) {
            Some(v) => v,
            None => Seq::empty(),
        }
    } else {
        value
    }
}

pub open spec fn env_of_raw(env: Option<Vec<(String, String)>>, vars: Seq<(Seq<char>, Seq<char>)>) -> Seq<(Seq<char>, Seq<char>)> {
    match env {
        Some(list) => Seq::new(list@.len(), |i: int| (list@[i].0@, env_value(list@[i].0@, list@[i].1@, vars))),
        None => Seq::empty(),
    }
}

/// The settings that a section of the file gives.
pub open spec fn section_config(sec: RawSection, vars: Seq<(Seq<char>, Seq<char>)>) -> HostConfigView {
    HostConfigView {
        shell: sec.shell.deep_view(),
        env: env_of_raw(sec.env, vars),
        cwd: sec.cwd.deep_view(),
        copy: copies_of_raw(sec.copy),
        delegate: sec.delegate.deep_view(),
        remote_dir: sec.remote_dir.deep_view(),
        shell_integration: sec.shell_integration,
    }
}

/// The configuration that a file read as `raw` gives.
pub open spec fn config_of_raw(raw: RawConfig, vars: Seq<(Seq<char>, Seq<char>)>) -> ConfigView {
    ConfigView {
        defaults: section_config(raw.top, vars),
        hosts: match raw.hosts {
            Some(h) => Seq::new(h@.len(), |i: int| (h@[i].0@, section_config(h@[i].1, vars))),
            None => Seq::empty(),
        },
    }
}

pub fn convert_env(env: &Option<Vec<(String, String)>>, local: &LocalEnv) -> (r: Vec<EnvDirective>)
    requires
        env_ordered(*env),
    ensures
        r.deep_view() == env_of_raw(*env, local@),
{
    let mut out: Vec<EnvDirective> = Vec::new();
    match env {
        None => {
            assert(out.deep_view() =~= env_of_raw(*env, local@));
            out
        },
        Some(map) => {
            let marker = "_kitty_copy_env_var_".to_owned();
            for i in 0..map.len()
                invariant
                    marker@ == copy_env_marker(),
                    out@.len() == i,
                    forall|j: int| 0 <= j < i ==> #[trigger] out@[j].deep_view() == (map@[j].0@, env_value(map@[j].0@, map@[j].1@, local@)),
            {
                let (name, value) = &map[i];
                let resolved = if *value == marker {
                    match local.get(name.as_str()) {
                        Some(v) => v,
                        None => String::new(),
                    }
                } else {
                    value.clone()
                };
                out.push(EnvDirective::Assign(name.clone(), resolved));
            }
            assert(out.deep_view() =~= env_of_raw(*env, local@));
            out
        },
    }
}

pub fn convert_copy(copy: &Option<Vec<RawCopy>>) -> (r: Vec<CopyDirective>)
    ensures
        r.deep_view() == copies_of_raw(*copy),
{
    let mut out: Vec<CopyDirective> = Vec::new();
    match copy {
        None => {
            assert(out.deep_view() =~= copies_of_raw(*copy));
            out
        },
        Some(list) => {
            for i in 0..list.len()
                invariant
                    out@.len() == i,
                    forall|j: int| 0 <= j < i ==> #[trigger] out@[j].deep_view() == copy_of_raw(list@[j]),
            {
                let d = match &list[i] {
                    RawCopy::Simple(s) => CopyDirective {
                        src: s.clone(),
                        dest: None,
                        glob: false,
                        excludes: Vec::new(),
                    },
                    RawCopy::Detailed { src, dest, glob, exclude } => CopyDirective {
                        src: src.clone(),
                        dest: clone_opt_string(dest),
                        glob: match glob {
                            Some(g) => *g,
                            None => false,
                        },
                        excludes: match exclude {
                            Some(e) => clone_strings(e),
                            None => Vec::new(),
                        },
                    },
                };
                assert(d.deep_view().excludes =~= copy_of_raw(list@[i as int]).excludes);
                out.push(d);
            }
            assert(out.deep_view() =~= copies_of_raw(*copy));
            out
        },
    }
}

fn convert_section(sec: &RawSection, local: &LocalEnv) -> (r: HostConfig)
    requires
        env_ordered(sec.env),
    ensures
        r@ == section_config(*sec, local@),
{
    HostConfig {
        shell: clone_opt_string(&sec.shell),
        env: convert_env(&sec.env, local),
        cwd: clone_opt_string(&sec.cwd),
        copy: convert_copy(&sec.copy),
        delegate: clone_opt_string(&sec.delegate),
        remote_dir: clone_opt_string(&sec.remote_dir),
        shell_integration: sec.shell_integration,
    }
}

/// The configuration that the file read as `toml` gives; values marked to be copied
/// from the local environment are taken from `local`.
pub fn convert_toml(toml: &RawConfig, local: &LocalEnv) -> (r: Config)
    requires
        raw_config_ordered(*toml),
    ensures
        r@ == config_of_raw(*toml, local@),
{
    let defaults = convert_section(&toml.top, local);
    let mut hosts: Vec<(String, HostConfig)> = Vec::new();
    match &toml.hosts {
        None => {},
        Some(h) => {
            for i in 0..h.len()
                invariant
                    forall|j: int| 0 <= j < h@.len() ==> env_ordered(#[trigger] h@[j].1.env),
                    hosts@.len() == i,
                    forall|j: int|
                        0 <= j < i ==> (#[trigger] hosts@[j]).0@ == h@[j].0@ && hosts@[j].1@ == section_config(
                            h@[j].1,
                            local@,
                        ),
            {
                let (pattern, section) = &h[i];
                let entry = (pattern.clone(), convert_section(section, local));
                let ghost before = hosts@;
                hosts.push(entry);
                assert(hosts@ == before.push(entry));
                assert(hosts@[i as int] == entry);
            }
        },
    }
    let r = Config { defaults, hosts };
    assert(r@.hosts =~= config_of_raw(*toml, local@).hosts);
    r
}

/// The environments of the host sections that match `hostname`, one after another.
pub open spec fn matching_env(hosts: Seq<(Seq<char>, HostConfigView)>, hostname: Seq<char>) -> Seq<(Seq<char>, Seq<char>)>
    decreases hosts.len(),
{
    if hosts.len() == 0 {
        Seq::empty()
    } else {
        let prev = matching_env(hosts.drop_last(), hostname);
        if host_matches_spec(hosts.last().0, hostname) {
            prev + hosts.last().1.env
        } else {
            prev
        }
    }
}

proof fn lemma_layered_env(base: HostConfigView, hosts: Seq<(Seq<char>, HostConfigView)>, hostname: Seq<char>)
    ensures
        layered(base, hosts, hostname).env == base.env + matching_env(hosts, hostname),
    decreases hosts.len(),
{
    if hosts.len() == 0 {
        assert(base.env + Seq::<(Seq<char>, Seq<char>)>::empty() =~= base.env);
    } else {
        lemma_layered_env(base, hosts.drop_last(), hostname);
        let prev = matching_env(hosts.drop_last(), hostname);
        assert(base.env + prev + hosts.last().1.env =~= base.env + (prev + hosts.last().1.env));
    }
}

/// Environment settings accumulate: a host gets the assignments of the defaults followed
/// by those of every matching host section, in order, none dropped, none merged, and
/// each value as written.
pub proof fn env_accumulates(cfg: ConfigView, hostname: Seq<char>)
    ensures
        host_config(cfg, hostname).env == cfg.defaults.env + matching_env(cfg.hosts, hostname),
{
    lemma_layered_env(cfg.defaults, cfg.hosts, hostname);
}

/// No host section matches `hostname`.
pub open spec fn no_section_matches(hosts: Seq<(Seq<char>, HostConfigView)>, hostname: Seq<char>) -> bool {
    forall|i: int| 0 <= i < hosts.len() ==> !host_matches_spec(#[trigger] hosts[i].0, hostname)
}

proof fn lemma_layered_none(base: HostConfigView, hosts: Seq<(Seq<char>, HostConfigView)>, hostname: Seq<char>)
    requires
        no_section_matches(hosts, hostname),
    ensures
        layered(base, hosts, hostname) == base,
    decreases hosts.len(),
{
    if hosts.len() > 0 {
        assert(!host_matches_spec(hosts[hosts.len() - 1].0, hostname));
        assert forall|i: int| 0 <= i < hosts.drop_last().len() implies !host_matches_spec(#[trigger] hosts.drop_last()[i].0, hostname) by {
            assert(hosts.drop_last()[i] == hosts[i]);
        }
        lemma_layered_none(base, hosts.drop_last(), hostname);
    }
}

/// A host that no section matches gets the top-level settings alone.
pub proof fn unmatched_host_gets_defaults(cfg: ConfigView, hostname: Seq<char>)
    requires
        no_section_matches(cfg.hosts, hostname),
    ensures
        host_config(cfg, hostname) == cfg.defaults,
{
    lemma_layered_none(cfg.defaults, cfg.hosts, hostname);
}

/// Section `i` is the last one that matches `hostname` and sets a shell.
pub open spec fn last_shell_section(hosts: Seq<(Seq<char>, HostConfigView)>, hostname: Seq<char>, i: int) -> bool {
    &&& 0 <= i < hosts.len()
    &&& host_matches_spec(hosts[i].0, hostname)
    &&& hosts[i].1.shell is Some
    &&& forall|j: int| i < j < hosts.len() && host_matches_spec(#[trigger] hosts[j].0, hostname) ==> hosts[j].1.shell is None
}

proof fn lemma_layered_shell(base: HostConfigView, hosts: Seq<(Seq<char>, HostConfigView)>, hostname: Seq<char>, i: int)
    requires
        last_shell_section(hosts, hostname, i),
    ensures
        layered(base, hosts, hostname).shell == hosts[i].1.shell,
    decreases hosts.len(),
{
    if i < hosts.len() - 1 {
        let last = hosts.len() - 1;
        assert(host_matches_spec(hosts[last].0, hostname) ==> hosts[last].1.shell is None);
        assert(last_shell_section(hosts.drop_last(), hostname, i)) by {
            assert forall|j: int| i < j < hosts.drop_last().len() && host_matches_spec(#[trigger] hosts.drop_last()[j].0, hostname) implies hosts.drop_last()[j].1.shell is None by {
                assert(hosts.drop_last()[j] == hosts[j]);
            }
        }
        lemma_layered_shell(base, hosts.drop_last(), hostname, i);
    }
}

/// A host section overrides the shell: the host gets the shell of the last matching
/// section that sets one.
pub proof fn last_matching_section_sets_shell(cfg: ConfigView, hostname: Seq<char>, i: int)
    requires
        last_shell_section(cfg.hosts, hostname, i),
    ensures
        host_config(cfg, hostname).shell == cfg.hosts[i].1.shell,
{
    lemma_layered_shell(cfg.defaults, cfg.hosts, hostname, i);
}

/// A pattern that names a user matches only host names that name one too.
pub proof fn user_pattern_needs_user(pattern: Seq<char>, hostname: Seq<char>)
    requires
        split_once(pattern, '@') is Some,
        split_once(hostname, '@') is None,
    ensures
        !host_matches_spec(pattern, hostname),
{
}

/// The copy lists of the host sections that match `hostname`, one after another.
pub open spec fn matching_copy(hosts: Seq<(Seq<char>, HostConfigView)>, hostname: Seq<char>) -> Seq<CopyView>
    decreases hosts.len(),
{
    if hosts.len() == 0 {
        Seq::empty()
    } else {
        let prev = matching_copy(hosts.drop_last(), hostname);
        if host_matches_spec(hosts.last().0, hostname) {
            prev + hosts.last().1.copy
        } else {
            prev
        }
    }
}

proof fn lemma_layered_copy(base: HostConfigView, hosts: Seq<(Seq<char>, HostConfigView)>, hostname: Seq<char>)
    ensures
        layered(base, hosts, hostname).copy == base.copy + matching_copy(hosts, hostname),
    decreases hosts.len(),
{
    if hosts.len() == 0 {
        assert(base.copy + Seq::<CopyView>::empty() =~= base.copy);
    } else {
        lemma_layered_copy(base, hosts.drop_last(), hostname);
        let prev = matching_copy(hosts.drop_last(), hostname);
        assert(base.copy + prev + hosts.last().1.copy =~= base.copy + (prev + hosts.last().1.copy));
    }
}

/// Copy directives accumulate: a host gets the top-level copy directives followed by
/// those of every matching host section, in order, none dropped.
pub proof fn copy_accumulates(cfg: ConfigView, hostname: Seq<char>)
    ensures
        host_config(cfg, hostname).copy == cfg.defaults.copy + matching_copy(cfg.hosts, hostname),
{
    lemma_layered_copy(cfg.defaults, cfg.hosts, hostname);
}

/// Laying a section over settings: each single setting the section gives replaces the
/// one below, each one it leaves out is kept, and both lists are appended.
pub proof fn overlay_replaces_given_settings(base: HostConfigView, overlay: HostConfigView)
    ensures
        merged(base, overlay).shell == (if overlay.shell is Some { overlay.shell } else { base.shell }),
        merged(base, overlay).cwd == (if overlay.cwd is Some { overlay.cwd } else { base.cwd }),
        merged(base, overlay).delegate == (if overlay.delegate is Some { overlay.delegate } else { base.delegate }),
        merged(base, overlay).remote_dir == (if overlay.remote_dir is Some { overlay.remote_dir } else { base.remote_dir }),
        merged(base, overlay).shell_integration == (if overlay.shell_integration is Some {
            overlay.shell_integration
        } else {
            base.shell_integration
        }),
        merged(base, overlay).env.len() == base.env.len() + overlay.env.len(),
        merged(base, overlay).env.take(base.env.len() as int) == base.env,
        merged(base, overlay).env.skip(base.env.len() as int) == overlay.env,
        merged(base, overlay).copy.len() == base.copy.len() + overlay.copy.len(),
        merged(base, overlay).copy.take(base.copy.len() as int) == base.copy,
        merged(base, overlay).copy.skip(base.copy.len() as int) == overlay.copy,
{
    let m = merged(base, overlay);
    assert(m.env.take(base.env.len() as int) =~= base.env);
    assert(m.env.skip(base.env.len() as int) =~= overlay.env);
    assert(m.copy.take(base.copy.len() as int) =~= base.copy);
    assert(m.copy.skip(base.copy.len() as int) =~= overlay.copy);
}

} // verus!
