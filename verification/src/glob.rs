use vstd::prelude::*;
use vstd::string::StringSliceAdditionalSpecFns;

verus! {

/// The byte that matches any run of bytes in a pattern.
pub open spec fn star() -> u8 {
    42u8
}

/// The byte that matches exactly one byte in a pattern.
pub open spec fn qmark() -> u8 {
    63u8
}

/// `p[i..]` matches `t[j..]` under the usual wildcard rules: `*` stands for any
/// (possibly empty) run of bytes, `?` for exactly one byte, every other byte for itself.
pub open spec fn matches_at(p: Seq<u8>, t: Seq<u8>, i: int, j: int) -> bool
    decreases p.len() - i + t.len() - j,
    when 0 <= i <= p.len() && 0 <= j <= t.len()
{
    if i == p.len() {
        j == t.len()
    } else if p[i] == star() {
        matches_at(p, t, i + 1, j) || (j < t.len() && matches_at(p, t, i, j + 1))
    } else {
        j < t.len() && (p[i] == qmark() || p[i] == t[j]) && matches_at(p, t, i + 1, j + 1)
    }
}

/// The whole pattern matches the whole text.
pub open spec fn wildcard_matches(p: Seq<u8>, t: Seq<u8>) -> bool {
    matches_at(p, t, 0, 0)
}

/// Every byte of `p` from `i` on is a star.
pub open spec fn only_stars_from(p: Seq<u8>, i: int) -> bool {
    forall|k: int| i <= k < p.len() ==> p[k] == star()
}

/// The single-backtrack scan over `(pattern position, text position, last star, text
/// position the last star resumes from)`; `sp < 0` means that no star has been seen.
/// A pattern byte equal to the text byte is consumed as a literal before it is
/// considered as a star.
pub open spec fn scan(p: Seq<u8>, t: Seq<u8>, pi: int, ti: int, sp: int, st: int) -> bool
    decreases t.len() - st, t.len() - ti, p.len() - pi,
    when 0 <= pi <= p.len() && 0 <= st <= ti <= t.len() && sp < pi
{
    if ti < t.len() {
        if pi < p.len() && (p[pi] == qmark() || p[pi] == t[ti]) {
            scan(p, t, pi + 1, ti + 1, sp, st)
        } else if pi < p.len() && p[pi] == star() {
            scan(p, t, pi + 1, ti, pi, ti)
        } else if sp >= 0 {
            scan(p, t, sp + 1, st + 1, sp, st + 1)
        } else {
            false
        }
    } else {
        only_stars_from(p, pi)
    }
}

/// What the matcher answers for a pattern and a text.
pub open spec fn glob_result(p: Seq<u8>, t: Seq<u8>) -> bool {
    scan(p, t, 0, 0, -1, 0)
}

pub open spec fn has_no_star(t: Seq<u8>) -> bool {
    forall|k: int| 0 <= k < t.len() ==> t[k] != star()
}

pub open spec fn no_star_in(p: Seq<u8>, a: int, n: int) -> bool {
    forall|m: int| 0 <= m < n ==> #[trigger] p[a + m] != star()
}

/// Some resumption after the last star, strictly later than `st`, leads to a match.
pub open spec fn later_resume_matches(p: Seq<u8>, t: Seq<u8>, sp: int, st: int) -> bool {
    exists|k: int| st < k <= t.len() && #[trigger] matches_at(p, t, sp + 1, k)
}

proof fn lemma_star_absorbs(p: Seq<u8>, t: Seq<u8>, i: int, j: int, k: int)
    requires
        0 <= i < p.len(),
        p[i] == star(),
        0 <= j <= k <= t.len(),
        matches_at(p, t, i, k),
    ensures
        matches_at(p, t, i, j),
    decreases k - j,
{
    if j < k {
        lemma_star_absorbs(p, t, i, j + 1, k);
    }
}

proof fn lemma_star_resumes(p: Seq<u8>, t: Seq<u8>, i: int, j: int)
    requires
        0 <= i < p.len(),
        p[i] == star(),
        0 <= j <= t.len(),
    ensures
        matches_at(p, t, i, j) <==> (exists|k: int| j <= k <= t.len() && #[trigger] matches_at(p, t, i + 1, k)),
    decreases t.len() - j,
{
    if j < t.len() {
        lemma_star_resumes(p, t, i, j + 1);
        assert(matches_at(p, t, i, j) == (matches_at(p, t, i + 1, j) || matches_at(p, t, i, j + 1)));
        if matches_at(p, t, i, j) {
            if !matches_at(p, t, i + 1, j) {
                let k = choose|k: int| j + 1 <= k <= t.len() && #[trigger] matches_at(p, t, i + 1, k);
                assert(j <= k <= t.len() && matches_at(p, t, i + 1, k));
            }
        }
        if exists|k: int| j <= k <= t.len() && #[trigger] matches_at(p, t, i + 1, k) {
            let k = choose|k: int| j <= k <= t.len() && #[trigger] matches_at(p, t, i + 1, k);
            if k > j {
                assert(exists|k2: int| j + 1 <= k2 <= t.len() && #[trigger] matches_at(p, t, i + 1, k2));
            }
        }
    } else {
        assert(matches_at(p, t, i, j) == matches_at(p, t, i + 1, j));
        if exists|k: int| j <= k <= t.len() && #[trigger] matches_at(p, t, i + 1, k) {
            let k = choose|k: int| j <= k <= t.len() && #[trigger] matches_at(p, t, i + 1, k);
            assert(k == j);
        }
    }
}

/// Walking a star-free stretch of the pattern consumes exactly as many text bytes.
proof fn lemma_literal_advance(p: Seq<u8>, t: Seq<u8>, a: int, k: int, n: int)
    requires
        0 <= a,
        0 <= n,
        a + n <= p.len(),
        0 <= k <= t.len(),
        no_star_in(p, a, n),
        matches_at(p, t, a, k),
    ensures
        k + n <= t.len(),
        matches_at(p, t, a + n, k + n),
    decreases n,
{
    if n > 0 {
        assert(p[a + 0] != star());
        assert(no_star_in(p, a + 1, n - 1)) by {
            assert forall|m: int| 0 <= m < n - 1 implies #[trigger] p[a + 1 + m] != star() by {
                assert(p[a + (m + 1)] != star());
            }
        }
        lemma_literal_advance(p, t, a + 1, k + 1, n - 1);
    }
}

proof fn lemma_stars_match_empty(p: Seq<u8>, t: Seq<u8>, i: int)
    requires
        0 <= i <= p.len(),
    ensures
        matches_at(p, t, i, t.len() as int) == only_stars_from(p, i),
    decreases p.len() - i,
{
    if i < p.len() {
        lemma_stars_match_empty(p, t, i + 1);
    }
}

proof fn lemma_star_all(t: Seq<u8>, j: int)
    requires
        0 <= j <= t.len(),
    ensures
        matches_at(seq![star()], t, 0, j),
    decreases t.len() - j,
{
    let p = seq![star()];
    if j < t.len() {
        lemma_star_all(t, j + 1);
    } else {
        assert(matches_at(p, t, 1, j));
    }
}

/// A lone `*` matches every text.
pub proof fn star_matches_everything(t: Seq<u8>)
    ensures
        wildcard_matches(seq![star()], t),
{
    lemma_star_all(t, 0);
}

proof fn lemma_literal_at(p: Seq<u8>, t: Seq<u8>, i: int, j: int)
    requires
        0 <= i <= p.len(),
        0 <= j <= t.len(),
        forall|k: int| 0 <= k < p.len() ==> #[trigger] p[k] != star() && p[k] != qmark(),
    ensures
        matches_at(p, t, i, j) == (p.skip(i) == t.skip(j)),
    decreases p.len() - i,
{
    if i == p.len() {
        if j < t.len() {
            assert(p.skip(i).len() != t.skip(j).len());
        } else {
            assert(p.skip(i) =~= t.skip(j));
        }
    } else {
        if j < t.len() {
            lemma_literal_at(p, t, i + 1, j + 1);
            if p.skip(i) == t.skip(j) {
                assert(p.skip(i)[0] == t.skip(j)[0]);
                assert(p.skip(i + 1) =~= p.skip(i).drop_first());
                assert(t.skip(j + 1) =~= t.skip(j).drop_first());
            }
            if p[i] == t[j] && p.skip(i + 1) == t.skip(j + 1) {
                assert(p.skip(i).len() == t.skip(j).len()) by {
                    assert(p.skip(i + 1).len() == t.skip(j + 1).len());
                }
                assert forall|k: int| 0 <= k < p.skip(i).len() implies p.skip(i)[k] == t.skip(j)[k] by {
                    if k > 0 {
                        assert(p.skip(i)[k] == p.skip(i + 1)[k - 1]);
                        assert(t.skip(j)[k] == t.skip(j + 1)[k - 1]);
                    }
                }
                assert(p.skip(i) =~= t.skip(j));
            }
        } else {
            assert(p.skip(i).len() != t.skip(j).len());
        }
    }
}

/// A pattern with no `*` and no `?` matches exactly the text equal to it.
pub proof fn literal_pattern_matches_itself_only(p: Seq<u8>, t: Seq<u8>)
    requires
        forall|k: int| 0 <= k < p.len() ==> #[trigger] p[k] != star() && p[k] != qmark(),
    ensures
        wildcard_matches(p, t) == (p == t),
{
    lemma_literal_at(p, t, 0, 0);
    assert(p.skip(0) =~= p);
    assert(t.skip(0) =~= t);
}

proof fn lemma_scan_lone_star(p: Seq<u8>, t: Seq<u8>, j: int)
    requires
        p == seq![star()],
        has_no_star(t),
        0 <= j <= t.len(),
    ensures
        scan(p, t, 1, j, 0, j),
    decreases t.len() - j,
{
    if j < t.len() {
        lemma_scan_lone_star(p, t, j + 1);
    }
}

/// The matcher answers yes for a lone `*` and any text without a `*` in it.
pub proof fn lone_star_accepts(t: Seq<u8>)
    requires
        has_no_star(t),
    ensures
        glob_result(seq![star()], t),
{
    let p = seq![star()];
    if t.len() > 0 {
        lemma_scan_lone_star(p, t, 0);
    }
}

proof fn lemma_scan_literal(p: Seq<u8>, t: Seq<u8>, i: int, j: int)
    requires
        forall|k: int| 0 <= k < p.len() ==> #[trigger] p[k] != star() && p[k] != qmark(),
        0 <= i <= p.len(),
        0 <= j <= t.len(),
    ensures
        scan(p, t, i, j, -1, 0) == (p.skip(i) == t.skip(j)),
    decreases t.len() - j,
{
    if j < t.len() {
        if i < p.len() {
            lemma_scan_literal(p, t, i + 1, j + 1);
            if p.skip(i) == t.skip(j) {
                assert(p.skip(i)[0] == t.skip(j)[0]);
                assert(p.skip(i + 1) =~= p.skip(i).drop_first());
                assert(t.skip(j + 1) =~= t.skip(j).drop_first());
            }
            if p[i] == t[j] && p.skip(i + 1) == t.skip(j + 1) {
                assert(p.skip(i) =~= t.skip(j)) by {
                    assert(p.skip(i).len() == t.skip(j).len()) by {
                        assert(p.skip(i + 1).len() == t.skip(j + 1).len());
                    }
                    assert forall|k: int| 0 <= k < p.skip(i).len() implies p.skip(i)[k] == t.skip(j)[k] by {
                        if k > 0 {
                            assert(p.skip(i)[k] == p.skip(i + 1)[k - 1]);
                            assert(t.skip(j)[k] == t.skip(j + 1)[k - 1]);
                        }
                    }
                }
            }
        } else {
            assert(p.skip(i).len() != t.skip(j).len());
        }
    } else {
        if i < p.len() {
            assert(p[i] != star());
            assert(p.skip(i).len() != t.skip(j).len());
        } else {
            assert(p.skip(i) =~= t.skip(j));
        }
    }
}

/// The matcher answers yes for a pattern with no `*` and no `?` exactly when the text
/// equals it.
pub proof fn literal_pattern_accepts_itself_only(p: Seq<u8>, t: Seq<u8>)
    requires
        forall|k: int| 0 <= k < p.len() ==> #[trigger] p[k] != star() && p[k] != qmark(),
    ensures
        glob_result(p, t) == (p == t),
{
    lemma_scan_literal(p, t, 0, 0);
    assert(p.skip(0) =~= p);
    assert(t.skip(0) =~= t);
}

/// Reports whether `text` matches the wildcard `pattern`, byte by byte: `*` matches any
/// run of bytes and `?` any single byte.
pub fn wildcard_match(pattern: &str, text: &str) -> (r: bool)
    ensures
        r == glob_result(pattern.spec_bytes(), text.spec_bytes()),
        has_no_star(text.spec_bytes()) ==> r == wildcard_matches(
            pattern.spec_bytes(),
            text.spec_bytes(),
        ),
{
    let pb = pattern.as_bytes();
    let tb = text.as_bytes();
    let ghost p = pb@;
    let ghost t = tb@;
    let mut pi: usize = 0;
    let mut ti: usize = 0;
    let mut star_pi: usize = usize::MAX;
    let mut star_ti: usize = 0;
    let ghost sp: int = -1;

    while ti < tb.len()
        invariant
            p == pb@,
            t == tb@,
            p == pattern.spec_bytes(),
            t == text.spec_bytes(),
            0 <= pi <= p.len(),
            0 <= star_ti <= ti <= t.len(),
            -1 <= sp < pi,
            sp == -1 <==> star_pi == usize::MAX,
            sp >= 0 ==> sp == star_pi,
            sp == -1 ==> star_ti == 0,
            glob_result(p, t) == scan(p, t, pi as int, ti as int, sp, star_ti as int),
            has_no_star(t) ==> {
                if sp == -1 {
                    wildcard_matches(p, t) == matches_at(p, t, pi as int, ti as int)
                } else {
                    &&& p[sp] == star()
                    &&& pi - (sp + 1) == ti - star_ti
                    &&& no_star_in(p, sp + 1, pi - (sp + 1))
                    &&& wildcard_matches(p, t) == (matches_at(p, t, pi as int, ti as int)
                        || later_resume_matches(p, t, sp, star_ti as int))
                }
            },
        decreases t.len() - star_ti, t.len() - ti, p.len() - pi,
    {
        if pi < pb.len() && (pb[pi] == 63u8 || pb[pi] == tb[ti]) {
            proof {
                if has_no_star(t) && sp >= 0 {
                    assert(p[pi as int] != star());
                    assert(no_star_in(p, sp + 1, pi + 1 - (sp + 1))) by {
                        assert forall|m: int| 0 <= m < pi + 1 - (sp + 1) implies #[trigger] p[sp + 1 + m] != star() by {
                            if m < pi - (sp + 1) {
                            } else {
                                assert(sp + 1 + m == pi);
                            }
                        }
                    }
                }
            }
            pi += 1;
            ti += 1;
        } else if pi < pb.len() && pb[pi] == 42u8 {
            proof {
                if has_no_star(t) {
                    lemma_star_resumes(p, t, pi as int, ti as int);
                    if sp >= 0 && later_resume_matches(p, t, sp, star_ti as int) {
                        let k = choose|k: int| star_ti < k <= t.len() && #[trigger] matches_at(p, t, sp + 1, k);
                        lemma_literal_advance(p, t, sp + 1, k, pi - (sp + 1));
                        lemma_star_absorbs(p, t, pi as int, ti as int, k + pi - (sp + 1));
                    }
                    lemma_star_resumes(p, t, pi as int, ti as int);
                    assert(matches_at(p, t, pi as int + 1, ti as int) || later_resume_matches(p, t, pi as int, ti as int)
                        <==> (exists|k: int| ti <= k <= t.len() && #[trigger] matches_at(p, t, pi + 1, k))) by {
                        if exists|k: int| ti <= k <= t.len() && #[trigger] matches_at(p, t, pi + 1, k) {
                            let k = choose|k: int| ti <= k <= t.len() && #[trigger] matches_at(p, t, pi + 1, k);
                            if k > ti {
                                assert(later_resume_matches(p, t, pi as int, ti as int));
                            }
                        }
                    }
                    assert(no_star_in(p, pi + 1, 0));
                }
            }
            star_pi = pi;
            star_ti = ti;
            proof {
                sp = pi as int;
            }
            pi += 1;
        } else if star_pi != usize::MAX {
            proof {
                if has_no_star(t) {
                    assert(!matches_at(p, t, pi as int, ti as int));
                    assert(later_resume_matches(p, t, sp, star_ti as int) <==> (matches_at(p, t, sp + 1, star_ti + 1)
                        || later_resume_matches(p, t, sp, star_ti + 1))) by {
                        if later_resume_matches(p, t, sp, star_ti as int) {
                            let k = choose|k: int| star_ti < k <= t.len() && #[trigger] matches_at(p, t, sp + 1, k);
                            if k > star_ti + 1 {
                                assert(later_resume_matches(p, t, sp, star_ti + 1));
                            }
                        }
                    }
                    assert(no_star_in(p, sp + 1, 0));
                }
            }
            pi = star_pi + 1;
            star_ti += 1;
            ti = star_ti;
        } else {
            return false;
        }
    }

    let ghost end_pi = pi;
    while pi < pb.len() && pb[pi] == 42u8
        invariant
            p == pb@,
            end_pi <= pi <= p.len(),
            forall|k: int| end_pi <= k < pi ==> p[k] == star(),
        decreases p.len() - pi,
    {
        pi += 1;
    }
    proof {
        lemma_stars_match_empty(p, t, end_pi as int);
        if has_no_star(t) && sp >= 0 && later_resume_matches(p, t, sp, star_ti as int) {
            let k = choose|k: int| star_ti < k <= t.len() && #[trigger] matches_at(p, t, sp + 1, k);
            lemma_literal_advance(p, t, sp + 1, k, end_pi - (sp + 1));
        }
        if pi < p.len() {
            assert(p[pi as int] != star());
            assert(!only_stars_from(p, end_pi as int));
        } else {
            assert(only_stars_from(p, end_pi as int));
        }
    }
    pi == pb.len()
}

} // verus!
