use vstd::prelude::*;
use vstd::string::StringExecFns;

verus! {

broadcast use vstd::string::group_string_axioms;

/// The characters of `s`, in order.
pub fn chars_of(s: &str) -> (v: Vec<char>)
    ensures
        v@ == s@,
{
    let mut v: Vec<char> = Vec::new();
    for c in it: s.chars()
        invariant
            it.seq() == s@,
            v@ == it.seq().take(it.index()),
    {
        v.push(c);
    }
    v
}

/// std's `String::push`.
#[verifier::external_body]
pub(crate) fn push_char(s: &mut String, c: char)
    ensures
        final(s)@ == old(s)@.push(c),
{
    s.push(c);
}

/// The string made of the characters `v[from..to]`.
pub fn string_from_range(v: &Vec<char>, from: usize, to: usize) -> (s: String)
    requires
        from <= to <= v@.len(),
    ensures
        s@ == v@.subrange(from as int, to as int),
{
    let mut s = String::new();
    let mut i = from;
    while i < to
        invariant
            from <= i <= to <= v@.len(),
            s@ == v@.subrange(from as int, i as int),
        decreases to - i,
    {
        push_char(&mut s, v[i]);
        assert(v@.subrange(from as int, i + 1) == v@.subrange(from as int, i as int).push(v@[i as int]));
        i += 1;
    }
    s
}

pub fn concat(a: &str, b: &str) -> (r: String)
    ensures
        r@ == a@ + b@,
{
    let mut r = String::new();
    r.append(a);
    r.append(b);
    r
}

/// Position of the first `c` in `s`, or the length of `s` when there is none.
pub open spec fn first_index(s: Seq<char>, c: char) -> int
    decreases s.len(),
{
    if s.len() == 0 {
        0
    } else if s[0] == c {
        0
    } else {
        1 + first_index(s.drop_first(), c)
    }
}

pub proof fn lemma_first_index(s: Seq<char>, c: char, i: int)
    requires
        0 <= i <= s.len(),
        forall|k: int| 0 <= k < i ==> s[k] != c,
        i == s.len() || s[i] == c,
    ensures
        first_index(s, c) == i,
    decreases i,
{
    if i > 0 {
        assert forall|k: int| 0 <= k < i - 1 implies s.drop_first()[k] != c by {
            assert(s.drop_first()[k] == s[k + 1]);
        }
        lemma_first_index(s.drop_first(), c, i - 1);
    }
}

pub proof fn lemma_first_index_bounds(s: Seq<char>, c: char)
    ensures
        0 <= first_index(s, c) <= s.len(),
        forall|k: int| 0 <= k < first_index(s, c) ==> s[k] != c,
        first_index(s, c) < s.len() ==> s[first_index(s, c)] == c,
    decreases s.len(),
{
    if s.len() > 0 && s[0] != c {
        lemma_first_index_bounds(s.drop_first(), c);
        assert forall|k: int| 0 <= k < first_index(s, c) implies s[k] != c by {
            if k > 0 {
                assert(s[k] == s.drop_first()[k - 1]);
            }
        }
    }
}

/// Position of the first `c` in `v`, or its length when there is none.
pub fn find_char(v: &Vec<char>, c: char) -> (r: usize)
    ensures
        r == first_index(v@, c),
        r <= v@.len(),
{
    let mut i: usize = 0;
    while i < v.len() && v[i] != c
        invariant
            0 <= i <= v@.len(),
            forall|k: int| 0 <= k < i ==> v@[k] != c,
        decreases v@.len() - i,
    {
        i += 1;
    }
    proof {
        lemma_first_index(v@, c, i as int);
    }
    i
}

/// `s` split at its first `c`, as `str::split_once` does: the text before it and the
/// text after it.
pub open spec fn split_once(s: Seq<char>, c: char) -> Option<(Seq<char>, Seq<char>)> {
    let i = first_index(s, c);
    if i < s.len() {
        Some((s.take(i), s.skip(i + 1)))
    } else {
        None
    }
}

pub fn split_once_char(s: &str, c: char) -> (r: Option<(String, String)>)
    ensures
        match r {
            Some((a, b)) => split_once(s@, c) == Some((a@, b@)),
            None => split_once(s@, c) is None,
        },
{
    let v = chars_of(s);
    let i = find_char(&v, c);
    if i < v.len() {
        let a = string_from_range(&v, 0, i);
        let b = string_from_range(&v, i + 1, v.len());
        assert(a@ == v@.take(i as int));
        assert(b@ == v@.skip(i + 1));
        Some((a, b))
    } else {
        None
    }
}

/// `s` with every occurrence of `pat` replaced by `rep`, scanning from the left and
/// never letting two occurrences overlap (what `str::replace` does for a non-empty
/// pattern).
pub open spec fn replaced(s: Seq<char>, pat: Seq<char>, rep: Seq<char>) -> Seq<char>
    decreases s.len(),
{
    if pat.len() == 0 || s.len() < pat.len() {
        s
    } else if s.take(pat.len() as int) == pat {
        rep + replaced(s.skip(pat.len() as int), pat, rep)
    } else {
        seq![s[0]] + replaced(s.drop_first(), pat, rep)
    }
}

/// Whether `pat` occurs in `v` at position `at`.
fn occurs_at(v: &Vec<char>, pat: &Vec<char>, at: usize) -> (r: bool)
    requires
        at <= v@.len(),
    ensures
        r == (at + pat@.len() <= v@.len() && v@.subrange(at as int, at + pat@.len()) == pat@),
{
    if pat.len() > v.len() - at {
        return false;
    }
    let mut k: usize = 0;
    while k < pat.len()
        invariant
            at + pat@.len() <= v@.len(),
            v@.len() <= usize::MAX,
            0 <= k <= pat@.len(),
            forall|m: int| 0 <= m < k ==> v@[at + m] == pat@[m],
        decreases pat@.len() - k,
    {
        if v[at + k] != pat[k] {
            assert(v@.subrange(at as int, at + pat@.len())[k as int] != pat@[k as int]);
            return false;
        }
        k += 1;
    }
    assert(v@.subrange(at as int, at + pat@.len()) =~= pat@);
    true
}

pub fn append_chars(out: &mut String, v: &Vec<char>)
    ensures
        final(out)@ == old(out)@ + v@,
{
    let ghost start = out@;
    for i in 0..v.len()
        invariant
            out@ == start + v@.take(i as int),
    {
        push_char(out, v[i]);
        assert(v@.take(i + 1) == v@.take(i as int).push(v@[i as int]));
        assert(start + v@.take(i + 1) =~= (start + v@.take(i as int)).push(v@[i as int]));
    }
    assert(v@.take(v@.len() as int) == v@);
}

/// `s` with every non-overlapping occurrence of the non-empty `pat` replaced by `rep`.
pub fn replace_all(s: &str, pat: &str, rep: &str) -> (r: String)
    requires
        pat@.len() > 0,
    ensures
        r@ == replaced(s@, pat@, rep@),
{
    let v = chars_of(s);
    let p = chars_of(pat);
    let m = p.len();
    let mut out = String::new();
    let mut i: usize = 0;
    assert(v@.skip(0) =~= v@);
    assert(out@ + replaced(v@, pat@, rep@) =~= replaced(v@, pat@, rep@));
    while i < v.len()
        invariant
            v@ == s@,
            p@ == pat@,
            m == p@.len(),
            m > 0,
            0 <= i <= v@.len(),
            replaced(s@, pat@, rep@) == out@ + replaced(v@.skip(i as int), pat@, rep@),
        decreases v@.len() - i,
    {
        let ghost rest = v@.skip(i as int);
        if occurs_at(&v, &p, i) {
            assert(rest.take(m as int) =~= v@.subrange(i as int, i + m));
            assert(rest.skip(m as int) =~= v@.skip(i + m));
            out.append(rep);
            i += m;
        } else {
            proof {
                if rest.len() >= m {
                    assert(rest.take(m as int) =~= v@.subrange(i as int, i + m));
                }
                assert(rest.drop_first() =~= v@.skip(i + 1));
                assert(seq![rest[0]] + replaced(rest.drop_first(), pat@, rep@) == replaced(rest, pat@, rep@)) by {
                    if rest.len() < m {
                        assert(rest.drop_first().len() < m);
                        assert(rest =~= seq![rest[0]] + rest.drop_first());
                    }
                }
            }
            push_char(&mut out, v[i]);
            i += 1;
        }
    }
    assert(v@.skip(i as int) =~= Seq::<char>::empty());
    out
}

/// Result of std's `char::is_alphanumeric`: whether `c` has the Unicode Alphabetic or
/// Numeric property.
pub uninterp spec fn unicode_alphanumeric(c: char) -> bool;

/// std's `char::is_alphanumeric`. The contract names its result: the answer depends on
/// `c` alone and comes from the Unicode tables, which are not restated here.
#[verifier::external_body]
pub(crate) fn is_alphanumeric(c: char) -> (r: bool)
    ensures
        r == unicode_alphanumeric(c),
{
    c.is_alphanumeric()
}

/// The Unicode White_Space property: the characters that `char::is_whitespace` accepts.
pub open spec fn is_white_space(c: char) -> bool {
    let u = c as u32;
    ||| 0x09 <= u <= 0x0d
    ||| u == 0x20
    ||| u == 0x85
    ||| u == 0xa0
    ||| u == 0x1680
    ||| 0x2000 <= u <= 0x200a
    ||| u == 0x2028
    ||| u == 0x2029
    ||| u == 0x202f
    ||| u == 0x205f
    ||| u == 0x3000
}

/// Whether `c` has the Unicode White_Space property (what `char::is_whitespace` tells).
pub(crate) fn is_whitespace(c: char) -> (r: bool)
    ensures
        r == is_white_space(c),
{
    let u = c as u32;
    (0x09 <= u && u <= 0x0d) || u == 0x20 || u == 0x85 || u == 0xa0 || u == 0x1680 || (0x2000 <= u
        && u <= 0x200a) || u == 0x2028 || u == 0x2029 || u == 0x202f || u == 0x205f || u == 0x3000
}

/// `s` without its leading white space.
pub open spec fn trim_start(s: Seq<char>) -> Seq<char>
    decreases s.len(),
{
    if s.len() > 0 && is_white_space(s[0]) {
        trim_start(s.drop_first())
    } else {
        s
    }
}

/// `s` without its trailing white space.
pub open spec fn trim_end(s: Seq<char>) -> Seq<char>
    decreases s.len(),
{
    if s.len() > 0 && is_white_space(s.last()) {
        trim_end(s.drop_last())
    } else {
        s
    }
}

/// `s` without leading and trailing white space, as `str::trim` gives it.
pub open spec fn trimmed(s: Seq<char>) -> Seq<char> {
    trim_end(trim_start(s))
}

proof fn lemma_trim_start_at(s: Seq<char>, i: int)
    requires
        0 <= i <= s.len(),
        forall|k: int| 0 <= k < i ==> is_white_space(#[trigger] s[k]),
    ensures
        trim_start(s) == trim_start(s.skip(i)),
    decreases i,
{
    if i > 0 {
        assert forall|k: int| 0 <= k < i - 1 implies is_white_space(#[trigger] s.drop_first()[k]) by {
            assert(s.drop_first()[k] == s[k + 1]);
        }
        lemma_trim_start_at(s.drop_first(), i - 1);
        assert(s.drop_first().skip(i - 1) =~= s.skip(i));
    } else {
        assert(s.skip(0) =~= s);
    }
}

proof fn lemma_trim_end_at(s: Seq<char>, j: int)
    requires
        0 <= j <= s.len(),
        forall|k: int| j <= k < s.len() ==> is_white_space(#[trigger] s[k]),
    ensures
        trim_end(s) == trim_end(s.take(j)),
    decreases s.len() - j,
{
    if j < s.len() {
        assert forall|k: int| j <= k < s.drop_last().len() implies is_white_space(#[trigger] s.drop_last()[k]) by {
            assert(s.drop_last()[k] == s[k]);
        }
        assert(is_white_space(s.last()));
        lemma_trim_end_at(s.drop_last(), j);
        assert(s.drop_last().take(j) =~= s.take(j));
    } else {
        assert(s.take(j) =~= s);
    }
}

/// The range `[a, b)` of `v` that remains after trimming white space.
pub fn trim_range(v: &Vec<char>) -> (r: (usize, usize))
    ensures
        r.0 <= r.1 <= v@.len(),
        v@.subrange(r.0 as int, r.1 as int) == trimmed(v@),
        trim_start(v@) == v@.skip(r.0 as int),
{
    let n = v.len();
    let mut a: usize = 0;
    while a < n && is_whitespace(v[a])
        invariant
            n == v@.len(),
            0 <= a <= n,
            forall|k: int| 0 <= k < a ==> is_white_space(#[trigger] v@[k]),
        decreases n - a,
    {
        a += 1;
    }
    proof {
        lemma_trim_start_at(v@, a as int);
        if a < n {
            assert(!is_white_space(v@.skip(a as int)[0]));
        }
        assert(trim_start(v@.skip(a as int)) == v@.skip(a as int));
    }
    let mut b: usize = n;
    while b > a && is_whitespace(v[b - 1])
        invariant
            n == v@.len(),
            a <= b <= n,
            forall|k: int| b <= k < n ==> is_white_space(#[trigger] v@[k]),
        decreases b,
    {
        b -= 1;
    }
    proof {
        let t = v@.skip(a as int);
        assert forall|k: int| b - a <= k < t.len() implies is_white_space(#[trigger] t[k]) by {
            assert(t[k] == v@[a + k]);
        }
        lemma_trim_end_at(t, b - a);
        assert(t.take(b - a) =~= v@.subrange(a as int, b as int));
        if b > a {
            assert(!is_white_space(t.take(b - a).last()));
        }
        assert(trim_end(t.take(b - a)) == t.take(b - a));
    }
    (a, b)
}

/// `s` without leading and trailing white space.
pub fn trim(s: &str) -> (r: String)
    ensures
        r@ == trimmed(s@),
{
    let v = chars_of(s);
    let (a, b) = trim_range(&v);
    string_from_range(&v, a, b)
}

/// Number of characters before the first white space in `s`.
pub open spec fn word_len(s: Seq<char>) -> int
    decreases s.len(),
{
    if s.len() > 0 && !is_white_space(s[0]) {
        1 + word_len(s.drop_first())
    } else {
        0
    }
}

proof fn lemma_word_len(s: Seq<char>, i: int)
    requires
        0 <= i <= s.len(),
        forall|k: int| 0 <= k < i ==> !is_white_space(#[trigger] s[k]),
        i == s.len() || is_white_space(s[i]),
    ensures
        word_len(s) == i,
    decreases i,
{
    if i > 0 {
        assert forall|k: int| 0 <= k < i - 1 implies !is_white_space(#[trigger] s.drop_first()[k]) by {
            assert(s.drop_first()[k] == s[k + 1]);
        }
        lemma_word_len(s.drop_first(), i - 1);
    }
}

/// The first white-space separated word of `s`, or nothing when `s` is blank (what
/// `split_whitespace().next().unwrap_or("")` gives).
pub open spec fn first_word(s: Seq<char>) -> Seq<char> {
    let t = trim_start(s);
    t.take(word_len(t))
}

/// What follows the first word of `s`.
pub open spec fn after_first_word(s: Seq<char>) -> Seq<char> {
    let t = trim_start(s);
    t.skip(word_len(t))
}

/// The first word of `s` and what follows it.
pub fn split_first_word(s: &str) -> (r: (String, String))
    ensures
        r.0@ == first_word(s@),
        r.1@ == after_first_word(s@),
{
    let v = chars_of(s);
    let (a, _b) = trim_range(&v);
    let mut e = a;
    while e < v.len() && !is_whitespace(v[e])
        invariant
            a <= e <= v@.len(),
            forall|k: int| a <= k < e ==> !is_white_space(#[trigger] v@[k]),
        decreases v@.len() - e,
    {
        e += 1;
    }
    proof {
        let t = v@.skip(a as int);
        assert forall|k: int| 0 <= k < e - a implies !is_white_space(#[trigger] t[k]) by {
            assert(t[k] == v@[a + k]);
        }
        if e < v@.len() {
            assert(t[e - a] == v@[e as int]);
        }
        lemma_word_len(t, e - a);
        assert(t.take(e - a) =~= v@.subrange(a as int, e as int));
        assert(t.skip(e - a) =~= v@.subrange(e as int, v@.len() as int));
    }
    (string_from_range(&v, a, e), string_from_range(&v, e, v.len()))
}

proof fn lemma_trim_start_suffix(s: Seq<char>)
    ensures
        trim_start(s).len() <= s.len(),
        trim_start(s).len() > 0 ==> !is_white_space(trim_start(s)[0]),
        s.skip(s.len() - trim_start(s).len()) == trim_start(s),
    decreases s.len(),
{
    if s.len() > 0 && is_white_space(s[0]) {
        lemma_trim_start_suffix(s.drop_first());
        assert(s.drop_first().skip(s.drop_first().len() - trim_start(s).len()) =~= s.skip(s.len() - trim_start(s).len()));
    } else {
        assert(s.skip(0) =~= s);
    }
}

proof fn lemma_word_len_bounds(s: Seq<char>)
    ensures
        0 <= word_len(s) <= s.len(),
        s.len() > 0 && !is_white_space(s[0]) ==> word_len(s) > 0,
    decreases s.len(),
{
    if s.len() > 0 && !is_white_space(s[0]) {
        lemma_word_len_bounds(s.drop_first());
    }
}

/// The white-space separated words of `s`, in order (what `split_whitespace` yields).
pub open spec fn words(s: Seq<char>) -> Seq<Seq<char>>
    decreases s.len(),
{
    let t = trim_start(s);
    let n = word_len(t);
    if 0 < n <= t.len() <= s.len() {
        seq![t.take(n)] + words(t.skip(n))
    } else {
        Seq::empty()
    }
}

/// The words of `s`.
pub fn words_of(s: &str) -> (r: Vec<String>)
    ensures
        r.deep_view() == words(s@),
{
    let mut out: Vec<String> = Vec::new();
    let mut cur = s.to_owned();
    assert(out.deep_view() + words(cur@) =~= words(s@));
    loop
        invariant
            words(s@) == out.deep_view() + words(cur@),
        decreases cur@.len(),
    {
        let (w, rest) = split_first_word(cur.as_str());
        proof {
            lemma_trim_start_suffix(cur@);
            lemma_word_len_bounds(trim_start(cur@));
        }
        if w.as_str().is_empty() {
            assert(words(cur@) =~= Seq::<Seq<char>>::empty());
            assert(out.deep_view() + words(cur@) =~= out.deep_view());
            return out;
        }
        let ghost before = out.deep_view();
        out.push(w);
        assert(out.deep_view() =~= before.push(first_word(cur@)));
        assert(words(cur@) == seq![first_word(cur@)] + words(rest@));
        assert(before + words(cur@) =~= out.deep_view() + words(rest@));
        cur = rest;
    }
}

pub fn first_word_of(s: &str) -> (r: String)
    ensures
        r@ == first_word(s@),
{
    let v = chars_of(s);
    let (a, _b) = trim_range(&v);
    let mut e = a;
    while e < v.len() && !is_whitespace(v[e])
        invariant
            a <= e <= v@.len(),
            forall|k: int| a <= k < e ==> !is_white_space(#[trigger] v@[k]),
        decreases v@.len() - e,
    {
        e += 1;
    }
    proof {
        let t = v@.skip(a as int);
        assert forall|k: int| 0 <= k < e - a implies !is_white_space(#[trigger] t[k]) by {
            assert(t[k] == v@[a + k]);
        }
        if e < v@.len() {
            assert(t[e - a] == v@[e as int]);
        }
        lemma_word_len(t, e - a);
        assert(t.take(e - a) =~= v@.subrange(a as int, e as int));
    }
    string_from_range(&v, a, e)
}

/// One line as `str::lines` gives it: a line that ended with a newline loses a
/// carriage return before it.
pub open spec fn line_body(raw: Seq<char>, ended: bool) -> Seq<char> {
    if ended && raw.len() > 0 && raw.last() == '\r' {
        raw.drop_last()
    } else {
        raw
    }
}

/// The lines of `s`, as `str::lines` splits it: at each newline, with no empty line
/// after a final newline.
pub open spec fn lines(s: Seq<char>) -> Seq<Seq<char>>
    decreases s.len(),
{
    if s.len() == 0 {
        Seq::empty()
    } else {
        let i = first_index(s, '\n');
        if 0 <= i < s.len() {
            seq![line_body(s.take(i), true)] + lines(s.skip(i + 1))
        } else {
            seq![line_body(s, false)]
        }
    }
}

/// The lines of `s`.
pub fn lines_of(s: &str) -> (r: Vec<String>)
    ensures
        r.deep_view() == lines(s@),
{
    let v = chars_of(s);
    let n = v.len();
    let mut out: Vec<String> = Vec::new();
    let mut i: usize = 0;
    assert(v@.skip(0) =~= v@);
    while i < n
        invariant
            v@ == s@,
            n == v@.len(),
            0 <= i <= n,
            lines(s@) == out.deep_view() + lines(v@.skip(i as int)),
        decreases n - i,
    {
        let ghost rest = v@.skip(i as int);
        let mut j = i;
        while j < n && v[j] != '\n'
            invariant
                n == v@.len(),
                i <= j <= n,
                forall|k: int| i <= k < j ==> v@[k] != '\n',
            decreases n - j,
        {
            j += 1;
        }
        proof {
            assert forall|k: int| 0 <= k < j - i implies rest[k] != '\n' by {
                assert(rest[k] == v@[i + k]);
            }
            if j < n {
                assert(rest[j - i] == v@[j as int]);
            }
            lemma_first_index(rest, '\n', j - i);
        }
        let ended = j < n;
        let end = if ended && j > i && v[j - 1] == '\r' {
            j - 1
        } else {
            j
        };
        let line = string_from_range(&v, i, end);
        proof {
            if ended {
                assert(rest.take(j - i) =~= v@.subrange(i as int, j as int));
                if j > i && v@[j - 1] == '\r' {
                    assert(rest.take(j - i).drop_last() =~= v@.subrange(i as int, end as int));
                }
                assert(line@ == line_body(rest.take(j - i), true));
            } else {
                assert(rest =~= v@.subrange(i as int, j as int));
                assert(line@ == line_body(rest, false));
            }
        }
        let ghost before = out.deep_view();
        out.push(line);
        assert(out.deep_view() =~= before.push(line@));
        if ended {
            assert(rest.skip(j - i + 1) =~= v@.skip(j + 1));
            assert(lines(rest) == seq![line@] + lines(v@.skip(j + 1)));
            assert(before + lines(rest) =~= before.push(line@) + lines(v@.skip(j + 1)));
            i = j + 1;
        } else {
            assert(lines(rest) == seq![line@]);
            assert(v@.skip(n as int).len() == 0);
            assert(before + lines(rest) =~= before.push(line@) + lines(v@.skip(n as int)));
            i = n;
        }
    }
    assert(v@.skip(n as int).len() == 0);
    assert(out.deep_view() =~= lines(s@));
    out
}

/// The ASCII digit for `d`.
pub open spec fn digit_char(d: int) -> char {
    if d == 0 {
        '0'
    } else if d == 1 {
        '1'
    } else if d == 2 {
        '2'
    } else if d == 3 {
        '3'
    } else if d == 4 {
        '4'
    } else if d == 5 {
        '5'
    } else if d == 6 {
        '6'
    } else if d == 7 {
        '7'
    } else if d == 8 {
        '8'
    } else {
        '9'
    }
}

/// The decimal digits of `n`, without leading zeros (what `to_string` gives).
pub open spec fn decimal(n: nat) -> Seq<char>
    decreases n,
{
    if n < 10 {
        seq![digit_char(n as int)]
    } else {
        decimal(n / 10).push(digit_char((n % 10) as int))
    }
}

pub proof fn lemma_decimal_nonempty(n: nat)
    ensures
        decimal(n).len() >= 1,
        n >= 10 ==> decimal(n).len() >= 2,
    decreases n,
{
    if n >= 10 {
        lemma_decimal_nonempty(n / 10);
    }
}

/// Different numbers have different decimal forms.
pub proof fn lemma_decimal_injective(a: nat, b: nat)
    requires
        decimal(a) == decimal(b),
    ensures
        a == b,
    decreases a,
{
    lemma_decimal_nonempty(a);
    lemma_decimal_nonempty(b);
    if a < 10 && b < 10 {
        assert(decimal(a)[0] == decimal(b)[0]);
        assert(decimal(a)[0] == digit_char(a as int));
        assert(decimal(b)[0] == digit_char(b as int));
        assert(a == b);
    } else if a >= 10 && b >= 10 {
        assert(decimal(a).last() == decimal(b).last());
        assert(decimal(a).last() == digit_char((a % 10) as int));
        assert(decimal(b).last() == digit_char((b % 10) as int));
        assert(a % 10 == b % 10);
        assert(decimal(a).drop_last() =~= decimal(a / 10));
        assert(decimal(b).drop_last() =~= decimal(b / 10));
        lemma_decimal_injective(a / 10, b / 10);
        assert(a == 10 * (a / 10) + a % 10);
        assert(b == 10 * (b / 10) + b % 10);
        assert(a == b);
    } else if a < 10 {
        assert(decimal(a).len() == 1);
    } else {
        assert(decimal(b).len() == 1);
    }
}

fn digit(d: usize) -> (c: char)
    requires
        d < 10,
    ensures
        c == digit_char(d as int),
{
    if d == 0 {
        '0'
    } else if d == 1 {
        '1'
    } else if d == 2 {
        '2'
    } else if d == 3 {
        '3'
    } else if d == 4 {
        '4'
    } else if d == 5 {
        '5'
    } else if d == 6 {
        '6'
    } else if d == 7 {
        '7'
    } else if d == 8 {
        '8'
    } else {
        '9'
    }
}

/// `n` in decimal.
pub fn decimal_string(n: usize) -> (r: String)
    ensures
        r@ == decimal(n as nat),
    decreases n,
{
    if n < 10 {
        let mut s = String::new();
        push_char(&mut s, digit(n));
        s
    } else {
        let mut s = decimal_string(n / 10);
        push_char(&mut s, digit(n % 10));
        s
    }
}

/// `s` begins with `p`.
pub open spec fn has_prefix(s: Seq<char>, p: Seq<char>) -> bool {
    p.len() <= s.len() && s.take(p.len() as int) == p
}

/// `pat` occurs somewhere in `s`.
pub open spec fn contains_seq(s: Seq<char>, pat: Seq<char>) -> bool {
    exists|i: int| 0 <= i && i + pat.len() <= s.len() && #[trigger] s.subrange(i, i + pat.len()) == pat
}

pub fn starts_with(s: &str, p: &str) -> (r: bool)
    ensures
        r == has_prefix(s@, p@),
{
    let v = chars_of(s);
    let pv = chars_of(p);
    let r = occurs_at(&v, &pv, 0);
    assert(v@.subrange(0, pv@.len() as int) =~= v@.take(pv@.len() as int));
    r
}

pub fn contains(s: &str, pat: &str) -> (r: bool)
    ensures
        r == contains_seq(s@, pat@),
{
    let v = chars_of(s);
    let pv = chars_of(pat);
    let mut i: usize = 0;
    while i < v.len()
        invariant
            v@ == s@,
            pv@ == pat@,
            i <= v@.len(),
            forall|k: int| 0 <= k < i && k + pat@.len() <= s@.len() ==> #[trigger] s@.subrange(k, k + pat@.len()) != pat@,
        decreases v@.len() - i,
    {
        if occurs_at(&v, &pv, i) {
            return true;
        }
        i += 1;
    }
    occurs_at(&v, &pv, i)
}

/// The pieces of `list` joined with `sep` between them.
pub open spec fn joined(list: Seq<Seq<char>>, sep: Seq<char>) -> Seq<char>
    decreases list.len(),
{
    if list.len() == 0 {
        Seq::empty()
    } else if list.len() == 1 {
        list[0]
    } else {
        joined(list.drop_last(), sep) + sep + list.last()
    }
}

pub fn join(list: &Vec<String>, sep: &str) -> (r: String)
    ensures
        r@ == joined(list.deep_view(), sep@),
{
    let mut r = String::new();
    let ghost l = list.deep_view();
    for i in 0..list.len()
        invariant
            l == list.deep_view(),
            r@ == joined(l.take(i as int), sep@),
    {
        assert(l.take(i + 1).drop_last() =~= l.take(i as int));
        if i > 0 {
            r.append(sep);
        } else {
            assert(l.take(1) =~= seq![l[0]]);
        }
        r.append(list[i].as_str());
    }
    assert(l.take(list.len() as int) =~= l);
    r
}

/// Result of std's `str::to_lowercase`: the string with each character mapped to its
/// Unicode lowercase form.
pub uninterp spec fn lowercase(s: Seq<char>) -> Seq<char>;

/// std's `str::to_lowercase`. The contract names its result, which depends on `s`
/// alone; the Unicode case mappings are not restated.
#[verifier::external_body]
pub(crate) fn to_lowercase(s: &str) -> (r: String)
    ensures
        r@ == lowercase(s@),
{
    s.to_lowercase()
}

/// The number that the ASCII digit `c` stands for.
pub open spec fn digit_value(c: char) -> int {
    c as int - 48
}

pub open spec fn is_digit(c: char) -> bool {
    '0' <= c <= '9'
}

/// The number that a run of ASCII digits spells in decimal.
pub open spec fn digits_value(s: Seq<char>) -> nat
    decreases s.len(),
{
    if s.len() == 0 {
        0
    } else {
        (digits_value(s.drop_last()) * 10 + digit_value(s.last())) as nat
    }
}

/// What `str::parse::<usize>` gives: an optional `+` and then at least one ASCII
/// digit, whose value fits in a `usize`.
/// `s` without the `+` that may lead it.
pub open spec fn unsigned_digits(s: Seq<char>) -> Seq<char> {
    if s.len() > 0 && s[0] == '+' {
        s.drop_first()
    } else {
        s
    }
}

pub open spec fn parsed_usize(s: Seq<char>) -> Option<nat> {
    let d = unsigned_digits(s);
    if d.len() > 0 && (forall|k: int| 0 <= k < d.len() ==> is_digit(#[trigger] d[k])) && digits_value(d)
        <= usize::MAX {
        Some(digits_value(d))
    } else {
        None
    }
}

proof fn lemma_digits_value_grows(d: Seq<char>, i: int, j: int)
    requires
        0 <= i <= j <= d.len(),
        forall|k: int| 0 <= k < j ==> is_digit(#[trigger] d[k]),
    ensures
        digits_value(d.take(i)) <= digits_value(d.take(j)),
    decreases j - i,
{
    if i < j {
        lemma_digits_value_grows(d, i + 1, j);
        assert(d.take(i + 1).drop_last() =~= d.take(i));
        assert(is_digit(d[i]));
    }
}

/// `s` read as a `usize` in decimal, as `str::parse` reads it.
pub fn parse_usize(s: &str) -> (r: Option<usize>)
    ensures
        match r {
            Some(n) => parsed_usize(s@) == Some(n as nat),
            None => parsed_usize(s@) is None,
        },
{
    let v = chars_of(s);
    let start: usize = if v.len() > 0 && v[0] == '+' {
        1
    } else {
        0
    };
    let ghost d = unsigned_digits(s@);
    assert(d =~= v@.skip(start as int));
    if start == v.len() {
        return None;
    }
    let mut value: usize = 0;
    let mut i = start;
    while i < v.len()
        invariant
            v@ == s@,
            d == unsigned_digits(s@),
            d == v@.skip(start as int),
            start <= i <= v@.len(),
            forall|k: int| 0 <= k < i - start ==> is_digit(#[trigger] d[k]),
            value as nat == digits_value(d.take(i - start)),
        decreases v@.len() - i,
    {
        let c = v[i];
        assert(d[i - start] == c);
        if !('0' <= c && c <= '9') {
            assert(!is_digit(d[i - start]));
            assert(!(forall|k: int| 0 <= k < d.len() ==> is_digit(#[trigger] d[k])));
            return None;
        }
        let dv = (c as u32 - 48) as usize;
        assert(d.take(i - start + 1).drop_last() =~= d.take(i - start));
        match value.checked_mul(10) {
            None => {
                proof {
                    if forall|k: int| 0 <= k < d.len() ==> is_digit(#[trigger] d[k]) {
                        lemma_digits_value_grows(d, i - start + 1, d.len() as int);
                        assert(d.take(d.len() as int) =~= d);
                    }
                }
                return None;
            },
            Some(m) => match m.checked_add(dv) {
                None => {
                    proof {
                        if forall|k: int| 0 <= k < d.len() ==> is_digit(#[trigger] d[k]) {
                            lemma_digits_value_grows(d, i - start + 1, d.len() as int);
                            assert(d.take(d.len() as int) =~= d);
                        }
                    }
                    return None;
                },
                Some(nv) => {
                    value = nv;
                },
            },
        }
        i += 1;
    }
    assert(d.take(d.len() as int) =~= d);
    Some(value)
}

} // verus!
