//! Character-level text model shared by the parsers of this crate.
use vstd::prelude::*;

verus! {

/// The characters of `s`, in order.
pub fn chars_of(s: &str) -> (v: Vec<char>)
    ensures
        v@ == s@,
{
    let mut v: Vec<char> = Vec::new();
    for c in it: s.chars()
        invariant
            v@ == it.seq().take(it.index() as int),
            it.seq() == s@,
    {
        v.push(c);
    }
    v
}

} // verus!

verus! {

/// The Unicode `White_Space` property, which `char::is_whitespace`, `str::trim`
/// and `str::split_whitespace` go by.
pub open spec fn is_space(c: char) -> bool {
    let u = c as u32;
    ||| 0x09 <= u <= 0x0D
    ||| u == 0x20
    ||| u == 0x85
    ||| u == 0xA0
    ||| u == 0x1680
    ||| 0x2000 <= u <= 0x200A
    ||| u == 0x2028
    ||| u == 0x2029
    ||| u == 0x202F
    ||| u == 0x205F
    ||| u == 0x3000
}

/// `s` without its leading white space.
pub open spec fn trim_start(s: Seq<char>) -> Seq<char>
    decreases s.len(),
{
    if s.len() > 0 && is_space(s[0]) {
        trim_start(s.drop_first())
    } else {
        s
    }
}

/// `s` without its trailing white space.
pub open spec fn trim_end(s: Seq<char>) -> Seq<char>
    decreases s.len(),
{
    if s.len() > 0 && is_space(s.last()) {
        trim_end(s.drop_last())
    } else {
        s
    }
}

/// `s` without leading and trailing white space, as `str::trim` gives it.
pub open spec fn trim(s: Seq<char>) -> Seq<char> {
    trim_end(trim_start(s))
}

/// Whether `c` is white space.
pub fn is_space_char(c: char) -> (b: bool)
    ensures
        b == is_space(c),
{
    let u = c as u32;
    (0x09 <= u && u <= 0x0D) || u == 0x20 || u == 0x85 || u == 0xA0 || u == 0x1680 || (0x2000
        <= u && u <= 0x200A) || u == 0x2028 || u == 0x2029 || u == 0x202F || u == 0x205F || u
        == 0x3000
}

proof fn lemma_trim_start_skip(s: Seq<char>, i: int)
    requires
        0 <= i <= s.len(),
        forall|k: int| 0 <= k < i ==> is_space(#[trigger] s[k]),
    ensures
        trim_start(s) == trim_start(s.subrange(i, s.len() as int)),
    decreases i,
{
    if i > 0 {
        assert(s.drop_first().subrange(i - 1, s.drop_first().len() as int) =~= s.subrange(
            i,
            s.len() as int,
        ));
        assert forall|k: int| 0 <= k < i - 1 implies is_space(#[trigger] s.drop_first()[k]) by {
            assert(s.drop_first()[k] == s[k + 1]);
        }
        lemma_trim_start_skip(s.drop_first(), i - 1);
    } else {
        assert(s.subrange(0, s.len() as int) =~= s);
    }
}

proof fn lemma_trim_end_skip(s: Seq<char>, j: int)
    requires
        0 <= j <= s.len(),
        forall|k: int| j <= k < s.len() ==> is_space(#[trigger] s[k]),
    ensures
        trim_end(s) == trim_end(s.subrange(0, j)),
    decreases s.len() - j,
{
    if j < s.len() {
        assert(s.drop_last().subrange(0, j) =~= s.subrange(0, j));
        assert forall|k: int| j <= k < s.drop_last().len() implies is_space(
            #[trigger] s.drop_last()[k],
        ) by {
            assert(s.drop_last()[k] == s[k]);
        }
        lemma_trim_end_skip(s.drop_last(), j);
    } else {
        assert(s.subrange(0, j) =~= s);
    }
}

/// The bounds `(lo, hi)` of `trim(v)` inside `v`.
pub fn trim_bounds(v: &Vec<char>) -> (r: (usize, usize))
    ensures
        r.0 <= r.1 <= v.len(),
        trim(v@) == v@.subrange(r.0 as int, r.1 as int),
{
    let n = v.len();
    let mut lo: usize = 0;
    while lo < n && is_space_char(v[lo])
        invariant
            lo <= n,
            n == v.len(),
            forall|k: int| 0 <= k < lo ==> is_space(#[trigger] v@[k]),
        decreases n - lo,
    {
        lo = lo + 1;
    }
    proof {
        lemma_trim_start_skip(v@, lo as int);
    }
    let ghost rest = v@.subrange(lo as int, n as int);
    assert(trim_start(v@) == rest);
    let mut hi: usize = n;
    while hi > lo && is_space_char(v[hi - 1])
        invariant
            lo <= hi <= n,
            n == v.len(),
            rest == v@.subrange(lo as int, n as int),
            forall|k: int| hi <= k < n ==> is_space(#[trigger] v@[k]),
        decreases hi - lo,
    {
        hi = hi - 1;
    }
    proof {
        assert forall|k: int| hi - lo <= k < rest.len() implies is_space(#[trigger] rest[k]) by {
            assert(rest[k] == v@[k + lo]);
        }
        lemma_trim_end_skip(rest, hi - lo);
        assert(rest.subrange(0, hi - lo) =~= v@.subrange(lo as int, hi as int));
    }
    (lo, hi)
}

/// `s` without leading and trailing white space (`str::trim`).
pub fn trim_str(s: &str) -> (r: String)
    ensures
        r@ == trim(s@),
{
    let v = chars_of(s);
    let (lo, hi) = trim_bounds(&v);
    String::from_str(s.substring_char(lo, hi))
}

} // verus!

verus! {

/// The first index at or after `i` at which `s` holds `c`, or `s.len()`.
pub open spec fn next_char(s: Seq<char>, c: char, i: int) -> int
    decreases s.len() - i,
{
    if i < 0 || i >= s.len() {
        s.len() as int
    } else if s[i] == c {
        i
    } else {
        next_char(s, c, i + 1)
    }
}

pub proof fn lemma_next_char(s: Seq<char>, c: char, i: int)
    requires
        0 <= i <= s.len(),
    ensures
        i <= next_char(s, c, i) <= s.len(),
        next_char(s, c, i) < s.len() ==> s[next_char(s, c, i)] == c,
        forall|k: int| i <= k < next_char(s, c, i) ==> s[k] != c,
    decreases s.len() - i,
{
    if i < s.len() && s[i] != c {
        lemma_next_char(s, c, i + 1);
    }
}

/// `l` without one trailing carriage return.
pub open spec fn strip_cr(l: Seq<char>) -> Seq<char> {
    if l.len() > 0 && l.last() == '\r' {
        l.drop_last()
    } else {
        l
    }
}

/// The lines of `s` from position `i` on, as `str::lines` splits them: at each
/// `'\n'`, dropping a `'\r'` just before it; a final line ending adds no line.
pub open spec fn lines_from(s: Seq<char>, i: int) -> Seq<Seq<char>>
    decreases s.len() - i,
    via lines_from_decreases
{
    if i < 0 || i >= s.len() {
        Seq::empty()
    } else {
        let e = next_char(s, '\n', i);
        let body = s.subrange(i, e);
        if e < s.len() {
            seq![strip_cr(body)] + lines_from(s, e + 1)
        } else {
            seq![body]
        }
    }
}

#[via_fn]
proof fn lines_from_decreases(s: Seq<char>, i: int) {
    if 0 <= i < s.len() {
        lemma_next_char(s, '\n', i);
    }
}

/// The lines of `s` (`str::lines`).
pub open spec fn lines(s: Seq<char>) -> Seq<Seq<char>> {
    lines_from(s, 0)
}

/// The views of a vector of strings.
pub open spec fn views(v: Seq<String>) -> Seq<Seq<char>> {
    v.map_values(|x: String| x@)
}

/// The index of the first `c` at or after `i` in `v`, or `v.len()`.
pub fn find_char_from(v: &Vec<char>, c: char, i: usize) -> (r: usize)
    requires
        i <= v.len(),
    ensures
        r == next_char(v@, c, i as int),
        i <= r <= v.len(),
{
    let mut j = i;
    while j < v.len() && v[j] != c
        invariant
            i <= j <= v.len(),
            next_char(v@, c, i as int) == next_char(v@, c, j as int),
        decreases v.len() - j,
    {
        j = j + 1;
    }
    j
}

/// The lines of `text` (`str::lines`).
pub fn split_lines(text: &str) -> (r: Vec<String>)
    ensures
        views(r@) == lines(text@),
{
    let v = chars_of(text);
    let n = v.len();
    let mut out: Vec<String> = Vec::new();
    let mut i: usize = 0;
    while i < n
        invariant
            n == v.len(),
            v@ == text@,
            i <= n,
            lines(v@) == views(out@) + lines_from(v@, i as int),
        decreases n - i,
    {
        let e = find_char_from(&v, '\n', i);
        let mut k = e;
        if e < n && e > i && v[e - 1] == '\r' {
            k = e - 1;
        }
        proof {
            let body = v@.subrange(i as int, e as int);
            if e < n && e > i && v@[e - 1] == '\r' {
                assert(body.drop_last() =~= v@.subrange(i as int, k as int));
            }
            assert(lines_from(v@, i as int) == seq![v@.subrange(i as int, k as int)]
                + lines_from(v@, e + 1));
        }
        let ghost before = out@;
        out.push(String::from_str(text.substring_char(i, k)));
        proof {
            assert(views(out@) =~= views(before).push(v@.subrange(i as int, k as int)));
            assert(views(out@) + lines_from(v@, e + 1) =~= views(before) + (seq![
                v@.subrange(i as int, k as int),
            ] + lines_from(v@, e + 1)));
        }
        if e == n {
            i = n;
        } else {
            i = e + 1;
        }
    }
    assert(views(out@) + lines_from(v@, i as int) =~= views(out@));
    out
}

} // verus!

verus! {

/// The first index at or after `i` at which `s` holds white space, or `s.len()`.
pub open spec fn next_space(s: Seq<char>, i: int) -> int
    decreases s.len() - i,
{
    if i < 0 || i >= s.len() {
        s.len() as int
    } else if is_space(s[i]) {
        i
    } else {
        next_space(s, i + 1)
    }
}

pub proof fn lemma_next_space(s: Seq<char>, i: int)
    requires
        0 <= i <= s.len(),
    ensures
        i <= next_space(s, i) <= s.len(),
        next_space(s, i) < s.len() ==> is_space(s[next_space(s, i)]),
        forall|k: int| i <= k < next_space(s, i) ==> !is_space(#[trigger] s[k]),
    decreases s.len() - i,
{
    if i < s.len() && !is_space(s[i]) {
        lemma_next_space(s, i + 1);
    }
}

/// The white-space separated words of `s` from position `i` on.
pub open spec fn tokens_from(s: Seq<char>, i: int) -> Seq<Seq<char>>
    decreases s.len() - i,
    via tokens_from_decreases
{
    if i < 0 || i >= s.len() {
        Seq::empty()
    } else if is_space(s[i]) {
        tokens_from(s, i + 1)
    } else {
        let e = next_space(s, i);
        seq![s.subrange(i, e)] + tokens_from(s, e)
    }
}

#[via_fn]
proof fn tokens_from_decreases(s: Seq<char>, i: int) {
    if 0 <= i < s.len() && !is_space(s[i]) {
        lemma_next_space(s, i + 1);
    }
}

/// The white-space separated words of `s` (`str::split_whitespace`).
pub open spec fn tokens(s: Seq<char>) -> Seq<Seq<char>> {
    tokens_from(s, 0)
}

/// The first word of `s` (`s.split_whitespace().next()`).
pub open spec fn first_token(s: Seq<char>) -> Option<Seq<char>> {
    if tokens(s).len() > 0 {
        Some(tokens(s)[0])
    } else {
        None
    }
}

/// The white-space separated words of `text` (`str::split_whitespace`).
pub fn split_words(text: &str) -> (r: Vec<String>)
    ensures
        views(r@) == tokens(text@),
{
    let v = chars_of(text);
    let n = v.len();
    let mut out: Vec<String> = Vec::new();
    let mut i: usize = 0;
    while i < n
        invariant
            n == v.len(),
            v@ == text@,
            i <= n,
            tokens(v@) == views(out@) + tokens_from(v@, i as int),
        decreases n - i,
    {
        if is_space_char(v[i]) {
            i = i + 1;
        } else {
            let mut e = i + 1;
            while e < n && !is_space_char(v[e])
                invariant
                    i < e <= n,
                    n == v.len(),
                    next_space(v@, i as int) == next_space(v@, e as int),
                decreases n - e,
            {
                e = e + 1;
            }
            let ghost before = out@;
            out.push(String::from_str(text.substring_char(i, e)));
            proof {
                assert(views(out@) =~= views(before).push(v@.subrange(i as int, e as int)));
                assert(views(out@) + tokens_from(v@, e as int) =~= views(before) + (seq![
                    v@.subrange(i as int, e as int),
                ] + tokens_from(v@, e as int)));
            }
            i = e;
        }
    }
    assert(views(out@) + tokens_from(v@, i as int) =~= views(out@));
    out
}

/// The first word of `text`, if it has one.
pub fn first_word(text: &str) -> (r: Option<String>)
    ensures
        match r {
            Some(w) => first_token(text@) == Some(w@),
            None => first_token(text@) is None,
        },
{
    let mut words = split_words(text);
    if words.len() > 0 {
        assert(views(words@)[0] == words@[0]@);
        Some(words.swap_remove(0))
    } else {
        None
    }
}

/// `s` cut at its first `c` (`str::split_once` with a character).
pub open spec fn split_once(s: Seq<char>, c: char) -> Option<(Seq<char>, Seq<char>)> {
    let k = next_char(s, c, 0);
    if k < s.len() {
        Some((s.take(k), s.skip(k + 1)))
    } else {
        None
    }
}

/// `text` cut at its first `c`: what stands before it and what stands after it.
pub fn split_once_str(text: &str, c: char) -> (r: Option<(String, String)>)
    ensures
        match r {
            Some((a, b)) => split_once(text@, c) == Some((a@, b@)),
            None => split_once(text@, c) is None,
        },
{
    let v = chars_of(text);
    let k = find_char_from(&v, c, 0);
    if k < v.len() {
        let a = String::from_str(text.substring_char(0, k));
        let b = String::from_str(text.substring_char(k + 1, v.len()));
        assert(a@ =~= text@.take(k as int));
        assert(b@ =~= text@.skip(k + 1));
        Some((a, b))
    } else {
        None
    }
}

/// Whether `w` occurs in `v` at position `i`.
fn matches_at(v: &Vec<char>, w: &Vec<char>, i: usize) -> (b: bool)
    requires
        i + w.len() <= v.len(),
    ensures
        b == (v@.subrange(i as int, i + w.len()) == w@),
{
    let mut j: usize = 0;
    while j < w.len()
        invariant
            i + w.len() <= v.len(),
            j <= w.len(),
            forall|k: int| 0 <= k < j ==> v@[i + k] == w@[k],
        decreases w.len() - j,
    {
        if v[i + j] != w[j] {
            assert(v@.subrange(i as int, i + w.len())[j as int] != w@[j as int]);
            return false;
        }
        j = j + 1;
    }
    assert(v@.subrange(i as int, i + w.len()) =~= w@);
    true
}

/// Whether `p` begins `s` (`str::starts_with`).
pub open spec fn starts_with(s: Seq<char>, p: Seq<char>) -> bool {
    p.is_prefix_of(s)
}

/// Whether `s` ends with `p` (`str::ends_with`).
pub open spec fn ends_with(s: Seq<char>, p: Seq<char>) -> bool {
    p.is_suffix_of(s)
}

/// `s` without the prefix `p`, if `s` starts with it (`str::strip_prefix`).
pub open spec fn strip_prefix(s: Seq<char>, p: Seq<char>) -> Option<Seq<char>> {
    if starts_with(s, p) {
        Some(s.skip(p.len() as int))
    } else {
        None
    }
}

/// `s` without the suffix `p`, if `s` ends with it (`str::strip_suffix`).
pub open spec fn strip_suffix(s: Seq<char>, p: Seq<char>) -> Option<Seq<char>> {
    if ends_with(s, p) {
        Some(s.take(s.len() - p.len()))
    } else {
        None
    }
}

/// Whether `text` starts with `prefix`.
pub fn starts_with_str(text: &str, prefix: &str) -> (b: bool)
    ensures
        b == starts_with(text@, prefix@),
{
    let v = chars_of(text);
    let p = chars_of(prefix);
    if p.len() > v.len() {
        false
    } else {
        let m = matches_at(&v, &p, 0);
        assert(m == (v@.subrange(0, p@.len() as int) == p@));
        m
    }
}

/// `text` without the prefix `prefix`, if it starts with it.
pub fn strip_prefix_str(text: &str, prefix: &str) -> (r: Option<String>)
    ensures
        match r {
            Some(t) => strip_prefix(text@, prefix@) == Some(t@),
            None => strip_prefix(text@, prefix@) is None,
        },
{
    let v = chars_of(text);
    let p = chars_of(prefix);
    if p.len() > v.len() {
        None
    } else if matches_at(&v, &p, 0) {
        let t = String::from_str(text.substring_char(p.len(), v.len()));
        assert(t@ =~= text@.skip(prefix@.len() as int));
        Some(t)
    } else {
        None
    }
}

/// `text` without the suffix `suffix`, if it ends with it.
pub fn strip_suffix_str(text: &str, suffix: &str) -> (r: Option<String>)
    ensures
        match r {
            Some(t) => strip_suffix(text@, suffix@) == Some(t@),
            None => strip_suffix(text@, suffix@) is None,
        },
{
    let v = chars_of(text);
    let p = chars_of(suffix);
    if p.len() > v.len() {
        None
    } else if matches_at(&v, &p, v.len() - p.len()) {
        let t = String::from_str(text.substring_char(0, v.len() - p.len()));
        assert(v@.subrange(v.len() - p.len(), v.len() - p.len() + p.len()) =~= v@.subrange(
            v.len() - p.len(),
            v.len() as int,
        ));
        assert(t@ =~= text@.take(text@.len() - suffix@.len()));
        Some(t)
    } else {
        assert(v@.subrange(v.len() - p.len(), v.len() - p.len() + p.len()) =~= v@.subrange(
            v.len() - p.len(),
            v.len() as int,
        ));
        None
    }
}

/// The first position at or after `i` at which `n` occurs in `s`.
pub open spec fn find_from(s: Seq<char>, n: Seq<char>, i: int) -> Option<int>
    decreases s.len() + 1 - i,
{
    if i < 0 || i + n.len() > s.len() {
        None
    } else if s.subrange(i, i + n.len()) == n {
        Some(i)
    } else {
        find_from(s, n, i + 1)
    }
}

/// The first position at which `n` occurs in `s` (`str::find`, counted in characters).
pub open spec fn find(s: Seq<char>, n: Seq<char>) -> Option<int> {
    find_from(s, n, 0)
}

/// Whether `n` occurs in `s` (`str::contains`).
pub open spec fn contains(s: Seq<char>, n: Seq<char>) -> bool {
    exists|i: int| 0 <= i && i + n.len() <= s.len() && #[trigger] s.subrange(i, i + n.len()) == n
}

proof fn lemma_find_from(s: Seq<char>, n: Seq<char>, i: int)
    requires
        0 <= i,
        forall|k: int| 0 <= k < i && k + n.len() <= s.len() ==> #[trigger] s.subrange(k, k + n.len()) != n,
    ensures
        find_from(s, n, i) is Some <==> contains(s, n),
        find_from(s, n, i) matches Some(k) ==> 0 <= k && k + n.len() <= s.len() && s.subrange(k, k + n.len()) == n,
    decreases s.len() + 1 - i,
{
    if i + n.len() > s.len() {
        if contains(s, n) {
            let k = choose|k: int| 0 <= k && k + n.len() <= s.len() && #[trigger] s.subrange(k, k + n.len()) == n;
            assert(k < i);
        }
    } else if s.subrange(i, i + n.len()) == n {
    } else {
        lemma_find_from(s, n, i + 1);
    }
}

proof fn lemma_find_from_first(s: Seq<char>, n: Seq<char>, i: int, j: int)
    requires
        0 <= i <= j,
        j + n.len() <= s.len(),
        s.subrange(j, j + n.len()) == n,
        forall|k: int| i <= k < j ==> #[trigger] s.subrange(k, k + n.len()) != n,
    ensures
        find_from(s, n, i) == Some(j),
    decreases j - i,
{
    if i < j {
        assert(s.subrange(i, i + n.len()) != n);
        lemma_find_from_first(s, n, i + 1, j);
    }
}

/// `find` gives the first place of a match: where `n` occurs at `j` and nowhere
/// before, the search finds it at `j`.
pub proof fn lemma_find_first(s: Seq<char>, n: Seq<char>, j: int)
    requires
        0 <= j,
        j + n.len() <= s.len(),
        s.subrange(j, j + n.len()) == n,
        forall|k: int| 0 <= k < j ==> #[trigger] s.subrange(k, k + n.len()) != n,
    ensures
        find(s, n) == Some(j),
{
    lemma_find_from_first(s, n, 0, j);
}

/// The first position (in characters) at which `needle` occurs in `text`.
pub fn find_str(text: &str, needle: &str) -> (r: Option<usize>)
    ensures
        match r {
            Some(k) => find(text@, needle@) == Some(k as int),
            None => find(text@, needle@) is None,
        },
        r is Some <==> contains(text@, needle@),
{
    let v = chars_of(text);
    let w = chars_of(needle);
    proof {
        lemma_find_from(v@, w@, 0);
    }
    if w.len() > v.len() {
        return None;
    }
    let last = v.len() - w.len();
    let mut i: usize = 0;
    loop
        invariant
            last == v.len() - w.len(),
            w.len() <= v.len(),
            i <= last,
            v@ == text@,
            w@ == needle@,
            find(v@, w@) is Some <==> contains(v@, w@),
            find(v@, w@) == find_from(v@, w@, i as int),
        decreases last - i,
    {
        if matches_at(&v, &w, i) {
            return Some(i);
        }
        if i == last {
            assert(find_from(v@, w@, i + 1) is None);
            return None;
        }
        i = i + 1;
    }
}

/// Whether `needle` occurs in `text`.
pub fn contains_str(text: &str, needle: &str) -> (b: bool)
    ensures
        b == contains(text@, needle@),
{
    find_str(text, needle).is_some()
}

} // verus!

verus! {

/// The trimmed value after the first `':'` of `line`, when the line starts with `label`
/// and has a colon.
pub open spec fn labelled_value(line: Seq<char>, label: Seq<char>) -> Option<Seq<char>> {
    if starts_with(line, label) {
        match split_once(line, ':') {
            Some((_, v)) => Some(trim(v)),
            None => None,
        }
    } else {
        None
    }
}

/// The labelled value of the first of `ls` that has one for `label`.
pub open spec fn first_labelled(ls: Seq<Seq<char>>, label: Seq<char>) -> Option<Seq<char>>
    decreases ls.len(),
{
    if ls.len() == 0 {
        None
    } else {
        match labelled_value(ls[0], label) {
            Some(v) => Some(v),
            None => first_labelled(ls.drop_first(), label),
        }
    }
}

/// The labelled value of `line` for `label`.
pub fn labelled_value_of(line: &str, label: &str) -> (r: Option<String>)
    ensures
        match r {
            Some(v) => labelled_value(line@, label@) == Some(v@),
            None => labelled_value(line@, label@) is None,
        },
{
    if starts_with_str(line, label) {
        match split_once_str(line, ':') {
            Some((_, v)) => Some(trim_str(v.as_str())),
            None => None,
        }
    } else {
        None
    }
}

/// In `text`, the value after the colon of the first line that starts with
/// `label` and has a colon (as in `key : value` listings such as `/proc/cpuinfo`).
pub fn first_labelled_value(text: &str, label: &str) -> (r: Option<String>)
    ensures
        match r {
            Some(v) => first_labelled(lines(text@), label@) == Some(v@),
            None => first_labelled(lines(text@), label@) is None,
        },
{
    let ls = split_lines(text);
    let ghost all = views(ls@);
    assert(all.skip(0) =~= all);
    let mut i: usize = 0;
    while i < ls.len()
        invariant
            i <= ls.len(),
            all == views(ls@),
            all == lines(text@),
            first_labelled(all, label@) == first_labelled(all.skip(i as int), label@),
        decreases ls.len() - i,
    {
        assert(all.skip(i as int)[0] == ls@[i as int]@);
        assert(all.skip(i as int).drop_first() =~= all.skip(i + 1));
        match labelled_value_of(ls[i].as_str(), label) {
            Some(v) => {
                return Some(v);
            },
            None => {},
        }
        i = i + 1;
    }
    assert(all.skip(i as int) =~= Seq::<Seq<char>>::empty());
    None
}

} // verus!

verus! {

/// Where `find` finds `n` in `s`, `n` stands there, inside `s`.
pub proof fn lemma_find_bounds(s: Seq<char>, n: Seq<char>)
    ensures
        find(s, n) matches Some(k) ==> 0 <= k && k + n.len() <= s.len() && s.subrange(k, k + n.len()) == n,
{
    lemma_find_from(s, n, 0);
}

} // verus!

verus! {

proof fn lemma_trim_start_shape(s: Seq<char>)
    ensures
        trim_start(s).len() == 0 || !is_space(trim_start(s)[0]),
    decreases s.len(),
{
    if s.len() > 0 && is_space(s[0]) {
        lemma_trim_start_shape(s.drop_first());
    }
}

proof fn lemma_trim_end_shape(s: Seq<char>)
    ensures
        trim_end(s).len() <= s.len(),
        trim_end(s) == s.take(trim_end(s).len() as int),
        trim_end(s).len() == 0 || !is_space(trim_end(s).last()),
    decreases s.len(),
{
    if s.len() > 0 && is_space(s.last()) {
        lemma_trim_end_shape(s.drop_last());
        assert(s.drop_last().take(trim_end(s).len() as int) =~= s.take(trim_end(s).len() as int));
    } else {
        assert(s.take(s.len() as int) =~= s);
    }
}

/// White space around a text is what trimming takes away: where `pre` and `post`
/// are white space and `d` starts and ends with other characters, trimming
/// `pre + d + post` gives back `d`.
pub proof fn law_trim_around(pre: Seq<char>, d: Seq<char>, post: Seq<char>)
    requires
        forall|i: int| 0 <= i < pre.len() ==> is_space(#[trigger] pre[i]),
        forall|i: int| 0 <= i < post.len() ==> is_space(#[trigger] post[i]),
        d.len() > 0,
        !is_space(d[0]),
        !is_space(d.last()),
    ensures
        trim(pre + d + post) == d,
{
    let s = pre + d + post;
    let n = pre.len() as int;
    assert forall|k: int| 0 <= k < n implies is_space(#[trigger] s[k]) by {
        assert(s[k] == pre[k]);
    }
    lemma_trim_start_skip(s, n);
    let r = s.subrange(n, s.len() as int);
    assert(r =~= d + post);
    assert(r[0] == d[0]);
    assert(trim_start(r) == r);
    let m = d.len() as int;
    assert forall|k: int| m <= k < r.len() implies is_space(#[trigger] r[k]) by {
        assert(r[k] == post[k - m]);
    }
    lemma_trim_end_skip(r, m);
    assert(r.subrange(0, m) =~= d);
    assert(d.last() == d[m - 1]);
}

/// Trimming is done in one go: trimming the trimmed text changes nothing.
pub proof fn law_trim_idempotent(s: Seq<char>)
    ensures
        trim(trim(s)) == trim(s),
{
    let t = trim(s);
    lemma_trim_start_shape(s);
    lemma_trim_end_shape(trim_start(s));
    if t.len() > 0 {
        assert(t[0] == trim_start(s)[0]);
    }
    assert(trim_start(t) == t);
    assert(trim_end(t) == t);
}

} // verus!
