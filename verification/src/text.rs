//! Character-level string operations with their specifications.
//!
//! Strings are modelled by their views, sequences of `char`. Positions and
//! lengths here count characters.
use vstd::prelude::*;
use vstd::string::*;

verus! {

/// `p` occurs in `s` starting at character position `i`.
pub open spec fn occurs_at(s: Seq<char>, p: Seq<char>, i: int) -> bool {
    0 <= i && i + p.len() <= s.len() && s.subrange(i, i + p.len()) == p
}

/// `s` begins with `p`.
pub open spec fn starts_with(s: Seq<char>, p: Seq<char>) -> bool {
    occurs_at(s, p, 0)
}

/// `s` ends with `p`.
pub open spec fn ends_with(s: Seq<char>, p: Seq<char>) -> bool {
    p.len() <= s.len() && occurs_at(s, p, s.len() - p.len())
}

/// `p` occurs somewhere in `s`.
pub open spec fn contains(s: Seq<char>, p: Seq<char>) -> bool {
    exists|i: int| occurs_at(s, p, i)
}

/// The first position at or after `i` where `p` occurs in `s`.
pub open spec fn find_from(s: Seq<char>, p: Seq<char>, i: int) -> Option<int>
    decreases s.len() - i,
{
    if i < 0 || i + p.len() > s.len() {
        None
    } else if occurs_at(s, p, i) {
        Some(i)
    } else if i >= s.len() {
        None
    } else {
        find_from(s, p, i + 1)
    }
}

/// The first position where `p` occurs in `s`.
pub open spec fn find(s: Seq<char>, p: Seq<char>) -> Option<int> {
    find_from(s, p, 0)
}

pub proof fn lemma_find_from(s: Seq<char>, p: Seq<char>, i: int)
    requires
        0 <= i,
    ensures
        match find_from(s, p, i) {
            Some(k) => i <= k && occurs_at(s, p, k) && forall|j: int|
                i <= j < k ==> !#[trigger] occurs_at(s, p, j),
            None => forall|j: int| i <= j ==> !#[trigger] occurs_at(s, p, j),
        },
    decreases s.len() - i,
{
    if i + p.len() > s.len() {
    } else if occurs_at(s, p, i) {
    } else if i >= s.len() {
        assert(s.subrange(i, i + p.len()) =~= p);
    } else {
        lemma_find_from(s, p, i + 1);
    }
}

/// `find` gives the first occurrence, and nothing exactly when there is none.
pub proof fn lemma_find(s: Seq<char>, p: Seq<char>)
    ensures
        match find(s, p) {
            Some(k) => occurs_at(s, p, k) && forall|j: int|
                0 <= j < k ==> !#[trigger] occurs_at(s, p, j),
            None => !contains(s, p),
        },
        find(s, p) is Some <==> contains(s, p),
{
    lemma_find_from(s, p, 0);
}

/// The characters of `s`, in order.
pub fn chars_of(s: &str) -> (v: Vec<char>)
    ensures
        v@ == s@,
{
    let n = s.unicode_len();
    let mut v: Vec<char> = Vec::new();
    let mut i: usize = 0;
    while i < n
        invariant
            n == s@.len(),
            i <= n,
            v@ == s@.take(i as int),
        decreases n - i,
    {
        let c = s.get_char(i);
        v.push(c);
        i += 1;
        assert(v@ =~= s@.take(i as int));
    }
    assert(v@ =~= s@);
    v
}

/// Whether `p` occurs in `s` at position `i`.
pub fn matches_at(s: &Vec<char>, p: &Vec<char>, i: usize) -> (r: bool)
    ensures
        r == occurs_at(s@, p@, i as int),
{
    if i > s.len() || s.len() - i < p.len() {
        return false;
    }
    let mut j: usize = 0;
    while j < p.len()
        invariant
            i + p.len() <= s.len(),
            j <= p.len(),
            forall|k: int| 0 <= k < j ==> s@[i + k] == p@[k],
        decreases p.len() - j,
    {
        if s[i + j] != p[j] {
            assert(s@.subrange(i as int, i + p.len())[j as int] != p@[j as int]);
            return false;
        }
        j += 1;
    }
    assert(s@.subrange(i as int, i + p.len()) =~= p@);
    true
}

/// The first position at or after `from` where `p` occurs in `s`.
pub fn find_chars_from(s: &Vec<char>, p: &Vec<char>, from: usize) -> (r: Option<usize>)
    ensures
        match r {
            Some(k) => find_from(s@, p@, from as int) == Some(k as int),
            None => find_from(s@, p@, from as int) is None,
        },
{
    let mut i = from;
    while i <= s.len() && s.len() - i >= p.len()
        invariant
            from <= i,
            find_from(s@, p@, from as int) == find_from(s@, p@, i as int),
        decreases s.len() + 1 - i,
    {
        if matches_at(s, p, i) {
            return Some(i);
        }
        if i >= s.len() {
            return None;
        }
        i += 1;
    }
    None
}

/// Every non-overlapping occurrence of `p` in `s`, scanned left to right,
/// replaced by `r`.
pub open spec fn replace(s: Seq<char>, p: Seq<char>, r: Seq<char>) -> Seq<char>
    decreases s.len(),
{
    if s.len() == 0 || p.len() == 0 {
        s
    } else if starts_with(s, p) {
        r + replace(s.skip(p.len() as int), p, r)
    } else {
        seq![s[0]] + replace(s.skip(1), p, r)
    }
}

proof fn lemma_replace_step(s: Seq<char>, p: Seq<char>, r: Seq<char>, i: int)
    requires
        0 <= i < s.len(),
        p.len() > 0,
    ensures
        replace(s.skip(i), p, r) == if occurs_at(s, p, i) {
            r + replace(s.skip(i + p.len()), p, r)
        } else {
            seq![s[i]] + replace(s.skip(i + 1), p, r)
        },
{
    let t = s.skip(i);
    assert(t.len() > 0);
    if occurs_at(s, p, i) {
        assert(t.subrange(0, p.len() as int) =~= s.subrange(i, i + p.len()));
        assert(t.skip(p.len() as int) =~= s.skip(i + p.len()));
    } else {
        if starts_with(t, p) {
            assert(t.subrange(0, p.len() as int) =~= s.subrange(i, i + p.len()));
        }
        assert(t.skip(1) =~= s.skip(i + 1));
    }
}

/// Text in which `p` never occurs is left as it is by replacing `p`.
pub proof fn lemma_replace_absent(s: Seq<char>, p: Seq<char>, r: Seq<char>)
    requires
        forall|i: int| !#[trigger] occurs_at(s, p, i),
    ensures
        replace(s, p, r) == s,
    decreases s.len(),
{
    if s.len() > 0 && p.len() > 0 {
        assert(!occurs_at(s, p, 0));
        let t = s.skip(1);
        assert forall|i: int| !#[trigger] occurs_at(t, p, i) by {
            if occurs_at(t, p, i) {
                assert(t.subrange(i, i + p.len()) =~= s.subrange(i + 1, i + 1 + p.len()));
                assert(occurs_at(s, p, i + 1));
            }
        }
        lemma_replace_absent(t, p, r);
        assert(seq![s[0]] + t =~= s);
    }
}

/// `s` with every occurrence of `pat` replaced by `rep`.
pub fn replace_all(s: &str, pat: &str, rep: &str) -> (out: String)
    requires
        pat@.len() > 0,
    ensures
        out@ == replace(s@, pat@, rep@),
{
    let sv = chars_of(s);
    let pv = chars_of(pat);
    let n = sv.len();
    let mut out = String::new();
    let mut i: usize = 0;
    let mut seg: usize = 0;
    assert(s@.skip(0) =~= s@);
    while i < n
        invariant
            n == s@.len(),
            sv@ == s@,
            pv@ == pat@,
            pat@.len() > 0,
            seg <= i <= n,
            out@ + s@.subrange(seg as int, i as int) + replace(s@.skip(i as int), pat@, rep@)
                == replace(s@, pat@, rep@),
        decreases n - i,
    {
        proof {
            lemma_replace_step(s@, pat@, rep@, i as int);
        }
        if matches_at(&sv, &pv, i) {
            let ghost old_out = out@;
            let ghost old_seg = seg;
            let ghost old_i = i;
            out.append(s.substring_char(seg, i));
            out.append(rep);
            i = i + pv.len();
            seg = i;
            assert(out@ =~= old_out + s@.subrange(old_seg as int, old_i as int) + rep@);
            assert(out@ + s@.subrange(seg as int, i as int) + replace(s@.skip(i as int), pat@, rep@)
                =~= old_out + s@.subrange(old_seg as int, old_i as int) + (rep@
                + replace(s@.skip(i as int), pat@, rep@)));
        } else {
            let ghost old_i = i;
            i = i + 1;
            assert(s@.subrange(seg as int, i as int) =~= s@.subrange(seg as int, old_i as int).push(s@[old_i as int]));
            assert(s@.subrange(seg as int, old_i as int) + (seq![s@[old_i as int]] + replace(s@.skip(i as int), pat@, rep@))
                =~= s@.subrange(seg as int, i as int) + replace(s@.skip(i as int), pat@, rep@));
        }
    }
    assert(s@.skip(n as int) =~= Seq::<char>::empty());
    out.append(s.substring_char(seg, n));
    out
}

/// `s` with trailing copies of `p` removed, one at a time, while it ends with `p`.
pub open spec fn trim_end_matches(s: Seq<char>, p: Seq<char>) -> Seq<char>
    decreases s.len(),
{
    if p.len() > 0 && ends_with(s, p) {
        trim_end_matches(s.take(s.len() - p.len()), p)
    } else {
        s
    }
}

/// `s` with trailing copies of `pat` removed.
pub fn trim_end_matches_str(s: &str, pat: &str) -> (out: String)
    ensures
        out@ == trim_end_matches(s@, pat@),
{
    let sv = chars_of(s);
    let pv = chars_of(pat);
    let mut end = sv.len();
    assert(s@.take(end as int) =~= s@);
    if pv.len() > 0 {
        while end >= pv.len() && matches_at(&sv, &pv, end - pv.len())
            invariant
                sv@ == s@,
                pv@ == pat@,
                pat@.len() > 0,
                end <= s@.len(),
                trim_end_matches(s@.take(end as int), pat@) == trim_end_matches(s@, pat@),
            decreases end,
        {
            let ghost t = s@.take(end as int);
            let k = end - pv.len();
            assert(t.subrange(k as int, end as int) =~= s@.subrange(k as int, end as int));
            assert(t.take(k as int) =~= s@.take(k as int));
            end = k;
        }
        let ghost t = s@.take(end as int);
        if end >= pv.len() {
            let k = end - pv.len();
            assert(t.subrange(k as int, end as int) =~= s@.subrange(k as int, end as int));
        }
    }
    let r = s.substring_char(0, end);
    assert(r@ =~= s@.take(end as int));
    r.to_owned()
}

/// Position of the last `c` in `s`, or -1 when there is none.
pub open spec fn last_index_of(s: Seq<char>, c: char) -> int
    decreases s.len(),
{
    if s.len() == 0 {
        -1
    } else if s.last() == c {
        s.len() - 1
    } else {
        last_index_of(s.drop_last(), c)
    }
}

/// The part of `s` after its last `c`; all of `s` when it holds no `c`.
pub open spec fn last_segment(s: Seq<char>, c: char) -> Seq<char> {
    s.skip(last_index_of(s, c) + 1)
}

proof fn lemma_last_index_bounds(s: Seq<char>, c: char)
    ensures
        -1 <= last_index_of(s, c) < s.len(),
        last_index_of(s, c) >= 0 ==> s[last_index_of(s, c)] == c,
        forall|j: int| last_index_of(s, c) < j < s.len() ==> s[j] != c,
    decreases s.len(),
{
    if s.len() > 0 && s.last() != c {
        lemma_last_index_bounds(s.drop_last(), c);
        assert forall|j: int| last_index_of(s, c) < j < s.len() implies s[j] != c by {
            if j < s.len() - 1 {
                assert(s.drop_last()[j] == s[j]);
            }
        }
    }
}

/// The part of `s` after its last `c`.
pub fn last_segment_str(s: &str, c: char) -> (out: String)
    ensures
        out@ == last_segment(s@, c),
{
    let sv = chars_of(s);
    let mut i = sv.len();
    assert(s@.take(i as int) =~= s@);
    while i > 0 && sv[i - 1] != c
        invariant
            sv@ == s@,
            i <= s@.len(),
            last_index_of(s@.take(i as int), c) == last_index_of(s@, c),
        decreases i,
    {
        assert(s@.take(i as int).drop_last() =~= s@.take(i - 1));
        i -= 1;
    }
    if i > 0 {
        assert(s@.take(i as int).last() == c);
    }
    proof {
        lemma_last_index_bounds(s@, c);
    }
    let r = s.substring_char(i, sv.len());
    r.to_owned()
}

/// Whether `s` begins with `p`.
pub fn str_starts_with(s: &str, p: &str) -> (r: bool)
    ensures
        r == starts_with(s@, p@),
{
    let sv = chars_of(s);
    let pv = chars_of(p);
    matches_at(&sv, &pv, 0)
}

/// Whether `p` occurs in `s`.
pub fn str_contains(s: &str, p: &str) -> (r: bool)
    ensures
        r == contains(s@, p@),
{
    let sv = chars_of(s);
    let pv = chars_of(p);
    let r = find_chars_from(&sv, &pv, 0);
    proof {
        lemma_find(s@, p@);
    }
    r.is_some()
}

/// The first position of `p` in `s`.
pub fn str_find(s: &str, p: &str) -> (r: Option<usize>)
    ensures
        match r {
            Some(k) => find(s@, p@) == Some(k as int),
            None => find(s@, p@) is None,
        },
{
    let sv = chars_of(s);
    let pv = chars_of(p);
    find_chars_from(&sv, &pv, 0)
}

/// `s` without its prefix `p`, when it begins with `p`.
pub fn str_strip_prefix(s: &str, p: &str) -> (r: Option<String>)
    ensures
        match r {
            Some(t) => starts_with(s@, p@) && t@ == s@.skip(p@.len() as int),
            None => !starts_with(s@, p@),
        },
{
    if str_starts_with(s, p) {
        let n = s.unicode_len();
        let k = p.unicode_len();
        let t = s.substring_char(k, n);
        assert(t@ =~= s@.skip(p@.len() as int));
        Some(t.to_owned())
    } else {
        None
    }
}

/// The characters that `char::is_whitespace` accepts: those with the Unicode
/// `White_Space` property.
pub open spec fn is_whitespace(c: char) -> bool {
    let u = c as u32;
    ||| 0x09 <= u <= 0x0D
    ||| u == 0x20
    ||| u == 0x85
    ||| u == 0xA0
    ||| u == 0x1680
    ||| 0x2000 <= u <= 0x200A
    ||| u == 0x2028
    ||| u == 0x2029
    ||| u == 0x202F
    ||| u == 0x205F
    ||| u == 0x3000
}

/// Whether `c` is whitespace.
pub fn is_whitespace_char(c: char) -> (r: bool)
    ensures
        r == is_whitespace(c),
{
    let u = c as u32;
    (0x09 <= u && u <= 0x0D) || u == 0x20 || u == 0x85 || u == 0xA0 || u == 0x1680 || (0x2000
        <= u && u <= 0x200A) || u == 0x2028 || u == 0x2029 || u == 0x202F || u == 0x205F || u
        == 0x3000
}

/// The predicate "is the character `sep`".
pub open spec fn is_char(sep: char) -> spec_fn(char) -> bool {
    |c: char| c == sep
}

/// The predicate "is whitespace".
pub open spec fn whitespace() -> spec_fn(char) -> bool {
    |c: char| is_whitespace(c)
}

/// The pieces of `s` between the characters that satisfy `f`; there is one
/// piece more than there are such characters.
pub open spec fn split_where(s: Seq<char>, f: spec_fn(char) -> bool) -> Seq<Seq<char>>
    decreases s.len(),
{
    if s.len() == 0 {
        seq![Seq::<char>::empty()]
    } else {
        let ps = split_where(s.drop_last(), f);
        if f(s.last()) {
            ps.push(Seq::<char>::empty())
        } else {
            ps.update(ps.len() - 1, ps.last().push(s.last()))
        }
    }
}

pub proof fn lemma_split_where_nonempty(s: Seq<char>, f: spec_fn(char) -> bool)
    ensures
        split_where(s, f).len() >= 1,
    decreases s.len(),
{
    if s.len() > 0 {
        lemma_split_where_nonempty(s.drop_last(), f);
    }
}

/// The pieces of `ps` that are not empty, in order.
pub open spec fn nonempty(ps: Seq<Seq<char>>) -> Seq<Seq<char>>
    decreases ps.len(),
{
    if ps.len() == 0 {
        ps
    } else {
        let rest = nonempty(ps.drop_last());
        if ps.last().len() > 0 {
            rest.push(ps.last())
        } else {
            rest
        }
    }
}

/// The whitespace-separated words of `s`.
pub open spec fn words(s: Seq<char>) -> Seq<Seq<char>> {
    nonempty(split_where(s, whitespace()))
}

/// The pieces of `s` between occurrences of `sep`.
pub fn split_on_char(s: &str, sep: char) -> (pieces: Vec<String>)
    ensures
        pieces.deep_view() == split_where(s@, is_char(sep)),
{
    let sv = chars_of(s);
    let n = sv.len();
    let mut pieces: Vec<String> = Vec::new();
    let mut start: usize = 0;
    let mut i: usize = 0;
    assert(s@.take(0) =~= Seq::<char>::empty());
    while i < n
        invariant
            sv@ == s@,
            n == s@.len(),
            start <= i <= n,
            pieces.deep_view() == split_where(s@.take(i as int), is_char(sep)).drop_last(),
            split_where(s@.take(i as int), is_char(sep)).last() == s@.subrange(
                start as int,
                i as int,
            ),
        decreases n - i,
    {
        let ghost t = s@.take(i as int);
        let ghost ps = split_where(t, is_char(sep));
        proof {
            lemma_split_where_nonempty(t, is_char(sep));
        }
        let ghost t1 = s@.take(i + 1);
        assert(t1.drop_last() =~= t);
        assert(t1.last() == s@[i as int]);
        if sv[i] == sep {
            assert(ps.drop_last().push(ps.last()) =~= ps);
            let piece = s.substring_char(start, i).to_owned();
            pieces.push(piece);
            i += 1;
            start = i;
            assert(pieces.deep_view() =~= ps);
            assert(ps.push(Seq::<char>::empty()).drop_last() =~= ps);
            assert(s@.subrange(start as int, i as int) =~= Seq::<char>::empty());
        } else {
            i += 1;
            assert(ps.update(ps.len() - 1, ps.last().push(s@[i - 1])).drop_last() =~= ps.drop_last());
            assert(s@.subrange(start as int, i as int) =~= s@.subrange(start as int, i - 1).push(
                s@[i - 1],
            ));
        }
    }
    assert(s@.take(n as int) =~= s@);
    proof {
        lemma_split_where_nonempty(s@, is_char(sep));
    }
    let ghost ps = split_where(s@, is_char(sep));
    assert(ps.drop_last().push(ps.last()) =~= ps);
    let last = s.substring_char(start, n).to_owned();
    pieces.push(last);
    assert(pieces.deep_view() =~= ps);
    pieces
}

/// The whitespace-separated words of `s`.
pub fn split_whitespace(s: &str) -> (ws: Vec<String>)
    ensures
        ws.deep_view() == words(s@),
{
    let sv = chars_of(s);
    let n = sv.len();
    let mut ws: Vec<String> = Vec::new();
    let mut start: usize = 0;
    let mut i: usize = 0;
    assert(s@.take(0) =~= Seq::<char>::empty());
    while i < n
        invariant
            sv@ == s@,
            n == s@.len(),
            start <= i <= n,
            ws.deep_view() == nonempty(split_where(s@.take(i as int), whitespace()).drop_last()),
            split_where(s@.take(i as int), whitespace()).last() == s@.subrange(
                start as int,
                i as int,
            ),
        decreases n - i,
    {
        let ghost t = s@.take(i as int);
        let ghost ps = split_where(t, whitespace());
        proof {
            lemma_split_where_nonempty(t, whitespace());
        }
        let ghost t1 = s@.take(i + 1);
        assert(t1.drop_last() =~= t);
        assert(t1.last() == s@[i as int]);
        if is_whitespace_char(sv[i]) {
            assert(ps.drop_last().push(ps.last()) =~= ps);
            if start < i {
                let w = s.substring_char(start, i).to_owned();
                ws.push(w);
            }
            i += 1;
            start = i;
            assert(ps.push(Seq::<char>::empty()).drop_last() =~= ps);
            assert(ws.deep_view() =~= nonempty(ps));
            assert(s@.subrange(start as int, i as int) =~= Seq::<char>::empty());
        } else {
            i += 1;
            assert(ps.update(ps.len() - 1, ps.last().push(s@[i - 1])).drop_last() =~= ps.drop_last());
            assert(s@.subrange(start as int, i as int) =~= s@.subrange(start as int, i - 1).push(
                s@[i - 1],
            ));
        }
    }
    assert(s@.take(n as int) =~= s@);
    proof {
        lemma_split_where_nonempty(s@, whitespace());
    }
    let ghost ps = split_where(s@, whitespace());
    assert(ps.drop_last().push(ps.last()) =~= ps);
    if start < n {
        let w = s.substring_char(start, n).to_owned();
        ws.push(w);
    }
    assert(ws.deep_view() =~= nonempty(ps));
    ws
}

/// `s` without leading whitespace.
pub open spec fn trim_start(s: Seq<char>) -> Seq<char>
    decreases s.len(),
{
    if s.len() > 0 && is_whitespace(s[0]) {
        trim_start(s.drop_first())
    } else {
        s
    }
}

/// `s` without trailing whitespace.
pub open spec fn trim_end(s: Seq<char>) -> Seq<char>
    decreases s.len(),
{
    if s.len() > 0 && is_whitespace(s.last()) {
        trim_end(s.drop_last())
    } else {
        s
    }
}

/// `s` without leading and trailing whitespace.
pub open spec fn trim(s: Seq<char>) -> Seq<char> {
    trim_end(trim_start(s))
}

/// `s` without leading and trailing whitespace.
pub fn trim_str(s: &str) -> (out: String)
    ensures
        out@ == trim(s@),
{
    let sv = chars_of(s);
    let n = sv.len();
    let mut a: usize = 0;
    assert(s@.skip(0) =~= s@);
    while a < n && is_whitespace_char(sv[a])
        invariant
            sv@ == s@,
            n == s@.len(),
            a <= n,
            trim_start(s@.skip(a as int)) == trim_start(s@),
        decreases n - a,
    {
        assert(s@.skip(a as int).drop_first() =~= s@.skip(a + 1));
        a += 1;
    }
    let mut b: usize = n;
    assert(s@.subrange(a as int, b as int) =~= s@.skip(a as int));
    while b > a && is_whitespace_char(sv[b - 1])
        invariant
            sv@ == s@,
            n == s@.len(),
            a <= b <= n,
            trim_end(s@.subrange(a as int, b as int)) == trim(s@),
        decreases b,
    {
        assert(s@.subrange(a as int, b as int).drop_last() =~= s@.subrange(a as int, b - 1));
        b -= 1;
    }
    let r = s.substring_char(a, b);
    r.to_owned()
}

} // verus!
