//! Character-level text operations used by the lockfile parsers and the purl
//! builder, each proved against a plain mathematical description over
//! `Seq<char>`.
use vstd::prelude::*;

verus! {

/// Unicode `White_Space` property, the set that `char::is_whitespace` and
/// `str::trim` use.
pub open spec fn is_white_space(c: char) -> bool {
    ||| ('\u{9}' <= c && c <= '\u{d}')
    ||| c == ' '
    ||| c == '\u{85}'
    ||| c == '\u{a0}'
    ||| c == '\u{1680}'
    ||| ('\u{2000}' <= c && c <= '\u{200a}')
    ||| c == '\u{2028}'
    ||| c == '\u{2029}'
    ||| c == '\u{202f}'
    ||| c == '\u{205f}'
    ||| c == '\u{3000}'
}

/// `s` without its leading white space.
pub open spec fn trim_start(s: Seq<char>) -> Seq<char>
    decreases s.len(),
{
    if s.len() > 0 && is_white_space(s[0]) {
        trim_start(s.drop_first())
    } else {
        s
    }
}

/// `s` without its trailing white space.
pub open spec fn trim_end(s: Seq<char>) -> Seq<char>
    decreases s.len(),
{
    if s.len() > 0 && is_white_space(s.last()) {
        trim_end(s.drop_last())
    } else {
        s
    }
}

/// `s` without leading and trailing white space (`str::trim`).
pub open spec fn trim(s: Seq<char>) -> Seq<char> {
    trim_end(trim_start(s))
}

/// ASCII upper-case letters mapped to lower case, every other character kept
/// (`char::to_ascii_lowercase`).
pub open spec fn ascii_lower(c: char) -> char {
    if 'A' <= c && c <= 'Z' {
        ((c as u32) + 32) as char
    } else {
        c
    }
}

/// Index of the first occurrence of `c` in `s`.
pub open spec fn first_index(s: Seq<char>, c: char) -> Option<int>
    decreases s.len(),
{
    if s.len() == 0 {
        None
    } else if s[0] == c {
        Some(0)
    } else {
        match first_index(s.drop_first(), c) {
            Some(i) => Some(i + 1),
            None => None,
        }
    }
}

/// `p` occurs in `s` starting at index `k`.
pub open spec fn occurs_at(s: Seq<char>, p: Seq<char>, k: int) -> bool {
    0 <= k && k + p.len() <= s.len() && s.subrange(k, k + p.len()) == p
}

/// Start of the first occurrence of `p` in `s` (`str::find` with a string pattern).
pub open spec fn find_first(s: Seq<char>, p: Seq<char>) -> Option<int>
    decreases s.len(),
{
    if s.len() < p.len() {
        None
    } else if s.subrange(0, p.len() as int) == p {
        Some(0)
    } else if s.len() == 0 {
        None
    } else {
        match find_first(s.drop_first(), p) {
            Some(i) => Some(i + 1),
            None => None,
        }
    }
}

/// Start of the last occurrence of `p` in `s` (`str::rfind` with a string pattern).
pub open spec fn find_last(s: Seq<char>, p: Seq<char>) -> Option<int>
    decreases s.len(),
{
    if s.len() < p.len() {
        None
    } else if occurs_at(s, p, s.len() - p.len()) {
        Some(s.len() - p.len())
    } else if s.len() == 0 {
        None
    } else {
        find_last(s.drop_last(), p)
    }
}

/// `s` ends with `p`.
pub open spec fn has_suffix(s: Seq<char>, p: Seq<char>) -> bool {
    p.len() <= s.len() && s.subrange(s.len() - p.len(), s.len() as int) == p
}

/// What std's `Debug` formatting makes of a string slice (`format!("{:?}", s)`):
/// the text in double quotes, with escapes.
pub uninterp spec fn debug_text(s: Seq<char>) -> Seq<char>;

/// `format!("{:?}", s)`: std's `Debug` formatting of a string slice. Claims
/// only that the result is a function of the characters of `s`.
#[verifier::external_body]
pub(crate) fn debug_quoted(s: &str) -> (out: String)
    ensures
        out@ == debug_text(s@),
{
    format!("{:?}", s)
}

proof fn lemma_trim_start_shape(s: Seq<char>)
    ensures
        exists|k: int| 0 <= k <= s.len() && trim_start(s) == s.skip(k),
        trim_start(s).len() > 0 ==> !is_white_space(trim_start(s)[0]),
    decreases s.len(),
{
    if s.len() > 0 && is_white_space(s[0]) {
        lemma_trim_start_shape(s.drop_first());
        let k = choose|k: int|
            0 <= k <= s.drop_first().len() && trim_start(s.drop_first()) == s.drop_first().skip(k);
        assert(s.drop_first().skip(k) =~= s.skip(k + 1));
    } else {
        assert(s.skip(0) =~= s);
    }
}

proof fn lemma_trim_end_shape(s: Seq<char>)
    ensures
        exists|k: int| 0 <= k <= s.len() && trim_end(s) == s.take(k),
        trim_end(s).len() > 0 ==> !is_white_space(trim_end(s).last()),
        s.len() > 0 && !is_white_space(s[0]) && trim_end(s).len() > 0 ==> trim_end(s)[0] == s[0],
    decreases s.len(),
{
    if s.len() > 0 && is_white_space(s.last()) {
        lemma_trim_end_shape(s.drop_last());
        let k = choose|k: int|
            0 <= k <= s.drop_last().len() && trim_end(s.drop_last()) == s.drop_last().take(k);
        assert(s.drop_last().take(k) =~= s.take(k));
    } else {
        assert(s.take(s.len() as int) =~= s);
    }
}

/// `trim` keeps a contiguous part of its argument, with no white space at
/// either end; trimming twice is trimming once.
pub proof fn lemma_trim(s: Seq<char>)
    ensures
        exists|a: int, b: int| 0 <= a <= b <= s.len() && trim(s) == s.subrange(a, b),
        trim(s).len() > 0 ==> !is_white_space(trim(s)[0]) && !is_white_space(trim(s).last()),
        trim(trim(s)) == trim(s),
{
    let x = trim_start(s);
    lemma_trim_start_shape(s);
    lemma_trim_end_shape(x);
    let a = choose|k: int| 0 <= k <= s.len() && x == s.skip(k);
    let b = choose|k: int| 0 <= k <= x.len() && trim_end(x) == x.take(k);
    assert(x.take(b) =~= s.subrange(a, a + b));
    let t = trim(s);
    if t.len() > 0 {
        assert(t[0] == x[0]);
        assert(trim_start(t) == t);
        assert(t.take(t.len() as int) =~= t);
    }
}

/// A character missing from `s` is missing from every part of it.
pub proof fn lemma_subrange_lacks(s: Seq<char>, c: char, a: int, b: int)
    requires
        !s.contains(c),
        0 <= a <= b <= s.len(),
    ensures
        !s.subrange(a, b).contains(c),
{
    if s.subrange(a, b).contains(c) {
        let i = choose|i: int| 0 <= i < b - a && s.subrange(a, b)[i] == c;
        assert(s[a + i] == c);
    }
}

/// Appends one character to a `String` (std's `String::push`).
#[verifier::external_body]
pub(crate) fn push_char(s: &mut String, c: char)
    ensures
        final(s)@ == old(s)@.push(c),
{
    s.push(c);
}

/// The characters of `s`, one per element.
pub fn chars_of(s: &str) -> (v: Vec<char>)
    ensures
        v@ == s@,
{
    let mut v: Vec<char> = Vec::new();
    for c in it: s.chars()
        invariant
            v@ == it.seq().take(it.index()),
    {
        v.push(c);
    }
    v
}

/// A `String` holding the characters of `v`.
pub fn string_of(v: &Vec<char>) -> (s: String)
    ensures
        s@ == v@,
{
    let mut s = String::new();
    let n = v.len();
    for i in 0..n
        invariant
            n == v@.len(),
            s@ == v@.take(i as int),
    {
        push_char(&mut s, v[i]);
        assert(v@.take(i + 1) =~= v@.take(i as int).push(v@[i as int]));
    }
    assert(v@.take(n as int) =~= v@);
    s
}

/// The characters of `v` from index `lo` up to, not including, `hi`.
pub fn sub_vec(v: &Vec<char>, lo: usize, hi: usize) -> (r: Vec<char>)
    requires
        lo <= hi <= v@.len(),
    ensures
        r@ == v@.subrange(lo as int, hi as int),
{
    let mut r: Vec<char> = Vec::new();
    let mut i = lo;
    while i < hi
        invariant
            lo <= i <= hi <= v@.len(),
            r@ == v@.subrange(lo as int, i as int),
        decreases hi - i,
    {
        r.push(v[i]);
        assert(v@.subrange(lo as int, i + 1) =~= v@.subrange(lo as int, i as int).push(v@[i as int]));
        i += 1;
    }
    r
}

/// `char::is_whitespace`.
pub fn is_white_space_char(c: char) -> (b: bool)
    ensures
        b == is_white_space(c),
{
    ('\u{9}' <= c && c <= '\u{d}') || c == ' ' || c == '\u{85}' || c == '\u{a0}' || c == '\u{1680}'
        || ('\u{2000}' <= c && c <= '\u{200a}') || c == '\u{2028}' || c == '\u{2029}' || c
        == '\u{202f}' || c == '\u{205f}' || c == '\u{3000}'
}

/// `char::to_ascii_lowercase`.
pub fn lower_ascii(c: char) -> (r: char)
    ensures
        r == ascii_lower(c),
{
    if 'A' <= c && c <= 'Z' {
        let u: u32 = c as u32;
        let b: u8 = (u + 32) as u8;
        b as char
    } else {
        c
    }
}

/// The characters of `v` without leading and trailing white space.
pub fn trimmed(v: &Vec<char>) -> (r: Vec<char>)
    ensures
        r@ == trim(v@),
{
    let mut lo: usize = 0;
    assert(v@.skip(0) =~= v@);
    while lo < v.len() && is_white_space_char(v[lo])
        invariant
            lo <= v@.len(),
            trim_start(v@) == trim_start(v@.skip(lo as int)),
        decreases v@.len() - lo,
    {
        assert(v@.skip(lo as int).drop_first() =~= v@.skip(lo + 1));
        lo += 1;
    }
    let mut hi: usize = v.len();
    assert(v@.skip(lo as int) =~= v@.subrange(lo as int, hi as int));
    while hi > lo && is_white_space_char(v[hi - 1])
        invariant
            lo <= hi <= v@.len(),
            trim(v@) == trim_end(v@.subrange(lo as int, hi as int)),
        decreases hi,
    {
        assert(v@.subrange(lo as int, hi as int).drop_last() =~= v@.subrange(
            lo as int,
            hi - 1,
        ));
        hi -= 1;
    }
    sub_vec(v, lo, hi)
}

proof fn lemma_first_index(s: Seq<char>, c: char, m: int)
    requires
        0 <= m <= s.len(),
        forall|k: int| 0 <= k < m ==> s[k] != c,
    ensures
        m < s.len() && s[m] == c ==> first_index(s, c) == Some(m),
        m == s.len() ==> first_index(s, c) is None,
    decreases m,
{
    if m > 0 {
        lemma_first_index(s.drop_first(), c, m - 1);
    }
}

/// Where `first_index` finds `c`, it is at a valid index, and no earlier
/// character is `c`.
pub proof fn lemma_first_index_bounds(s: Seq<char>, c: char)
    ensures
        first_index(s, c) matches Some(i) ==> {
            &&& 0 <= i < s.len()
            &&& s[i] == c
            &&& forall|k: int| 0 <= k < i ==> s[k] != c
        },
        first_index(s, c) is None ==> forall|k: int| 0 <= k < s.len() ==> s[k] != c,
    decreases s.len(),
{
    if s.len() > 0 {
        lemma_first_index_bounds(s.drop_first(), c);
        if s[0] != c {
            assert forall|k: int| 0 < k < s.len() && s[k] == c implies first_index(s, c) is Some
                && first_index(s, c)->0 <= k by {
                assert(s.drop_first()[k - 1] == c);
            }
        }
    }
}

/// Where `c` first occurs in `a + q`: where it first occurs in `a`, or,
/// failing that, where it first occurs in `q`, counted from the start of `a`.
pub proof fn lemma_first_index_append(a: Seq<char>, q: Seq<char>, c: char)
    ensures
        first_index(a + q, c) == match first_index(a, c) {
            Some(i) => Some(i),
            None => match first_index(q, c) {
                Some(j) => Some(a.len() + j),
                None => None,
            },
        },
    decreases a.len(),
{
    if a.len() == 0 {
        assert(a + q =~= q);
    } else {
        lemma_first_index_append(a.drop_first(), q, c);
        assert((a + q).drop_first() =~= a.drop_first() + q);
        assert((a + q)[0] == a[0]);
    }
}

/// Index of the first `c` in `v` at or after `start`.
pub fn position_from(v: &Vec<char>, c: char, start: usize) -> (r: Option<usize>)
    requires
        start <= v@.len(),
    ensures
        match r {
            Some(i) => first_index(v@.skip(start as int), c) == Some(i - start),
            None => first_index(v@.skip(start as int), c) is None,
        },
        r matches Some(i) ==> start <= i < v@.len() && v@[i as int] == c,
{
    let mut i: usize = start;
    while i < v.len() && v[i] != c
        invariant
            start <= i <= v@.len(),
            forall|k: int| start <= k < i ==> v@[k] != c,
        decreases v@.len() - i,
    {
        i += 1;
    }
    proof {
        lemma_first_index(v@.skip(start as int), c, i - start);
    }
    if i < v.len() {
        Some(i)
    } else {
        None
    }
}

/// Index of the first `c` in `v`.
pub fn position_of(v: &Vec<char>, c: char) -> (r: Option<usize>)
    ensures
        match r {
            Some(i) => first_index(v@, c) == Some(i as int),
            None => first_index(v@, c) is None,
        },
        r matches Some(i) ==> i < v@.len() && v@[i as int] == c,
{
    let mut i: usize = 0;
    while i < v.len() && v[i] != c
        invariant
            i <= v@.len(),
            forall|k: int| 0 <= k < i ==> v@[k] != c,
        decreases v@.len() - i,
    {
        i += 1;
    }
    proof {
        lemma_first_index(v@, c, i as int);
    }
    if i < v.len() {
        Some(i)
    } else {
        None
    }
}

/// `v[k..k + p.len()] == p`, decided character by character.
fn occurs_at_exec(v: &Vec<char>, p: &Vec<char>, k: usize) -> (b: bool)
    requires
        k + p@.len() <= v@.len(),
    ensures
        b == occurs_at(v@, p@, k as int),
{
    let n = v.len();
    let mut j: usize = 0;
    while j < p.len()
        invariant
            k + p@.len() <= v@.len(),
            k + p@.len() <= n,
            j <= p@.len(),
            forall|t: int| 0 <= t < j ==> v@[k + t] == p@[t],
        decreases p@.len() - j,
    {
        if v[k + j] != p[j] {
            assert(v@.subrange(k as int, k + p@.len())[j as int] != p@[j as int]);
            return false;
        }
        j += 1;
    }
    assert(v@.subrange(k as int, k + p@.len()) =~= p@);
    true
}

proof fn lemma_find_first(s: Seq<char>, p: Seq<char>, m: int)
    requires
        0 <= m,
        m + p.len() <= s.len() + 1,
        forall|k: int| 0 <= k < m ==> !occurs_at(s, p, k),
    ensures
        m + p.len() <= s.len() && occurs_at(s, p, m) ==> find_first(s, p) == Some(m),
        m + p.len() == s.len() + 1 ==> find_first(s, p) is None,
    decreases m,
{
    if m > 0 {
        assert(!occurs_at(s, p, 0));
        assert(s.subrange(0, p.len() as int) != p);
        assert forall|k: int| 0 <= k < m - 1 implies !occurs_at(s.drop_first(), p, k) by {
            assert(!occurs_at(s, p, k + 1));
            if k + p.len() <= s.drop_first().len() {
                assert(s.drop_first().subrange(k, k + p.len()) =~= s.subrange(k + 1, k + 1 + p.len()));
            }
        }
        if m + p.len() <= s.len() && occurs_at(s, p, m) {
            assert(s.drop_first().subrange(m - 1, m - 1 + p.len()) =~= s.subrange(m, m + p.len()));
        }
        lemma_find_first(s.drop_first(), p, m - 1);
    } else {
        if m + p.len() <= s.len() && occurs_at(s, p, m) {
            assert(s.subrange(0, p.len() as int) == p);
        }
    }
}

/// Where `find_first` finds `p`, it occurs there.
pub proof fn lemma_find_first_bounds(s: Seq<char>, p: Seq<char>, i: int)
    requires
        find_first(s, p) == Some(i),
    ensures
        occurs_at(s, p, i),
    decreases s.len(),
{
    if !(s.len() < p.len()) && s.subrange(0, p.len() as int) != p && s.len() != 0 {
        lemma_find_first_bounds(s.drop_first(), p, i - 1);
        assert(s.drop_first().subrange(i - 1, i - 1 + p.len()) =~= s.subrange(i, i + p.len()));
    }
}

/// Start of the first occurrence of the non-empty pattern `p` in `v`.
pub fn find_pattern(v: &Vec<char>, p: &Vec<char>) -> (r: Option<usize>)
    requires
        p@.len() > 0,
    ensures
        match r {
            Some(i) => find_first(v@, p@) == Some(i as int),
            None => find_first(v@, p@) is None,
        },
        r matches Some(i) ==> occurs_at(v@, p@, i as int),
{
    if p.len() > v.len() {
        return None;
    }
    let last = v.len() - p.len();
    let mut k: usize = 0;
    while k <= last
        invariant
            last + p@.len() == v@.len(),
            last < usize::MAX,
            k <= last + 1,
            forall|t: int| 0 <= t < k ==> !occurs_at(v@, p@, t),
        decreases last + 1 - k,
    {
        if occurs_at_exec(v, p, k) {
            proof {
                lemma_find_first(v@, p@, k as int);
            }
            return Some(k);
        }
        k += 1;
    }
    proof {
        lemma_find_first(v@, p@, k as int);
    }
    None
}

/// `find_last` finds `p` at `m` where it occurs there and at no later
/// start; it finds nothing where it occurs at no start at all (`m == -1`).
pub proof fn lemma_find_last(s: Seq<char>, p: Seq<char>, m: int)
    requires
        p.len() <= s.len(),
        -1 <= m <= s.len() - p.len(),
        forall|k: int| m < k <= s.len() - p.len() ==> !occurs_at(s, p, k),
    ensures
        m >= 0 && occurs_at(s, p, m) ==> find_last(s, p) == Some(m),
        m == -1 ==> find_last(s, p) is None,
    decreases s.len(),
{
    if m < s.len() - p.len() {
        assert(!occurs_at(s, p, s.len() - p.len()));
        if s.len() > 0 {
            let t = s.drop_last();
            if p.len() <= t.len() {
                assert forall|k: int| m < k <= t.len() - p.len() implies !occurs_at(t, p, k) by {
                    assert(!occurs_at(s, p, k));
                    assert(t.subrange(k, k + p.len()) =~= s.subrange(k, k + p.len()));
                }
                if m >= 0 && occurs_at(s, p, m) {
                    assert(t.subrange(m, m + p.len()) =~= s.subrange(m, m + p.len()));
                }
                lemma_find_last(t, p, m);
            } else {
                assert(m == -1);
            }
        }
    }
}

/// Start of the last occurrence of the non-empty pattern `p` in `v`.
pub fn rfind_pattern(v: &Vec<char>, p: &Vec<char>) -> (r: Option<usize>)
    requires
        p@.len() > 0,
    ensures
        match r {
            Some(i) => find_last(v@, p@) == Some(i as int),
            None => find_last(v@, p@) is None,
        },
        r matches Some(i) ==> occurs_at(v@, p@, i as int),
{
    if p.len() > v.len() {
        return None;
    }
    let mut k: usize = v.len() - p.len() + 1;
    while k > 0
        invariant
            p@.len() <= v@.len(),
            k <= v@.len() - p@.len() + 1,
            forall|t: int| k <= t <= v@.len() - p@.len() ==> !occurs_at(v@, p@, t),
        decreases k,
    {
        if occurs_at_exec(v, p, k - 1) {
            proof {
                lemma_find_last(v@, p@, k - 1);
            }
            return Some(k - 1);
        }
        k -= 1;
    }
    proof {
        lemma_find_last(v@, p@, -1);
    }
    None
}

/// Whether `v` ends with `p`.
pub fn ends_with_chars(v: &Vec<char>, p: &Vec<char>) -> (b: bool)
    ensures
        b == has_suffix(v@, p@),
{
    if p.len() > v.len() {
        return false;
    }
    let b = occurs_at_exec(v, p, v.len() - p.len());
    b
}

} // verus!
