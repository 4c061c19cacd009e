//! Character-level text utilities with exact specifications.
//!
//! Text is handled as `Seq<char>` in specifications and as `Vec<char>` or
//! `&[char]` in executable code; `String` appears at the public boundary.
use vstd::prelude::*;

verus! {

/// The Unicode `White_Space` property, which is what `char::is_whitespace` tests.
pub open spec fn is_space(c: char) -> bool {
    ||| ('\u{9}' <= c && c <= '\u{d}')
    ||| c == ' '
    ||| c == '\u{85}'
    ||| c == '\u{a0}'
    ||| c == '\u{1680}'
    ||| ('\u{2000}' <= c && c <= '\u{200a}')
    ||| c == '\u{2028}'
    ||| c == '\u{2029}'
    ||| c == '\u{202f}'
    ||| c == '\u{205f}'
    ||| c == '\u{3000}'
}

pub fn is_whitespace(c: char) -> (r: bool)
    ensures
        r == is_space(c),
{
    ('\u{9}' <= c && c <= '\u{d}') || c == ' ' || c == '\u{85}' || c == '\u{a0}' || c == '\u{1680}'
        || ('\u{2000}' <= c && c <= '\u{200a}') || c == '\u{2028}' || c == '\u{2029}' || c
        == '\u{202f}' || c == '\u{205f}' || c == '\u{3000}'
}

/// Removes leading whitespace.
pub open spec fn trim_start(s: Seq<char>) -> Seq<char>
    decreases s.len(),
{
    if s.len() > 0 && is_space(s[0]) {
        trim_start(s.drop_first())
    } else {
        s
    }
}

/// Removes trailing whitespace.
pub open spec fn trim_end(s: Seq<char>) -> Seq<char>
    decreases s.len(),
{
    if s.len() > 0 && is_space(s.last()) {
        trim_end(s.drop_last())
    } else {
        s
    }
}

/// Removes leading and trailing whitespace, as `str::trim` does.
pub open spec fn trim(s: Seq<char>) -> Seq<char> {
    trim_end(trim_start(s))
}

/// Appends one character to a string.
#[verifier::external_body]
pub(crate) fn push_char(s: &mut String, c: char)
    ensures
        final(s)@ == old(s)@.push(c),
{
    s.push(c);
}

/// The characters of a string slice, in order.
pub fn chars_of(s: &str) -> (r: Vec<char>)
    ensures
        r@ == s@,
{
    let mut r: Vec<char> = Vec::new();
    for c in it: s.chars()
        invariant
            r@ == it.seq().take(it.index() as int),
            it.seq() == s@,
    {
        r.push(c);
    }
    r
}

/// A string holding the given characters.
pub fn string_of(s: &[char]) -> (r: String)
    ensures
        r@ == s@,
{
    let mut r = String::new();
    let mut i: usize = 0;
    while i < s.len()
        invariant
            i <= s.len(),
            r@ == s@.take(i as int),
        decreases s.len() - i,
    {
        push_char(&mut r, s[i]);
        assert(s@.take(i + 1) == s@.take(i as int).push(s@[i as int]));
        i = i + 1;
    }
    assert(s@.take(s.len() as int) == s@);
    r
}


/// `p` occurs in `s` at position `i`.
pub open spec fn occurs_at(s: Seq<char>, p: Seq<char>, i: int) -> bool {
    0 <= i && i + p.len() <= s.len() && s.subrange(i, i + p.len()) == p
}

pub open spec fn starts_with(s: Seq<char>, p: Seq<char>) -> bool {
    occurs_at(s, p, 0)
}

pub open spec fn ends_with(s: Seq<char>, p: Seq<char>) -> bool {
    p.len() <= s.len() && occurs_at(s, p, s.len() - p.len())
}

/// The first position at or after `i` where `p` occurs in `s`.
pub open spec fn find_from(s: Seq<char>, p: Seq<char>, i: nat) -> Option<int>
    decreases s.len() + 1 - i,
{
    if i > s.len() {
        None
    } else if occurs_at(s, p, i as int) {
        Some(i as int)
    } else {
        find_from(s, p, i + 1)
    }
}

/// The first position where `p` occurs in `s`, as `str::find` gives it.
pub open spec fn find(s: Seq<char>, p: Seq<char>) -> Option<int> {
    find_from(s, p, 0)
}

/// The last position below `n` where `p` occurs in `s`.
pub open spec fn rfind_below(s: Seq<char>, p: Seq<char>, n: nat) -> Option<int>
    decreases n,
{
    if n == 0 {
        None
    } else if occurs_at(s, p, n - 1) {
        Some(n - 1)
    } else {
        rfind_below(s, p, (n - 1) as nat)
    }
}

/// The last position where `p` occurs in `s`, as `str::rfind` gives it.
pub open spec fn rfind(s: Seq<char>, p: Seq<char>) -> Option<int> {
    rfind_below(s, p, s.len() + 1)
}

pub open spec fn contains(s: Seq<char>, p: Seq<char>) -> bool {
    find(s, p) is Some
}

pub open spec fn contains_char(s: Seq<char>, c: char) -> bool {
    s.contains(c)
}

pub proof fn lemma_find_from(s: Seq<char>, p: Seq<char>, i: nat)
    ensures
        find_from(s, p, i) matches Some(k) ==> i <= k && occurs_at(s, p, k) && forall|j: int|
            i <= j < k ==> !occurs_at(s, p, j),
        find_from(s, p, i) is None ==> forall|j: int| i <= j ==> !occurs_at(s, p, j),
    decreases s.len() + 1 - i,
{
    if i <= s.len() && !occurs_at(s, p, i as int) {
        lemma_find_from(s, p, i + 1);
    }
}

/// `find` gives the first occurrence, and nothing when there is none.
pub proof fn lemma_find(s: Seq<char>, p: Seq<char>)
    ensures
        find(s, p) matches Some(k) ==> 0 <= k && k + p.len() <= s.len() && occurs_at(s, p, k)
            && forall|j: int| 0 <= j < k ==> !occurs_at(s, p, j),
        find(s, p) is None ==> forall|j: int| !occurs_at(s, p, j),
{
    lemma_find_from(s, p, 0);
}

proof fn lemma_rfind_below(s: Seq<char>, p: Seq<char>, n: nat)
    ensures
        rfind_below(s, p, n) matches Some(k) ==> k < n && occurs_at(s, p, k) && forall|j: int|
            k < j < n ==> !occurs_at(s, p, j),
        rfind_below(s, p, n) is None ==> forall|j: int| j < n ==> !occurs_at(s, p, j),
    decreases n,
{
    if n > 0 && !occurs_at(s, p, n - 1) {
        lemma_rfind_below(s, p, (n - 1) as nat);
    }
}

/// `rfind` gives the last occurrence, and nothing when there is none.
pub proof fn lemma_rfind(s: Seq<char>, p: Seq<char>)
    ensures
        rfind(s, p) matches Some(k) ==> 0 <= k && k + p.len() <= s.len() && occurs_at(s, p, k)
            && forall|j: int| k < j ==> !occurs_at(s, p, j),
        rfind(s, p) is None ==> forall|j: int| !occurs_at(s, p, j),
{
    lemma_rfind_below(s, p, s.len() + 1);
}

/// Whether `p` occurs in `s` at position `i`.
pub fn occurs_at_exec(s: &[char], p: &[char], i: usize) -> (r: bool)
    ensures
        r == occurs_at(s@, p@, i as int),
{
    if i > s.len() || p.len() > s.len() - i {
        return false;
    }
    let mut k: usize = 0;
    while k < p.len()
        invariant
            i + p.len() <= s.len(),
            k <= p.len(),
            forall|j: int| 0 <= j < k ==> s@[i + j] == p@[j],
        decreases p.len() - k,
    {
        if s[i + k] != p[k] {
            assert(s@.subrange(i as int, i + p.len())[k as int] != p@[k as int]);
            return false;
        }
        k = k + 1;
    }
    assert(s@.subrange(i as int, i + p.len()) =~= p@);
    true
}

pub fn starts_with_exec(s: &[char], p: &[char]) -> (r: bool)
    ensures
        r == starts_with(s@, p@),
{
    occurs_at_exec(s, p, 0)
}

pub fn ends_with_exec(s: &[char], p: &[char]) -> (r: bool)
    ensures
        r == ends_with(s@, p@),
{
    if p.len() > s.len() {
        return false;
    }
    occurs_at_exec(s, p, s.len() - p.len())
}

proof fn lemma_find_from_none(s: Seq<char>, p: Seq<char>, i: nat)
    requires
        forall|j: int| i <= j ==> !occurs_at(s, p, j),
    ensures
        find_from(s, p, i) is None,
    decreases s.len() + 1 - i,
{
    if i <= s.len() {
        lemma_find_from_none(s, p, i + 1);
    }
}

proof fn lemma_rfind_below_skip(s: Seq<char>, p: Seq<char>, n: nat, m: nat)
    requires
        n <= m,
        forall|j: int| n <= j < m ==> !occurs_at(s, p, j),
    ensures
        rfind_below(s, p, m) == rfind_below(s, p, n),
    decreases m,
{
    if n < m {
        lemma_rfind_below_skip(s, p, n, (m - 1) as nat);
    }
}

/// The first position of `p` in `s`.
pub fn find_exec(s: &[char], p: &[char]) -> (r: Option<usize>)
    ensures
        r matches Some(k) ==> find(s@, p@) == Some(k as int),
        r is None ==> find(s@, p@) is None,
{
    if p.len() == 0 {
        assert(occurs_at(s@, p@, 0)) by {
            assert(s@.subrange(0, 0) =~= p@);
        }
        return Some(0);
    }
    if p.len() > s.len() {
        proof {
            lemma_find_from_none(s@, p@, 0);
        }
        return None;
    }
    let last = s.len() - p.len();
    let mut i: usize = 0;
    while i <= last
        invariant
            last == s.len() - p.len(),
            p.len() >= 1,
            i <= last + 1,
            find(s@, p@) == find_from(s@, p@, i as nat),
        decreases last + 1 - i,
    {
        if occurs_at_exec(s, p, i) {
            return Some(i);
        }
        i = i + 1;
    }
    proof {
        lemma_find_from_none(s@, p@, i as nat);
    }
    None
}

/// The first position at or after `start` where `p` occurs in `s`.
pub fn find_from_exec(s: &[char], p: &[char], start: usize) -> (r: Option<usize>)
    ensures
        r matches Some(k) ==> find_from(s@, p@, start as nat) == Some(k as int),
        r is None ==> find_from(s@, p@, start as nat) is None,
{
    let n = s.len();
    if start > n {
        return None;
    }
    let mut i: usize = start;
    while i <= n
        invariant
            n == s@.len(),
            start <= i <= n + 1,
            find_from(s@, p@, start as nat) == find_from(s@, p@, i as nat),
        decreases n + 1 - i,
    {
        if occurs_at_exec(s, p, i) {
            return Some(i);
        }
        if i == n {
            proof {
                assert(find_from(s@, p@, (n + 1) as nat) is None);
            }
            return None;
        }
        i = i + 1;
    }
    None
}

/// The last position of `p` in `s`.
pub fn rfind_exec(s: &[char], p: &[char]) -> (r: Option<usize>)
    ensures
        r matches Some(k) ==> rfind(s@, p@) == Some(k as int),
        r is None ==> rfind(s@, p@) is None,
{
    if p.len() == 0 {
        assert(occurs_at(s@, p@, s@.len() as int)) by {
            assert(s@.subrange(s@.len() as int, s@.len() as int) =~= p@);
        }
        return Some(s.len());
    }
    if p.len() > s.len() {
        proof {
            lemma_rfind_below_skip(s@, p@, 0, s@.len() + 1);
        }
        return None;
    }
    let mut n: usize = s.len() - p.len() + 1;
    proof {
        lemma_rfind_below_skip(s@, p@, n as nat, s@.len() + 1);
    }
    while n > 0
        invariant
            n <= s.len(),
            rfind(s@, p@) == rfind_below(s@, p@, n as nat),
        decreases n,
    {
        if occurs_at_exec(s, p, n - 1) {
            return Some(n - 1);
        }
        n = n - 1;
    }
    None
}

/// A one-character pattern occurs exactly where that character stands.
pub proof fn lemma_occurs_single(s: Seq<char>, c: char, k: int)
    ensures
        occurs_at(s, seq![c], k) <==> (0 <= k < s.len() && s[k] == c),
{
    if 0 <= k < s.len() {
        if s[k] == c {
            assert(s.subrange(k, k + 1) =~= seq![c]);
        } else {
            assert(s.subrange(k, k + 1)[0] == s[k]);
        }
    }
}

/// The first position of `c` in `s`.
pub fn find_char_exec(s: &[char], c: char) -> (r: Option<usize>)
    ensures
        r matches Some(k) ==> k < s@.len() && s@[k as int] == c && forall|j: int|
            0 <= j < k ==> s@[j] != c,
        r is None ==> !s@.contains(c),
        r matches Some(k) ==> find(s@, seq![c]) == Some(k as int),
        r is None ==> find(s@, seq![c]) is None,
{
    let mut i: usize = 0;
    while i < s.len()
        invariant
            i <= s.len(),
            forall|j: int| 0 <= j < i ==> s@[j] != c,
            find(s@, seq![c]) == find_from(s@, seq![c], i as nat),
        decreases s.len() - i,
    {
        proof {
            lemma_occurs_single(s@, c, i as int);
        }
        if s[i] == c {
            return Some(i);
        }
        i = i + 1;
    }
    proof {
        lemma_occurs_single(s@, c, i as int);
        assert(!occurs_at(s@, seq![c], (i + 1) as int));
        assert(find_from(s@, seq![c], (i + 1) as nat) is None);
    }
    None
}

/// The last position of `c` in `s`.
pub fn rfind_char_exec(s: &[char], c: char) -> (r: Option<usize>)
    ensures
        r matches Some(k) ==> k < s@.len() && s@[k as int] == c && forall|j: int|
            k < j < s@.len() ==> s@[j] != c,
        r is None ==> !s@.contains(c),
        r matches Some(k) ==> rfind(s@, seq![c]) == Some(k as int),
        r is None ==> rfind(s@, seq![c]) is None,
{
    proof {
        lemma_occurs_single(s@, c, s@.len() as int);
    }
    let mut n: usize = s.len();
    assert(rfind(s@, seq![c]) == rfind_below(s@, seq![c], n as nat));
    while n > 0
        invariant
            n <= s.len(),
            forall|j: int| n <= j < s@.len() ==> s@[j] != c,
            rfind(s@, seq![c]) == rfind_below(s@, seq![c], n as nat),
        decreases n,
    {
        proof {
            lemma_occurs_single(s@, c, n - 1);
        }
        if s[n - 1] == c {
            return Some(n - 1);
        }
        n = n - 1;
    }
    None
}

/// The characters of `s` from `a` up to `b`.
pub fn slice_chars(s: &[char], a: usize, b: usize) -> (r: Vec<char>)
    requires
        a <= b <= s@.len(),
    ensures
        r@ == s@.subrange(a as int, b as int),
{
    vstd::slice::slice_to_vec(vstd::slice::slice_subrange(s, a, b))
}

proof fn lemma_trim_start_step(s: Seq<char>, i: int)
    requires
        0 <= i < s.len(),
        is_space(s[i]),
    ensures
        trim_start(s.subrange(i, s.len() as int)) == trim_start(s.subrange(i + 1, s.len() as int)),
{
    assert(s.subrange(i, s.len() as int).drop_first() =~= s.subrange(i + 1, s.len() as int));
}

proof fn lemma_trim_end_step(s: Seq<char>, a: int, j: int)
    requires
        0 <= a < j <= s.len(),
        is_space(s[j - 1]),
    ensures
        trim_end(s.subrange(a, j)) == trim_end(s.subrange(a, j - 1)),
{
    assert(s.subrange(a, j).drop_last() =~= s.subrange(a, j - 1));
}

/// The bounds of `trim(s)` within `s`.
pub fn trim_bounds(s: &[char]) -> (r: (usize, usize))
    ensures
        r.0 <= r.1 <= s@.len(),
        trim(s@) == s@.subrange(r.0 as int, r.1 as int),
        trim_start(s@) == s@.subrange(r.0 as int, s@.len() as int),
        forall|k: int| 0 <= k < r.0 ==> is_space(#[trigger] s@[k]),
        forall|k: int| r.1 <= k < s@.len() ==> is_space(#[trigger] s@[k]),
        r.0 < r.1 ==> !is_space(s@[r.0 as int]) && !is_space(s@[r.1 - 1]),
{
    let mut a: usize = 0;
    assert(s@.subrange(0, s@.len() as int) =~= s@);
    while a < s.len() && is_whitespace(s[a])
        invariant
            a <= s.len(),
            trim_start(s@) == trim_start(s@.subrange(a as int, s@.len() as int)),
            forall|k: int| 0 <= k < a ==> is_space(#[trigger] s@[k]),
        decreases s.len() - a,
    {
        proof {
            lemma_trim_start_step(s@, a as int);
        }
        a = a + 1;
    }
    let ghost t = s@.subrange(a as int, s@.len() as int);
    assert(trim_start(t) == t) by {
        if t.len() > 0 {
            assert(t[0] == s@[a as int]);
        }
    }
    let mut b: usize = s.len();
    while b > a && is_whitespace(s[b - 1])
        invariant
            a <= b <= s.len(),
            t == s@.subrange(a as int, s@.len() as int),
            trim_end(t) == trim_end(s@.subrange(a as int, b as int)),
            forall|k: int| b <= k < s@.len() ==> is_space(#[trigger] s@[k]),
        decreases b,
    {
        proof {
            lemma_trim_end_step(s@, a as int, b as int);
        }
        b = b - 1;
    }
    assert(trim_end(s@.subrange(a as int, b as int)) == s@.subrange(a as int, b as int)) by {
        if b > a {
            assert(s@.subrange(a as int, b as int).last() == s@[b - 1]);
        }
    }
    (a, b)
}

/// `str::trim`.
pub fn trim_exec(s: &[char]) -> (r: Vec<char>)
    ensures
        r@ == trim(s@),
{
    let (a, b) = trim_bounds(s);
    slice_chars(s, a, b)
}

/// `str::trim_start`.
pub fn trim_start_exec(s: &[char]) -> (r: Vec<char>)
    ensures
        r@ == trim_start(s@),
{
    let (a, _b) = trim_bounds(s);
    slice_chars(s, a, s.len())
}

/// Trimming twice gives what trimming once gives.
pub proof fn lemma_trim_idempotent(s: Seq<char>)
    ensures
        trim(trim(s)) == trim(s),
        trim(s).len() > 0 ==> !is_space(trim(s)[0]) && !is_space(trim(s).last()),
{
    lemma_trim_shape(s);
    let t = trim(s);
    lemma_trim_shape(t);
    if t.len() > 0 {
        assert(trim_start(t) == t);
        assert(trim_end(t) == t);
    }
}

/// `trim(s)` is a run of `s` that starts and ends with a non-space character,
/// surrounded only by spaces.
pub proof fn lemma_trim_shape(s: Seq<char>)
    ensures
        exists|a: int, b: int|
            0 <= a <= b <= s.len() && trim(s) == s.subrange(a, b) && (forall|k: int|
                0 <= k < a ==> is_space(#[trigger] s[k])) && (forall|k: int|
                b <= k < s.len() ==> is_space(#[trigger] s[k])) && (a < b ==> !is_space(s[a])
                && !is_space(s[b - 1])),
    decreases s.len(),
{
    lemma_trim_start_shape(s);
    let a = s.len() - trim_start(s).len();
    let u = trim_start(s);
    lemma_trim_end_shape(u);
    let b = a + trim_end(u).len();
    assert(u == s.subrange(a, s.len() as int));
    assert(trim(s) == s.subrange(a, b)) by {
        assert(trim_end(u) == u.subrange(0, trim_end(u).len() as int));
        assert(u.subrange(0, trim_end(u).len() as int) =~= s.subrange(a, b));
    }
    assert forall|k: int| b <= k < s.len() implies is_space(#[trigger] s[k]) by {
        assert(s[k] == u[k - a]);
    }
    if a < b {
        assert(s[a] == u[0]);
        assert(s[b - 1] == u[b - 1 - a]);
    }
}

proof fn lemma_trim_start_shape(s: Seq<char>)
    ensures
        trim_start(s).len() <= s.len(),
        trim_start(s) == s.subrange(s.len() - trim_start(s).len(), s.len() as int),
        forall|k: int| 0 <= k < s.len() - trim_start(s).len() ==> is_space(#[trigger] s[k]),
        trim_start(s).len() > 0 ==> !is_space(trim_start(s)[0]),
    decreases s.len(),
{
    if s.len() > 0 && is_space(s[0]) {
        let t = s.drop_first();
        lemma_trim_start_shape(t);
        assert forall|k: int| 0 <= k < s.len() - trim_start(s).len() implies is_space(
            #[trigger] s[k],
        ) by {
            if k > 0 {
                assert(s[k] == t[k - 1]);
            }
        }
        assert(t.subrange(t.len() - trim_start(t).len(), t.len() as int) =~= s.subrange(
            s.len() - trim_start(s).len(),
            s.len() as int,
        ));
    } else {
        assert(s.subrange(0, s.len() as int) =~= s);
    }
}

proof fn lemma_trim_end_shape(s: Seq<char>)
    ensures
        trim_end(s).len() <= s.len(),
        trim_end(s) == s.subrange(0, trim_end(s).len() as int),
        forall|k: int| trim_end(s).len() <= k < s.len() ==> is_space(#[trigger] s[k]),
        trim_end(s).len() > 0 ==> !is_space(trim_end(s).last()),
    decreases s.len(),
{
    if s.len() > 0 && is_space(s.last()) {
        let t = s.drop_last();
        lemma_trim_end_shape(t);
        assert forall|k: int| trim_end(s).len() <= k < s.len() implies is_space(#[trigger] s[k]) by {
            if k < s.len() - 1 {
                assert(s[k] == t[k]);
            }
        }
        assert(t.subrange(0, trim_end(t).len() as int) =~= s.subrange(0, trim_end(s).len() as int));
    } else {
        assert(s.subrange(0, s.len() as int) =~= s);
    }
}

/// `str::trim_start_matches` with a string (or one-character) pattern.
pub open spec fn trim_start_str(s: Seq<char>, p: Seq<char>) -> Seq<char>
    decreases s.len(),
{
    if p.len() > 0 && starts_with(s, p) {
        trim_start_str(s.skip(p.len() as int), p)
    } else {
        s
    }
}

/// `str::trim_end_matches` with a string (or one-character) pattern.
pub open spec fn trim_end_str(s: Seq<char>, p: Seq<char>) -> Seq<char>
    decreases s.len(),
{
    if p.len() > 0 && ends_with(s, p) {
        trim_end_str(s.take(s.len() - p.len()), p)
    } else {
        s
    }
}

/// `str::trim_matches` with a one-character pattern.
pub open spec fn trim_str(s: Seq<char>, p: Seq<char>) -> Seq<char> {
    trim_end_str(trim_start_str(s, p), p)
}

/// `str::strip_prefix`.
pub open spec fn strip_prefix(s: Seq<char>, p: Seq<char>) -> Option<Seq<char>> {
    if starts_with(s, p) {
        Some(s.skip(p.len() as int))
    } else {
        None
    }
}

/// `str::strip_suffix`.
pub open spec fn strip_suffix(s: Seq<char>, p: Seq<char>) -> Option<Seq<char>> {
    if ends_with(s, p) {
        Some(s.take(s.len() - p.len()))
    } else {
        None
    }
}

proof fn lemma_skip_occurs(s: Seq<char>, p: Seq<char>, i: int)
    requires
        0 <= i <= s.len(),
    ensures
        starts_with(s.skip(i), p) == occurs_at(s, p, i),
        i + p.len() <= s.len() ==> s.skip(i).skip(p.len() as int) == s.skip(i + p.len()),
{
    if i + p.len() <= s.len() {
        assert(s.skip(i).subrange(0, p.len() as int) =~= s.subrange(i, i + p.len()));
        assert(s.skip(i).skip(p.len() as int) =~= s.skip(i + p.len()));
    }
}

proof fn lemma_take_occurs(s: Seq<char>, p: Seq<char>, j: int)
    requires
        0 <= j <= s.len(),
    ensures
        ends_with(s.take(j), p) == (p.len() <= j && occurs_at(s, p, j - p.len())),
        p.len() <= j ==> s.take(j).take(j - p.len()) == s.take(j - p.len()),
{
    if p.len() <= j {
        assert(s.take(j).subrange(j - p.len(), j) =~= s.subrange(j - p.len(), j));
        assert(s.take(j).take(j - p.len()) =~= s.take(j - p.len()));
    }
}

/// `str::trim_start_matches`.
pub fn trim_start_str_exec(s: &[char], p: &[char]) -> (r: Vec<char>)
    ensures
        r@ == trim_start_str(s@, p@),
{
    if p.len() == 0 {
        return slice_chars(s, 0, s.len());
    }
    let mut i: usize = 0;
    assert(s@.skip(0) =~= s@);
    while occurs_at_exec(s, p, i)
        invariant
            i <= s.len(),
            p.len() > 0,
            trim_start_str(s@, p@) == trim_start_str(s@.skip(i as int), p@),
        decreases s.len() - i,
    {
        proof {
            lemma_skip_occurs(s@, p@, i as int);
        }
        i = i + p.len();
    }
    proof {
        lemma_skip_occurs(s@, p@, i as int);
    }
    slice_chars(s, i, s.len())
}

/// `str::trim_end_matches`.
pub fn trim_end_str_exec(s: &[char], p: &[char]) -> (r: Vec<char>)
    ensures
        r@ == trim_end_str(s@, p@),
{
    if p.len() == 0 {
        return slice_chars(s, 0, s.len());
    }
    let mut j: usize = s.len();
    assert(s@.take(s@.len() as int) =~= s@);
    while j >= p.len() && occurs_at_exec(s, p, j - p.len())
        invariant
            j <= s.len(),
            p.len() > 0,
            trim_end_str(s@, p@) == trim_end_str(s@.take(j as int), p@),
        decreases j,
    {
        proof {
            lemma_take_occurs(s@, p@, j as int);
        }
        j = j - p.len();
    }
    proof {
        lemma_take_occurs(s@, p@, j as int);
    }
    slice_chars(s, 0, j)
}

/// `str::trim_matches` with a one-character pattern.
pub fn trim_str_exec(s: &[char], p: &[char]) -> (r: Vec<char>)
    ensures
        r@ == trim_str(s@, p@),
{
    let t = trim_start_str_exec(s, p);
    trim_end_str_exec(&t, p)
}

/// `str::strip_prefix`.
pub fn strip_prefix_exec(s: &[char], p: &[char]) -> (r: Option<Vec<char>>)
    ensures
        r matches Some(v) ==> strip_prefix(s@, p@) == Some(v@),
        r is None ==> strip_prefix(s@, p@) is None,
{
    if starts_with_exec(s, p) {
        Some(slice_chars(s, p.len(), s.len()))
    } else {
        None
    }
}

/// `str::strip_suffix`.
pub fn strip_suffix_exec(s: &[char], p: &[char]) -> (r: Option<Vec<char>>)
    ensures
        r matches Some(v) ==> strip_suffix(s@, p@) == Some(v@),
        r is None ==> strip_suffix(s@, p@) is None,
{
    if ends_with_exec(s, p) {
        Some(slice_chars(s, 0, s.len() - p.len()))
    } else {
        None
    }
}

/// Character-wise equality.
pub fn chars_eq(a: &[char], b: &[char]) -> (r: bool)
    ensures
        r == (a@ == b@),
{
    if a.len() != b.len() {
        return false;
    }
    let r = occurs_at_exec(a, b, 0);
    proof {
        if r {
            assert(a@.subrange(0, b@.len() as int) =~= a@);
        } else {
            assert(a@.subrange(0, b@.len() as int) =~= a@);
        }
    }
    r
}

/// Appends the characters of `t` to `v`.
pub fn append_chars(v: &mut Vec<char>, t: &[char])
    ensures
        final(v)@ == old(v)@ + t@,
{
    let mut i: usize = 0;
    while i < t.len()
        invariant
            i <= t.len(),
            v@ == old(v)@ + t@.take(i as int),
        decreases t.len() - i,
    {
        v.push(t[i]);
        assert(t@.take(i + 1) == t@.take(i as int).push(t@[i as int]));
        i = i + 1;
    }
    assert(t@.take(t@.len() as int) =~= t@);
}

/// The characters of `a` followed by those of `b`.
pub fn concat(a: &[char], b: &[char]) -> (r: Vec<char>)
    ensures
        r@ == a@ + b@,
{
    let mut r = slice_chars(a, 0, a.len());
    append_chars(&mut r, b);
    r
}

pub open spec fn is_ascii_upper(c: char) -> bool {
    'A' <= c && c <= 'Z'
}

pub open spec fn is_ascii_lower(c: char) -> bool {
    'a' <= c && c <= 'z'
}

pub open spec fn is_ascii_digit(c: char) -> bool {
    '0' <= c && c <= '9'
}

pub open spec fn is_ascii_alpha(c: char) -> bool {
    is_ascii_upper(c) || is_ascii_lower(c)
}

pub open spec fn is_ascii_alnum(c: char) -> bool {
    is_ascii_alpha(c) || is_ascii_digit(c)
}

/// `char::to_ascii_lowercase`.
pub open spec fn lower_char(c: char) -> char {
    if is_ascii_upper(c) {
        ((c as u32) + 32) as char
    } else {
        c
    }
}

/// `char::to_ascii_uppercase`.
pub open spec fn upper_char(c: char) -> char {
    if is_ascii_lower(c) {
        ((c as u32) - 32) as char
    } else {
        c
    }
}

/// `str::to_ascii_lowercase`.
pub open spec fn lower(s: Seq<char>) -> Seq<char> {
    s.map_values(|c: char| lower_char(c))
}

/// `str::to_ascii_uppercase`.
pub open spec fn upper(s: Seq<char>) -> Seq<char> {
    s.map_values(|c: char| upper_char(c))
}

pub fn is_ascii_upper_exec(c: char) -> (r: bool)
    ensures
        r == is_ascii_upper(c),
{
    'A' <= c && c <= 'Z'
}

pub fn is_ascii_lower_exec(c: char) -> (r: bool)
    ensures
        r == is_ascii_lower(c),
{
    'a' <= c && c <= 'z'
}

pub fn is_ascii_digit_exec(c: char) -> (r: bool)
    ensures
        r == is_ascii_digit(c),
{
    '0' <= c && c <= '9'
}

pub fn is_ascii_alnum_exec(c: char) -> (r: bool)
    ensures
        r == is_ascii_alnum(c),
{
    ('A' <= c && c <= 'Z') || ('a' <= c && c <= 'z') || ('0' <= c && c <= '9')
}

pub fn lower_char_exec(c: char) -> (r: char)
    ensures
        r == lower_char(c),
{
    if 'A' <= c && c <= 'Z' {
        let u = (c as u32) + 32;
        assert(u <= 0x7f);
        char_from_ascii(u)
    } else {
        c
    }
}

pub fn upper_char_exec(c: char) -> (r: char)
    ensures
        r == upper_char(c),
{
    if 'a' <= c && c <= 'z' {
        let u = (c as u32) - 32;
        char_from_ascii(u)
    } else {
        c
    }
}

/// The ASCII character with code `u`.
fn char_from_ascii(u: u32) -> (r: char)
    requires
        u <= 0x7f,
    ensures
        r == u as char,
{
    let b = u as u8;
    b as char
}

pub fn lower_exec(s: &[char]) -> (r: Vec<char>)
    ensures
        r@ == lower(s@),
{
    let mut r: Vec<char> = Vec::new();
    let mut i: usize = 0;
    while i < s.len()
        invariant
            i <= s.len(),
            r@ == lower(s@.take(i as int)),
        decreases s.len() - i,
    {
        r.push(lower_char_exec(s[i]));
        assert(lower(s@.take(i + 1)) =~= lower(s@.take(i as int)).push(lower_char(s@[i as int])));
        i = i + 1;
    }
    assert(s@.take(s@.len() as int) =~= s@);
    r
}

pub fn upper_exec(s: &[char]) -> (r: Vec<char>)
    ensures
        r@ == upper(s@),
{
    let mut r: Vec<char> = Vec::new();
    let mut i: usize = 0;
    while i < s.len()
        invariant
            i <= s.len(),
            r@ == upper(s@.take(i as int)),
        decreases s.len() - i,
    {
        r.push(upper_char_exec(s[i]));
        assert(upper(s@.take(i + 1)) =~= upper(s@.take(i as int)).push(upper_char(s@[i as int])));
        i = i + 1;
    }
    assert(s@.take(s@.len() as int) =~= s@);
    r
}

/// Collapses whitespace from position `i` on: runs of whitespace between
/// words become one space, whitespace before the first and after the last
/// word is dropped.  `gap` records a run of whitespace after some word.
pub open spec fn collapse_spaces(s: Seq<char>, i: nat, out: Seq<char>, gap: bool) -> Seq<char>
    decreases s.len() - i,
{
    if i >= s.len() {
        out
    } else if is_space(s[i as int]) {
        collapse_spaces(s, i + 1, out, out.len() > 0)
    } else {
        collapse_spaces(
            s,
            i + 1,
            (if gap {
                out.push(' ')
            } else {
                out
            }).push(s[i as int]),
            false,
        )
    }
}

/// The words of `s` joined by single spaces (`split_whitespace` then `join(" ")`).
pub open spec fn normalize_whitespace(s: Seq<char>) -> Seq<char> {
    collapse_spaces(s, 0, Seq::empty(), false)
}

pub fn normalize_whitespace_exec(s: &[char]) -> (r: Vec<char>)
    ensures
        r@ == normalize_whitespace(s@),
{
    let mut out: Vec<char> = Vec::new();
    let mut gap = false;
    let mut i: usize = 0;
    while i < s.len()
        invariant
            i <= s.len(),
            normalize_whitespace(s@) == collapse_spaces(s@, i as nat, out@, gap),
        decreases s.len() - i,
    {
        if is_whitespace(s[i]) {
            gap = out.len() > 0;
        } else {
            if gap {
                out.push(' ');
            }
            out.push(s[i]);
            gap = false;
        }
        i = i + 1;
    }
    out
}

/// Whether `c` opens and closes a quoted literal.
pub open spec fn is_quote(c: char) -> bool {
    c == '"' || c == '`' || c == '\''
}

/// The trimmed text without one pair of matching surrounding quotes.
pub open spec fn strip_quotes(s: Seq<char>) -> Seq<char> {
    let t = trim(s);
    if t.len() >= 2 && is_quote(t[0]) && t.last() == t[0] {
        t.subrange(1, t.len() - 1)
    } else {
        t
    }
}

pub fn strip_quotes_exec(s: &[char]) -> (r: Vec<char>)
    ensures
        r@ == strip_quotes(s@),
{
    let t = trim_exec(s);
    let n = t.len();
    if n >= 2 && (t[0] == '"' || t[0] == '`' || t[0] == '\'') && t[n - 1] == t[0] {
        slice_chars(&t, 1, n - 1)
    } else {
        t
    }
}

/// The text after the last `c` (all of `s` when there is none), as
/// `s.rsplit(c).next()` gives it.
pub open spec fn after_last(s: Seq<char>, c: char) -> Seq<char> {
    match rfind(s, seq![c]) {
        Some(k) => s.skip(k + 1),
        None => s,
    }
}

/// The text before the first `c` (all of `s` when there is none), as
/// `s.split(c).next()` gives it.
pub open spec fn before_first(s: Seq<char>, c: char) -> Seq<char> {
    match find(s, seq![c]) {
        Some(k) => s.take(k),
        None => s,
    }
}

/// `str::split_once` with a one-character delimiter.
pub open spec fn split_once(s: Seq<char>, c: char) -> Option<(Seq<char>, Seq<char>)> {
    match find(s, seq![c]) {
        Some(k) => Some((s.take(k), s.skip(k + 1))),
        None => None,
    }
}

/// `str::rsplit_once` with a one-character delimiter.
pub open spec fn rsplit_once(s: Seq<char>, c: char) -> Option<(Seq<char>, Seq<char>)> {
    match rfind(s, seq![c]) {
        Some(k) => Some((s.take(k), s.skip(k + 1))),
        None => None,
    }
}

pub fn after_last_exec(s: &[char], c: char) -> (r: Vec<char>)
    ensures
        r@ == after_last(s@, c),
{
    let n = s.len();
    match rfind_char_exec(s, c) {
        Some(k) => slice_chars(s, k + 1, n),
        None => slice_chars(s, 0, s.len()),
    }
}

pub fn before_first_exec(s: &[char], c: char) -> (r: Vec<char>)
    ensures
        r@ == before_first(s@, c),
{
    match find_char_exec(s, c) {
        Some(k) => slice_chars(s, 0, k),
        None => slice_chars(s, 0, s.len()),
    }
}

pub fn split_once_exec(s: &[char], c: char) -> (r: Option<(Vec<char>, Vec<char>)>)
    ensures
        r matches Some(p) ==> split_once(s@, c) == Some((p.0@, p.1@)),
        r is None ==> split_once(s@, c) is None,
{
    let n = s.len();
    match find_char_exec(s, c) {
        Some(k) => Some((slice_chars(s, 0, k), slice_chars(s, k + 1, n))),
        None => None,
    }
}

pub fn rsplit_once_exec(s: &[char], c: char) -> (r: Option<(Vec<char>, Vec<char>)>)
    ensures
        r matches Some(p) ==> rsplit_once(s@, c) == Some((p.0@, p.1@)),
        r is None ==> rsplit_once(s@, c) is None,
{
    let n = s.len();
    match rfind_char_exec(s, c) {
        Some(k) => Some((slice_chars(s, 0, k), slice_chars(s, k + 1, n))),
        None => None,
    }
}

/// Whether `s` contains `c`.
pub fn contains_char_exec(s: &[char], c: char) -> (r: bool)
    ensures
        r == s@.contains(c),
{
    find_char_exec(s, c).is_some()
}

/// Whether `p` occurs in `s`.
pub fn contains_exec(s: &[char], p: &[char]) -> (r: bool)
    ensures
        r == contains(s@, p@),
{
    find_exec(s, p).is_some()
}

/// The text of a string slice.
pub fn text_of(s: &String) -> (r: Vec<char>)
    ensures
        r@ == s@,
{
    chars_of(s.as_str())
}

/// The one-character text `c`.
pub fn one(c: char) -> (r: Vec<char>)
    ensures
        r@ == seq![c],
{
    let mut r = Vec::new();
    r.push(c);
    assert(r@ =~= seq![c]);
    r
}

/// The position of the last whitespace character before `n`, or -1.
pub open spec fn last_space_below(s: Seq<char>, n: int) -> int
    decreases n,
{
    if n <= 0 {
        -1
    } else if is_space(s[n - 1]) {
        n - 1
    } else {
        last_space_below(s, n - 1)
    }
}

/// The last whitespace-separated word, as `split_whitespace().next_back()`
/// gives it.
pub open spec fn last_word(s: Seq<char>) -> Option<Seq<char>> {
    let t = trim(s);
    if t.len() == 0 {
        None
    } else {
        Some(t.skip(last_space_below(t, t.len() as int) + 1))
    }
}

pub fn last_word_exec(s: &[char]) -> (r: Option<Vec<char>>)
    ensures
        r matches Some(w) ==> last_word(s@) == Some(w@),
        r is None ==> last_word(s@) is None,
{
    let t = trim_exec(s);
    let n = t.len();
    if n == 0 {
        return None;
    }
    let mut k: usize = n;
    while k > 0 && !is_whitespace(t[k - 1])
        invariant
            n == t@.len(),
            k <= n,
            last_space_below(t@, n as int) == last_space_below(t@, k as int),
        decreases k,
    {
        k = k - 1;
    }
    Some(slice_chars(&t, k, n))
}

/// The position of the first whitespace character at or after `i`, or the
/// length when there is none.
pub open spec fn first_space_from(s: Seq<char>, i: int) -> int
    decreases s.len() - i,
{
    if i < 0 || i >= s.len() {
        s.len() as int
    } else if is_space(s[i]) {
        i
    } else {
        first_space_from(s, i + 1)
    }
}

/// The first whitespace-separated word, as `split_whitespace().next()`
/// gives it.
pub open spec fn first_word(s: Seq<char>) -> Option<Seq<char>> {
    let t = trim(s);
    if t.len() == 0 {
        None
    } else {
        Some(t.take(first_space_from(t, 0)))
    }
}

pub proof fn lemma_first_space_from(s: Seq<char>, i: int)
    requires
        0 <= i <= s.len(),
    ensures
        i <= first_space_from(s, i) <= s.len(),
    decreases s.len() - i,
{
    if i < s.len() && !is_space(s[i]) {
        lemma_first_space_from(s, i + 1);
    }
}

pub fn first_word_exec(s: &[char]) -> (r: Option<Vec<char>>)
    ensures
        r matches Some(w) ==> first_word(s@) == Some(w@),
        r is None ==> first_word(s@) is None,
{
    let t = trim_exec(s);
    let n = t.len();
    if n == 0 {
        return None;
    }
    let mut k: usize = 0;
    while k < n && !is_whitespace(t[k])
        invariant
            n == t@.len(),
            k <= n,
            first_space_from(t@, 0) == first_space_from(t@, k as int),
        decreases n - k,
    {
        k = k + 1;
    }
    Some(slice_chars(&t, 0, k))
}

/// A line without the carriage return of a `\r\n` ending.
pub open spec fn strip_cr(l: Seq<char>) -> Seq<char> {
    if l.len() > 0 && l.last() == '\r' {
        l.drop_last()
    } else {
        l
    }
}

/// The lines of a text, as `str::lines` gives them: split at `\n`, a `\r`
/// before the `\n` removed, no empty last line after a final `\n`.
pub open spec fn lines(s: Seq<char>) -> Seq<Seq<char>>
    decreases s.len(),
{
    if s.len() == 0 {
        Seq::empty()
    } else {
        match find(s, seq!['\n']) {
            Some(k) => {
                proof {
                    lemma_find(s, seq!['\n']);
                }
                seq![strip_cr(s.take(k))] + lines(s.skip(k + 1))
            },
            None => seq![s],
        }
    }
}

pub fn lines_exec(s: &[char]) -> (r: Vec<Vec<char>>)
    ensures
        views(r@) == lines(s@),
{
    let n = s.len();
    let mut out: Vec<Vec<char>> = Vec::new();
    let mut start: usize = 0;
    assert(s@.skip(0) =~= s@);
    assert(views(out@) + lines(s@.skip(0)) =~= lines(s@));
    while start < n
        invariant
            n == s@.len(),
            start <= n,
            views(out@) + lines(s@.skip(start as int)) == lines(s@),
        decreases n - start,
    {
        let rest = slice_chars(s, start, n);
        assert(rest@ =~= s@.skip(start as int));
        proof {
            lemma_find(rest@, seq!['\n']);
        }
        let ghost o = views(out@);
        match find_char_exec(&rest, '\n') {
            Some(k) => {
                let mut line = slice_chars(&rest, 0, k);
                if k > 0 && line[k - 1] == '\r' {
                    line.pop();
                }
                assert(line@ =~= strip_cr(rest@.take(k as int)));
                out.push(line);
                assert(rest@.skip(k + 1) =~= s@.skip(start + k + 1));
                assert(views(out@) =~= o.push(strip_cr(rest@.take(k as int))));
                assert(views(out@) + lines(s@.skip(start + k + 1)) =~= o + lines(rest@));
                start = start + k + 1;
            },
            None => {
                out.push(rest);
                assert(views(out@) =~= o.push(rest@));
                assert(views(out@) + lines(s@.skip(n as int)) =~= o + lines(rest@));
                start = n;
            },
        }
    }
    assert(s@.skip(n as int) =~= Seq::<char>::empty());
    assert(views(out@) + Seq::<Seq<char>>::empty() =~= views(out@));
    out
}

/// `str::replace` with a non-empty pattern: every non-overlapping
/// occurrence, left to right, replaced.
pub open spec fn replace_all(s: Seq<char>, p: Seq<char>, r: Seq<char>) -> Seq<char>
    decreases s.len(),
{
    if p.len() == 0 {
        s
    } else {
        match find(s, p) {
            Some(k) => {
                proof {
                    lemma_find(s, p);
                }
                s.take(k) + r + replace_all(s.skip(k + p.len()), p, r)
            },
            None => s,
        }
    }
}

pub fn replace_all_exec(s: &[char], p: &[char], r: &[char]) -> (out: Vec<char>)
    requires
        p@.len() > 0,
    ensures
        out@ == replace_all(s@, p@, r@),
{
    let n = s.len();
    let mut out: Vec<char> = Vec::new();
    let mut start: usize = 0;
    assert(s@.skip(0) =~= s@);
    while start <= n
        invariant
            n == s@.len(),
            p@.len() > 0,
            start <= n,
            out@ + replace_all(s@.skip(start as int), p@, r@) == replace_all(s@, p@, r@),
        decreases n - start,
    {
        let rest = slice_chars(s, start, n);
        assert(rest@ =~= s@.skip(start as int));
        proof {
            lemma_find(rest@, p@);
        }
        match find_exec(&rest, p) {
            Some(k) => {
                let ghost o = out@;
                append_chars(&mut out, &slice_chars(&rest, 0, k));
                append_chars(&mut out, r);
                assert(rest@.skip(k + p@.len()) =~= s@.skip(start + k + p@.len()));
                assert(out@ + replace_all(s@.skip(start + k + p@.len()), p@, r@) =~= o + replace_all(
                    rest@,
                    p@,
                    r@,
                ));
                start = start + k + p.len();
            },
            None => {
                append_chars(&mut out, &rest);
                return out;
            },
        }
    }
    out
}

/// The texts of a list of character vectors.
pub open spec fn views(v: Seq<Vec<char>>) -> Seq<Seq<char>> {
    v.map_values(|x: Vec<char>| x@)
}

/// The pieces of `s` between occurrences of `c`, as `str::split(c)` gives them.
pub open spec fn split_char(s: Seq<char>, c: char) -> Seq<Seq<char>>
    decreases s.len(),
{
    match find(s, seq![c]) {
        Some(k) => {
            proof {
                lemma_find(s, seq![c]);
            }
            seq![s.take(k)] + split_char(s.skip(k + 1), c)
        },
        None => seq![s],
    }
}

/// The pieces joined with `sep` between neighbours.
pub open spec fn join(parts: Seq<Seq<char>>, sep: Seq<char>) -> Seq<char>
    decreases parts.len(),
{
    if parts.len() == 0 {
        Seq::empty()
    } else if parts.len() == 1 {
        parts[0]
    } else {
        parts[0] + sep + join(parts.drop_first(), sep)
    }
}

/// Splitting at `c` and joining with `c` gives back the text.
pub proof fn lemma_split_join(s: Seq<char>, c: char)
    ensures
        join(split_char(s, c), seq![c]) == s,
        split_char(s, c).len() >= 1,
    decreases s.len(),
{
    lemma_find(s, seq![c]);
    match find(s, seq![c]) {
        Some(k) => {
            let rest = s.skip(k + 1);
            lemma_split_join(rest, c);
            lemma_occurs_single(s, c, k);
            let parts = split_char(s, c);
            assert(parts.drop_first() =~= split_char(rest, c));
            assert(s =~= s.take(k) + seq![c] + rest);
        },
        None => {
        },
    }
}

/// `str::split(c)`, collected.
pub fn split_char_exec(s: &[char], c: char) -> (r: Vec<Vec<char>>)
    ensures
        r@.map_values(|v: Vec<char>| v@) == split_char(s@, c),
{
    let mut parts: Vec<Vec<char>> = Vec::new();
    let mut start: usize = 0;
    let n = s.len();
    assert(s@.skip(0) =~= s@);
    while start <= n
        invariant
            start <= n + 1,
            n == s@.len(),
            start <= n ==> split_char(s@, c) == parts@.map_values(|v: Vec<char>| v@) + split_char(
                s@.skip(start as int),
                c,
            ),
            start > n ==> split_char(s@, c) == parts@.map_values(|v: Vec<char>| v@),
        decreases n + 1 - start,
    {
        let rest = slice_chars(s, start, n);
        assert(rest@ =~= s@.skip(start as int));
        let ghost before = parts@.map_values(|v: Vec<char>| v@);
        match find_char_exec(&rest, c) {
            Some(k) => {
                proof {
                    lemma_find(rest@, seq![c]);
                }
                parts.push(slice_chars(&rest, 0, k));
                assert(parts@.map_values(|v: Vec<char>| v@) =~= before.push(rest@.take(k as int)));
                assert(rest@.skip(k + 1) =~= s@.skip(start + k + 1));
                assert(split_char(rest@, c) == seq![rest@.take(k as int)] + split_char(rest@.skip(k + 1), c));
                assert(before + split_char(rest@, c) =~= before.push(rest@.take(k as int)) + split_char(rest@.skip(k + 1), c));
                start = start + k + 1;
            },
            None => {
                parts.push(rest);
                assert(parts@.map_values(|v: Vec<char>| v@) =~= before + seq![rest@]);
                return parts;
            },
        }
    }
    parts
}

/// The pieces joined with `sep` between neighbours.
pub fn join_exec(parts: &[Vec<char>], sep: &[char]) -> (r: Vec<char>)
    ensures
        r@ == join(parts@.map_values(|v: Vec<char>| v@), sep@),
{
    let ghost views = parts@.map_values(|v: Vec<char>| v@);
    if parts.len() == 0 {
        return Vec::new();
    }
    let mut r = slice_chars(&parts[0], 0, parts[0].len());
    proof {
        lemma_join_prefix(views, sep@, 1, r@);
        if views.len() > 1 {
            assert(views.skip(1) =~= views.drop_first());
        }
    }
    let mut i: usize = 1;
    while i < parts.len()
        invariant
            1 <= i <= parts.len(),
            views == parts@.map_values(|v: Vec<char>| v@),
            join(views, sep@) == join_prefix(views, sep@, i as nat, r@),
        decreases parts.len() - i,
    {
        append_chars(&mut r, sep);
        append_chars(&mut r, &parts[i]);
        i = i + 1;
    }
    r
}

/// `acc` (the join of the first `i` pieces) extended by the remaining ones.
pub open spec fn join_prefix(parts: Seq<Seq<char>>, sep: Seq<char>, i: nat, acc: Seq<char>) -> Seq<char>
    decreases parts.len() - i,
{
    if i >= parts.len() {
        acc
    } else {
        join_prefix(parts, sep, i + 1, acc + sep + parts[i as int])
    }
}

pub proof fn lemma_join_prefix(parts: Seq<Seq<char>>, sep: Seq<char>, i: nat, acc: Seq<char>)
    requires
        1 <= i <= parts.len(),
    ensures
        i < parts.len() ==> join_prefix(parts, sep, i, acc) == acc + sep + join(parts.skip(i as int), sep),
        i == parts.len() ==> join_prefix(parts, sep, i, acc) == acc,
    decreases parts.len() - i,
{
    if i < parts.len() {
        lemma_join_prefix(parts, sep, i + 1, acc + sep + parts[i as int]);
        let t = parts.skip(i as int);
        if i + 1 < parts.len() {
            assert(t.drop_first() =~= parts.skip(i + 1 as int));
            assert(join(t, sep) == t[0] + sep + join(t.drop_first(), sep));
            assert(acc + sep + parts[i as int] + sep + join(parts.skip(i + 1 as int), sep) =~= acc + sep + (t[0] + sep + join(t.drop_first(), sep)));
        } else {
            assert(t.len() == 1);
        }
    }
}

/// Trimming never lengthens a text.
pub proof fn lemma_trim_len(s: Seq<char>)
    ensures
        trim(s).len() <= s.len(),
{
    lemma_trim_shape(s);
}

} // verus!
