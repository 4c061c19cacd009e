//! Sorting and de-duplicating lists of strings in lexicographic order.
use vstd::prelude::*;

verus! {

/// Lexicographic order on texts by code point, the order `String` sorts by.
pub open spec fn lex_lt(a: Seq<char>, b: Seq<char>) -> bool
    decreases a.len(),
{
    if a.len() == 0 {
        b.len() > 0
    } else if b.len() == 0 {
        false
    } else if a[0] != b[0] {
        (a[0] as int) < (b[0] as int)
    } else {
        lex_lt(a.drop_first(), b.drop_first())
    }
}

pub proof fn lemma_lex_irreflexive(a: Seq<char>)
    ensures
        !lex_lt(a, a),
    decreases a.len(),
{
    if a.len() > 0 {
        lemma_lex_irreflexive(a.drop_first());
    }
}

pub proof fn lemma_lex_transitive(a: Seq<char>, b: Seq<char>, c: Seq<char>)
    requires
        lex_lt(a, b),
        lex_lt(b, c),
    ensures
        lex_lt(a, c),
    decreases a.len(),
{
    if a.len() > 0 && b.len() > 0 && c.len() > 0 {
        if a[0] == b[0] && b[0] == c[0] {
            lemma_lex_transitive(a.drop_first(), b.drop_first(), c.drop_first());
        }
    }
}

pub proof fn lemma_lex_total(a: Seq<char>, b: Seq<char>)
    requires
        a != b,
    ensures
        lex_lt(a, b) || lex_lt(b, a),
    decreases a.len(),
{
    if a.len() > 0 && b.len() > 0 && a[0] == b[0] {
        if a.drop_first() == b.drop_first() {
            assert(a =~= seq![a[0]] + a.drop_first());
            assert(b =~= seq![b[0]] + b.drop_first());
        }
        lemma_lex_total(a.drop_first(), b.drop_first());
    } else if a.len() == 0 && b.len() == 0 {
        assert(a =~= b);
    } else if a.len() > 0 && b.len() > 0 {
        assert((a[0] as int) != (b[0] as int));
    }
}

pub proof fn lemma_lex_asymmetric(a: Seq<char>, b: Seq<char>)
    requires
        lex_lt(a, b),
    ensures
        !lex_lt(b, a),
{
    if lex_lt(b, a) {
        lemma_lex_transitive(a, b, a);
        lemma_lex_irreflexive(a);
    }
}

/// Whether `a` sorts before `b`.
pub fn lex_lt_exec(a: &[char], b: &[char]) -> (r: bool)
    ensures
        r == lex_lt(a@, b@),
{
    let mut i: usize = 0;
    assert(a@.skip(0) =~= a@);
    assert(b@.skip(0) =~= b@);
    while i < a.len() && i < b.len() && a[i] == b[i]
        invariant
            i <= a.len(),
            i <= b.len(),
            lex_lt(a@, b@) == lex_lt(a@.skip(i as int), b@.skip(i as int)),
        decreases a.len() - i,
    {
        assert(a@.skip(i as int).drop_first() =~= a@.skip(i + 1));
        assert(b@.skip(i as int).drop_first() =~= b@.skip(i + 1));
        i = i + 1;
    }
    proof {
        if i < a.len() && i < b.len() {
            assert(a@.skip(i as int)[0] == a@[i as int]);
            assert(b@.skip(i as int)[0] == b@[i as int]);
        }
    }
    if i == a.len() {
        i < b.len()
    } else if i == b.len() {
        false
    } else {
        a[i] < b[i]
    }
}

/// The texts of a list of strings.
pub open spec fn texts(v: Seq<String>) -> Seq<Seq<char>> {
    v.map_values(|s: String| s@)
}

/// Each text sorts strictly before every later one.
pub open spec fn strictly_sorted(s: Seq<Seq<char>>) -> bool {
    forall|i: int, j: int| 0 <= i < j < s.len() ==> lex_lt(#[trigger] s[i], #[trigger] s[j])
}

/// Inserts `x` into a sorted list of texts, keeping one copy of each text.
pub open spec fn insert_lex(s: Seq<Seq<char>>, x: Seq<char>) -> Seq<Seq<char>>
    decreases s.len(),
{
    if s.len() == 0 {
        seq![x]
    } else if s[0] == x {
        s
    } else if lex_lt(x, s[0]) {
        seq![x] + s
    } else {
        seq![s[0]] + insert_lex(s.drop_first(), x)
    }
}

/// The texts sorted, each kept once: what `sort` followed by `dedup` leaves.
pub open spec fn sort_dedup_spec(s: Seq<Seq<char>>) -> Seq<Seq<char>>
    decreases s.len(),
{
    if s.len() == 0 {
        Seq::empty()
    } else {
        insert_lex(sort_dedup_spec(s.drop_last()), s.last())
    }
}

proof fn lemma_insert_lex_at(s: Seq<Seq<char>>, x: Seq<char>, p: int)
    requires
        0 <= p <= s.len(),
        forall|k: int| 0 <= k < p ==> lex_lt(#[trigger] s[k], x),
        p < s.len() ==> !lex_lt(s[p], x),
    ensures
        insert_lex(s, x) == (if p < s.len() && s[p] == x {
            s
        } else {
            s.take(p) + seq![x] + s.skip(p)
        }),
    decreases p,
{
    if p == 0 {
        if s.len() > 0 && s[0] != x {
            lemma_lex_total(s[0], x);
        }
        assert(s.take(0) + seq![x] + s.skip(0) =~= seq![x] + s);
    } else {
        lemma_lex_irreflexive(x);
        lemma_lex_asymmetric(s[0], x);
        let t = s.drop_first();
        assert forall|k: int| 0 <= k < p - 1 implies lex_lt(#[trigger] t[k], x) by {
            assert(t[k] == s[k + 1]);
        }
        lemma_insert_lex_at(t, x, p - 1);
        if p < s.len() && s[p] == x {
            assert(seq![s[0]] + t =~= s);
        } else {
            assert(seq![s[0]] + (t.take(p - 1) + seq![x] + t.skip(p - 1)) =~= s.take(p) + seq![x]
                + s.skip(p));
        }
    }
}

/// The strings of `v` sorted, each text kept once (`sort` then `dedup`).
pub fn sort_dedup(v: Vec<String>) -> (r: Vec<String>)
    ensures
        texts(r@) == sort_dedup_spec(texts(v@)),
        strictly_sorted(texts(r@)),
        texts(r@).to_set() == texts(v@).to_set(),
{
    let mut r: Vec<String> = Vec::new();
    let mut i: usize = 0;
    while i < v.len()
        invariant
            i <= v.len(),
            texts(r@) == sort_dedup_spec(texts(v@.take(i as int))),
            strictly_sorted(texts(r@)),
            texts(r@).to_set() == texts(v@.take(i as int)).to_set(),
        decreases v.len() - i,
    {
        let x = v[i].clone();
        insert_sorted(&mut r, x);
        assert(texts(v@.take(i + 1)) =~= texts(v@.take(i as int)).push(v@[i as int]@));
        assert(texts(v@.take(i + 1)).drop_last() =~= texts(v@.take(i as int)));
        proof {
            lemma_push_to_set(texts(v@.take(i as int)), v@[i as int]@);
        }
        i = i + 1;
    }
    assert(v@.take(v@.len() as int) =~= v@);
    r
}

/// Inserts `x` into a strictly sorted list unless its text is already there.
fn insert_sorted(r: &mut Vec<String>, x: String)
    requires
        strictly_sorted(texts(old(r)@)),
    ensures
        texts(final(r)@) == insert_lex(texts(old(r)@), x@),
        strictly_sorted(texts(final(r)@)),
        texts(final(r)@).to_set() == texts(old(r)@).to_set().insert(x@),
{
    let xs = crate::text::chars_of(x.as_str());
    let mut p: usize = 0;
    while p < r.len() && lex_lt_exec(&crate::text::chars_of(r[p].as_str()), &xs)
        invariant
            p <= r.len(),
            r@ == old(r)@,
            xs@ == x@,
            forall|k: int| 0 <= k < p ==> lex_lt(#[trigger] texts(r@)[k], x@),
        decreases r.len() - p,
    {
        p = p + 1;
    }
    let ghost old_texts = texts(r@);
    proof {
        lemma_insert_lex_at(old_texts, x@, p as int);
    }
    if p < r.len() && crate::sorting::chars_same(&crate::text::chars_of(r[p].as_str()), &xs) {
        assert(old_texts.to_set().insert(x@) =~= old_texts.to_set()) by {
            assert(old_texts.to_set().contains(old_texts[p as int]));
        }
        return;
    }
    proof {
        if p < r.len() {
            assert(old_texts[p as int] != x@);
            lemma_lex_total(old_texts[p as int], x@);
            assert(lex_lt(x@, old_texts[p as int]));
        }
    }
    r.insert(p, x);
    let ghost new_texts = texts(r@);
    assert(new_texts =~= old_texts.insert(p as int, x@));
    assert(new_texts =~= old_texts.take(p as int) + seq![x@] + old_texts.skip(p as int));
    assert forall|i: int, j: int| 0 <= i < j < new_texts.len() implies lex_lt(
        #[trigger] new_texts[i],
        #[trigger] new_texts[j],
    ) by {
        if j < p {
        } else if j == p {
        } else if i < p {
            if j - 1 > p {
                lemma_lex_transitive(x@, old_texts[p as int], old_texts[j - 1]);
            }
            lemma_lex_transitive(new_texts[i], x@, new_texts[j]);
        } else if i == p {
            if j > p + 1 {
                lemma_lex_transitive(x@, old_texts[p as int], old_texts[j - 1]);
            }
        } else {
        }
    }
    assert(new_texts.to_set() =~= old_texts.to_set().insert(x@)) by {
        assert forall|t: Seq<char>| new_texts.to_set().contains(t) implies old_texts.to_set().insert(
            x@,
        ).contains(t) by {
            let k = choose|k: int| 0 <= k < new_texts.len() && new_texts[k] == t;
            if k < p {
                assert(old_texts[k] == t);
            } else if k > p {
                assert(old_texts[k - 1] == t);
            }
        }
        assert forall|t: Seq<char>| old_texts.to_set().insert(x@).contains(t) implies new_texts.to_set().contains(t) by {
            if t == x@ {
                assert(new_texts[p as int] == t);
            } else {
                let k = choose|k: int| 0 <= k < old_texts.len() && old_texts[k] == t;
                if k < p {
                    assert(new_texts[k] == t);
                } else {
                    assert(new_texts[k + 1] == t);
                }
            }
        }
    }
}

/// Pushing an element adds it to the set of elements.
pub proof fn lemma_push_to_set<A>(s: Seq<A>, e: A)
    ensures
        s.push(e).to_set() == s.to_set().insert(e),
{
    assert forall|t: A| s.push(e).to_set().contains(t) implies s.to_set().insert(e).contains(t) by {
        let k = choose|k: int| 0 <= k < s.push(e).len() && s.push(e)[k] == t;
        if k < s.len() {
            assert(s[k] == t);
        }
    }
    assert forall|t: A| s.to_set().insert(e).contains(t) implies s.push(e).to_set().contains(t) by {
        if t == e {
            assert(s.push(e)[s.len() as int] == t);
        } else {
            let k = choose|k: int| 0 <= k < s.len() && s[k] == t;
            assert(s.push(e)[k] == t);
        }
    }
    assert(s.push(e).to_set() =~= s.to_set().insert(e));
}

/// Character-wise equality.
pub fn chars_same(a: &[char], b: &[char]) -> (r: bool)
    ensures
        r == (a@ == b@),
{
    crate::text::chars_eq(a, b)
}

} // verus!
