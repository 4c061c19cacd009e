//! The assignments of a file keyed by scope and name, each key held once: a
//! later assignment of a key replaces the earlier one.
use vstd::prelude::*;

use crate::bindings::Bindings;
use crate::model::{same_scope, scope_view, Assignment, AssignmentKey, Scope};
use crate::text::{chars_eq, text_of};

verus! {

pub type KeyView = ((int, Seq<char>), Seq<char>);

pub open spec fn key_view(e: (AssignmentKey, Assignment)) -> KeyView {
    (scope_view(e.0.scope), e.0.variable_name@)
}

/// The type and value an entry assigns.
pub open spec fn value_view(e: (AssignmentKey, Assignment)) -> (Seq<char>, Seq<char>) {
    (e.1.variable_type@, e.1.value@)
}

/// Each key occurs once, and each entry names the variable of its key.
pub open spec fn store_wf(v: Seq<(AssignmentKey, Assignment)>) -> bool {
    &&& forall|i: int, j: int| 0 <= i < v.len() && 0 <= j < v.len() && i != j ==> key_view(#[trigger] v[i]) != key_view(#[trigger] v[j])
    &&& forall|i: int| 0 <= i < v.len() ==> (#[trigger] v[i]).1.variable_name@ == v[i].0.variable_name@
}

/// The assignments as a map from key to type and value; a later entry of a
/// key replaces an earlier one.
pub open spec fn store_map(v: Seq<(AssignmentKey, Assignment)>) -> Map<KeyView, (Seq<char>, Seq<char>)>
    decreases v.len(),
{
    if v.len() == 0 {
        Map::empty()
    } else {
        store_map(v.drop_last()).insert(key_view(v.last()), value_view(v.last()))
    }
}

/// In a store whose keys are distinct, the map holds exactly each entry.
pub proof fn lemma_store_map(v: Seq<(AssignmentKey, Assignment)>)
    requires
        forall|i: int, j: int| 0 <= i < v.len() && 0 <= j < v.len() && i != j ==> key_view(#[trigger] v[i]) != key_view(#[trigger] v[j]),
    ensures
        forall|k: KeyView| store_map(v).contains_key(k) <==> exists|i: int| 0 <= i < v.len() && key_view(#[trigger] v[i]) == k,
        forall|i: int| 0 <= i < v.len() ==> #[trigger] store_map(v)[key_view(v[i])] == value_view(v[i]),
    decreases v.len(),
{
    if v.len() > 0 {
        let w = v.drop_last();
        assert forall|i: int, j: int| 0 <= i < w.len() && 0 <= j < w.len() && i != j implies key_view(#[trigger] w[i]) != key_view(#[trigger] w[j]) by {
            assert(w[i] == v[i] && w[j] == v[j]);
        }
        lemma_store_map(w);
        let last = v.last();
        assert(store_map(v) == store_map(w).insert(key_view(last), value_view(last)));
        assert forall|k: KeyView| store_map(v).contains_key(k) <==> exists|i: int| 0 <= i < v.len() && key_view(#[trigger] v[i]) == k by {
            if store_map(v).contains_key(k) {
                if k == key_view(last) {
                    assert(key_view(v[v.len() - 1]) == k);
                } else {
                    assert(store_map(w).contains_key(k));
                    assert(exists|i: int| 0 <= i < w.len() && key_view(#[trigger] w[i]) == k);
                    let i = choose|i: int| 0 <= i < w.len() && key_view(#[trigger] w[i]) == k;
                    assert(v[i] == w[i]);
                    assert(key_view(v[i]) == k);
                }
            }
            if exists|i: int| 0 <= i < v.len() && key_view(#[trigger] v[i]) == k {
                let i = choose|i: int| 0 <= i < v.len() && key_view(#[trigger] v[i]) == k;
                if i < w.len() {
                    assert(w[i] == v[i]);
                    assert(key_view(w[i]) == k);
                    assert(store_map(w).contains_key(k));
                } else {
                    assert(k == key_view(last));
                }
            }
        }
        assert forall|i: int| 0 <= i < v.len() implies #[trigger] store_map(v)[key_view(v[i])] == value_view(v[i]) by {
            if i < w.len() {
                assert(w[i] == v[i]);
                assert(key_view(v[i]) != key_view(v[v.len() - 1]));
                assert(store_map(w)[key_view(w[i])] == value_view(w[i]));
            }
        }
    }
}

/// A copy of a scope.
pub fn copy_scope(s: &Scope) -> (r: Scope)
    ensures
        scope_view(r) == scope_view(*s),
{
    match s {
        Scope::Global => Scope::Global,
        Scope::Function(n) => Scope::Function(n.clone()),
        Scope::Class(n) => Scope::Class(n.clone()),
    }
}

/// The values assigned in one scope, by name.
pub open spec fn scope_map(m: Map<KeyView, (Seq<char>, Seq<char>)>, s: (int, Seq<char>)) -> Map<Seq<char>, Seq<char>> {
    Map::new(|k: Seq<char>| m.contains_key((s, k)), |k: Seq<char>| m[(s, k)].1)
}

/// The values assigned in a scope, by name.
pub fn scope_bindings(v: &Vec<(AssignmentKey, Assignment)>, s: &Scope) -> (r: Bindings)
    requires
        store_wf(v@),
    ensures
        r@ == scope_map(store_map(v@), scope_view(*s)),
{
    proof {
        lemma_store_map(v@);
    }
    let ghost sv = scope_view(*s);
    let mut r = Bindings::new();
    let mut i: usize = 0;
    while i < v.len()
        invariant
            i <= v@.len(),
            store_wf(v@),
            sv == scope_view(*s),
            forall|k: Seq<char>| r@.contains_key(k) <==> exists|j: int| 0 <= j < i && #[trigger] key_view(v@[j]) == (sv, k),
            forall|j: int| 0 <= j < i && key_view(v@[j]).0 == sv ==> #[trigger] r@[key_view(v@[j]).1] == v@[j].1.value@,
        decreases v.len() - i,
    {
        if same_scope(&v[i].0.scope, s) {
            let ghost before = r@;
            r.insert(v[i].1.variable_name.clone(), v[i].1.value.clone());
            assert forall|k: Seq<char>| r@.contains_key(k) <==> exists|j: int| 0 <= j < i + 1 && #[trigger] key_view(v@[j]) == (sv, k) by {
                if k == v@[i as int].1.variable_name@ {
                    assert(key_view(v@[i as int]) == (sv, k));
                }
                if exists|j: int| 0 <= j < i + 1 && #[trigger] key_view(v@[j]) == (sv, k) {
                    let j = choose|j: int| 0 <= j < i + 1 && #[trigger] key_view(v@[j]) == (sv, k);
                    if j < i {
                        assert(before.contains_key(k));
                    }
                }
            }
            assert forall|j: int| 0 <= j < i + 1 && key_view(v@[j]).0 == sv implies #[trigger] r@[key_view(v@[j]).1] == v@[j].1.value@ by {
                if j < i {
                    assert(key_view(v@[j]) != key_view(v@[i as int]));
                }
            }
        }
        i = i + 1;
    }
    assert(r@ =~= scope_map(store_map(v@), sv)) by {
        assert forall|k: Seq<char>| r@.contains_key(k) <==> scope_map(store_map(v@), sv).contains_key(k) by {}
        assert forall|k: Seq<char>| r@.contains_key(k) implies r@[k] == scope_map(store_map(v@), sv)[k] by {
            let j = choose|j: int| 0 <= j < v@.len() && #[trigger] key_view(v@[j]) == (sv, k);
            assert(r@[key_view(v@[j]).1] == v@[j].1.value@);
            assert(store_map(v@)[key_view(v@[j])] == value_view(v@[j]));
        }
    }
    r
}

/// Assigns `value` to `name` in scope `s` (with no type), replacing the
/// assignment of that key.
pub fn store_assignment(v: &mut Vec<(AssignmentKey, Assignment)>, s: Scope, name: String, value: String)
    requires
        store_wf(old(v)@),
    ensures
        store_wf(final(v)@),
        store_map(final(v)@) == store_map(old(v)@).insert((scope_view(s), name@), (Seq::<char>::empty(), value@)),
{
    proof {
        lemma_store_map(v@);
    }
    let ghost kv = (scope_view(s), name@);
    let entry = (
        AssignmentKey { scope: s, variable_name: name.clone() },
        Assignment { variable_name: name, variable_type: String::new(), value },
    );
    assert(key_view(entry) == kv);
    assert(value_view(entry) == (Seq::<char>::empty(), value@));
    let mut i: usize = 0;
    while i < v.len()
        invariant
            i <= v@.len(),
            key_view(entry) == kv,
            entry.1.variable_name@ == entry.0.variable_name@,
            value_view(entry) == (Seq::<char>::empty(), value_view(entry).1),
            v@ == old(v)@,
            store_wf(old(v)@),
            entry.1.value@ == value@,
            kv == (scope_view(s), name@),
            forall|j: int| 0 <= j < i ==> key_view(#[trigger] v@[j]) != kv,
        decreases v.len() - i,
    {
        if same_scope(&v[i].0.scope, &entry.0.scope) && chars_eq(&text_of(&v[i].0.variable_name), &text_of(&entry.0.variable_name)) {
            let ghost old_v = v@;
            assert(key_view(old_v[i as int]) == kv);
            v.set(i, entry);
            proof {
                lemma_store_map(old_v);
                assert(v@ =~= old_v.update(i as int, entry));
                assert forall|j: int| 0 <= j < v@.len() implies key_view(#[trigger] v@[j]) == key_view(old_v[j]) by {}
                assert forall|a: int, b: int| 0 <= a < v@.len() && 0 <= b < v@.len() && a != b implies key_view(#[trigger] v@[a]) != key_view(#[trigger] v@[b]) by {
                    assert(key_view(v@[a]) == key_view(old_v[a]));
                    assert(key_view(v@[b]) == key_view(old_v[b]));
                }
                lemma_store_map(v@);
                assert(store_map(v@) =~= store_map(old_v).insert(kv, (Seq::<char>::empty(), entry.1.value@))) by {
                    assert forall|k: KeyView| store_map(v@).contains_key(k) <==> store_map(old_v).insert(kv, (Seq::<char>::empty(), entry.1.value@)).contains_key(k) by {
                        if store_map(old_v).insert(kv, (Seq::<char>::empty(), entry.1.value@)).contains_key(k) {
                            if k == kv {
                                assert(key_view(v@[i as int]) == k);
                            } else {
                                assert(store_map(old_v).contains_key(k));
                                let j = choose|j: int| 0 <= j < old_v.len() && key_view(#[trigger] old_v[j]) == k;
                                assert(key_view(v@[j]) == k);
                            }
                        }
                        if store_map(v@).contains_key(k) {
                            let j = choose|j: int| 0 <= j < v@.len() && key_view(#[trigger] v@[j]) == k;
                            assert(key_view(old_v[j]) == k);
                            assert(store_map(old_v).contains_key(k));
                        }
                    }
                    assert forall|k: KeyView| store_map(v@).contains_key(k) implies store_map(v@)[k] == store_map(old_v).insert(kv, (Seq::<char>::empty(), entry.1.value@))[k] by {
                        let j = choose|j: int| 0 <= j < v@.len() && key_view(#[trigger] v@[j]) == k;
                        assert(store_map(v@)[key_view(v@[j])] == value_view(v@[j]));
                        if j != i {
                            assert(old_v[j] == v@[j]);
                            assert(store_map(old_v)[key_view(old_v[j])] == value_view(old_v[j]));
                        }
                    }
                }
            }
            return;
        }
        i = i + 1;
    }
    let ghost old_v = v@;
    v.push(entry);
    proof {
        assert(v@.drop_last() =~= old_v);
        assert forall|a: int, b: int| 0 <= a < v@.len() && 0 <= b < v@.len() && a != b implies key_view(#[trigger] v@[a]) != key_view(#[trigger] v@[b]) by {
            if a < old_v.len() {
                assert(v@[a] == old_v[a]);
            }
            if b < old_v.len() {
                assert(v@[b] == old_v[b]);
            }
        }
    }
}

} // verus!
