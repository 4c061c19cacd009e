//! The assignments a Go file makes: package-level constants and variables,
//! the entries of map literals, and the local assignments of functions, each
//! evaluated in the scope known at its place.
use vstd::prelude::*;

use crate::bindings::Bindings;
use crate::go::assignment_store::{copy_scope, scope_bindings, scope_map, store_assignment, store_map, store_wf, KeyView};
use crate::go::ir::{assignment_pairs, assignment_pairs_exec, node_pairs};
use crate::go::syntax::{eval_node, evaluate_expression_node, lemma_child_size, node_size, GoNode};
use crate::model::{scope_view, Assignment, AssignmentKey, Scope};
use crate::text::{chars_eq, chars_of, split_once, split_once_exec, starts_with, starts_with_exec, string_of, text_of, trim_start, trim_start_exec};

verus! {

pub type StoreView = Map<KeyView, (Seq<char>, Seq<char>)>;

/// `st` with `name` assigned `value` (with no type) in scope `sv`.
pub open spec fn assign(st: StoreView, sv: (int, Seq<char>), name: Seq<char>, value: Seq<char>) -> StoreView {
    st.insert((sv, name), (Seq::empty(), value))
}

pub open spec fn global_scope() -> (int, Seq<char>) {
    (0, Seq::empty())
}

fn is_kind(n: &GoNode, k: &str) -> (r: bool)
    ensures
        r == (n.kind@ == k@),
{
    chars_eq(&text_of(&n.kind), &chars_of(k))
}

proof fn lemma_push_contains(t: Seq<Seq<char>>, x: Seq<char>, k: Seq<char>)
    ensures
        t.push(x).contains(k) <==> (t.contains(k) || x == k),
{
    if t.contains(k) {
        let j = choose|j: int| 0 <= j < t.len() && t[j] == k;
        assert(t.push(x)[j] == k);
    }
    if x == k {
        assert(t.push(x)[t.len() as int] == k);
    }
    if t.push(x).contains(k) {
        let j = choose|j: int| 0 <= j < t.push(x).len() && t.push(x)[j] == k;
        if j < t.len() {
            assert(t[j] == k);
        }
    }
}

/// `m` with the bindings of `other` over it.
pub fn extend_bindings(m: &mut Bindings, other: &Bindings)
    ensures
        final(m)@ == old(m)@.union_prefer_right(other@),
{
    let n = other.len();
    let ghost keys = other.keys();
    let ghost start = m@;
    let mut i: usize = 0;
    while i < n
        invariant
            i <= n,
            n == keys.len(),
            keys == other.keys(),
            forall|k: Seq<char>| other@.contains_key(k) <==> keys.contains(k),
            forall|k: Seq<char>| #[trigger] m@.contains_key(k) <==> (start.contains_key(k) || keys.take(i as int).contains(k)),
            forall|k: Seq<char>| #[trigger] keys.take(i as int).contains(k) ==> m@[k] == other@[k],
            forall|k: Seq<char>| !keys.take(i as int).contains(k) && #[trigger] start.contains_key(k) ==> m@[k] == start[k],
        decreases n - i,
    {
        let k = other.key_at(i);
        let v = other.value_at(i);
        let ghost before = m@;
        let ghost t = keys.take(i as int);
        m.insert(k, v);
        proof {
            assert(keys.take(i + 1) =~= t.push(keys[i as int]));
            assert forall|q: Seq<char>| #[trigger] keys.take(i + 1).contains(q) <==> (t.contains(q) || keys[i as int] == q) by {
                lemma_push_contains(t, keys[i as int], q);
            }
        }
        i = i + 1;
    }
    proof {
        assert(keys.take(n as int) =~= keys);
        assert(m@ =~= start.union_prefer_right(other@));
    }
}

/// The entries of a map literal's `keyed_element`s among the first `k`
/// elements of one literal part, assigned as `name[key]` in scope `sv`.
pub open spec fn entries_fold(name: Seq<char>, c: GoNode, sv: (int, Seq<char>), m: Map<Seq<char>, Seq<char>>, st: StoreView, k: int) -> StoreView
    decreases k,
{
    if k <= 0 || k > c.named@.len() {
        st
    } else {
        let prev = entries_fold(name, c, sv, m, st, k - 1);
        let e = c.named@[k - 1];
        if e.kind@ == "keyed_element"@ && e.named@.len() >= 2 {
            let key = eval_node(e.named@[0], m);
            let value = eval_node(e.named@[1], m);
            assign(prev, sv, name + seq!['['] + key + seq![']'], value)
        } else {
            prev
        }
    }
}

/// The entries of a map literal assigned to `name`, from the first `k`
/// parts of the literal.
pub open spec fn map_entries(name: Seq<char>, v: GoNode, sv: (int, Seq<char>), m: Map<Seq<char>, Seq<char>>, st: StoreView, k: int) -> StoreView
    decreases k,
{
    if k <= 0 || k > v.named@.len() {
        st
    } else {
        let c = v.named@[k - 1];
        entries_fold(name, c, sv, m, map_entries(name, v, sv, m, st, k - 1), c.named@.len() as int)
    }
}

/// Assigns the entries of a map literal to `name[key]`.
pub fn collect_map_literal_entries(
    name: &String,
    v: &GoNode,
    s: &Scope,
    m: &Bindings,
    st: &mut Vec<(AssignmentKey, Assignment)>,
)
    requires
        store_wf(old(st)@),
    ensures
        store_wf(final(st)@),
        store_map(final(st)@) == map_entries(name@, *v, scope_view(*s), m@, store_map(old(st)@), v.named@.len() as int),
{
    let ghost st0 = store_map(st@);
    let mut k: usize = 0;
    while k < v.named.len()
        invariant
            k <= v.named@.len(),
            store_wf(st@),
            store_map(st@) == map_entries(name@, *v, scope_view(*s), m@, st0, k as int),
        decreases v.named.len() - k,
    {
        let c = &v.named[k];
        let ghost before = store_map(st@);
        let mut j: usize = 0;
        while j < c.named.len()
            invariant
                j <= c.named@.len(),
                store_wf(st@),
                store_map(st@) == entries_fold(name@, *c, scope_view(*s), m@, before, j as int),
            decreases c.named.len() - j,
        {
            let e = &c.named[j];
            if is_kind(e, "keyed_element") && e.named.len() >= 2 {
                let key = evaluate_expression_node(&e.named[0], m);
                let value = evaluate_expression_node(&e.named[1], m);
                let mut entry = text_of(name);
                entry.push('[');
                crate::text::append_chars(&mut entry, &key);
                entry.push(']');
                assert(entry@ =~= name@ + seq!['['] + key@ + seq![']']);
                store_assignment(st, copy_scope(s), string_of(&entry), string_of(&value));
            }
            j = j + 1;
        }
        k = k + 1;
    }
}

pub open spec fn is_spec_value(k: Seq<char>) -> bool {
    ||| k == "interpreted_string_literal"@
    ||| k == "raw_string_literal"@
    ||| k == "binary_expression"@
    ||| k == "call_expression"@
    ||| k == "composite_literal"@
    ||| k == "selector_expression"@
    ||| k == "unary_expression"@
    ||| k == "parenthesized_expression"@
}

/// The names and the value nodes among the first `k` children of a
/// `const_spec` or `var_spec`.
pub open spec fn spec_parts(n: GoNode, k: int) -> (Seq<GoNode>, Seq<GoNode>)
    decreases k,
{
    if k <= 0 || k > n.named@.len() {
        (Seq::empty(), Seq::empty())
    } else {
        let (ids, vals) = spec_parts(n, k - 1);
        let c = n.named@[k - 1];
        if c.kind@ == "identifier"@ {
            (ids.push(c), vals)
        } else if c.kind@ == "expression_list"@ {
            (ids, vals + c.named@)
        } else if is_spec_value(c.kind@) {
            (ids, vals.push(c))
        } else {
            (ids, vals)
        }
    }
}

/// The store and scope values after the first `k` names of a spec are
/// assigned: each its value in the scope values so far (empty where it has
/// none), and a `map[...]` value's entries besides.
pub open spec fn spec_step(
    ids: Seq<GoNode>,
    vals: Seq<GoNode>,
    sv: (int, Seq<char>),
    st: StoreView,
    m: Map<Seq<char>, Seq<char>>,
    k: int,
) -> (StoreView, Map<Seq<char>, Seq<char>>)
    decreases k,
{
    if k <= 0 || k > ids.len() {
        (st, m)
    } else {
        let (st1, m1) = spec_step(ids, vals, sv, st, m, k - 1);
        let name = ids[k - 1].text@;
        let value = if k - 1 < vals.len() {
            eval_node(vals[k - 1], m1)
        } else {
            Seq::empty()
        };
        let st2 = assign(st1, sv, name, value);
        let m2 = m1.insert(name, value);
        if k - 1 < vals.len() && starts_with(trim_start(vals[k - 1].text@), "map["@) {
            (map_entries(name, vals[k - 1], sv, m2, st2, vals[k - 1].named@.len() as int), m2)
        } else {
            (st2, m2)
        }
    }
}

/// The store after a `const_spec` or `var_spec` in scope `sv`: its names are
/// evaluated with the scope's values and, over them, the global ones.
pub open spec fn spec_assignments(n: GoNode, sv: (int, Seq<char>), st: StoreView) -> StoreView {
    let (ids, vals) = spec_parts(n, n.named@.len() as int);
    let m0 = scope_map(st, sv).union_prefer_right(scope_map(st, global_scope()));
    spec_step(ids, vals, sv, st, m0, ids.len() as int).0
}

fn spec_parts_exec<'a>(n: &'a GoNode) -> (r: (Vec<&'a GoNode>, Vec<&'a GoNode>))
    ensures
        (crate::go::endpoints::derefs(r.0@), crate::go::endpoints::derefs(r.1@)) == spec_parts(*n, n.named@.len() as int),
{
    let mut ids: Vec<&'a GoNode> = Vec::new();
    let mut vals: Vec<&'a GoNode> = Vec::new();
    let mut k: usize = 0;
    while k < n.named.len()
        invariant
            k <= n.named@.len(),
            (crate::go::endpoints::derefs(ids@), crate::go::endpoints::derefs(vals@)) == spec_parts(*n, k as int),
        decreases n.named.len() - k,
    {
        let c = &n.named[k];
        let ghost i0 = crate::go::endpoints::derefs(ids@);
        let ghost v0 = crate::go::endpoints::derefs(vals@);
        if is_kind(c, "identifier") {
            ids.push(c);
            assert(crate::go::endpoints::derefs(ids@) =~= i0.push(*c));
        } else if is_kind(c, "expression_list") {
            let mut j: usize = 0;
            while j < c.named.len()
                invariant
                    j <= c.named@.len(),
                    crate::go::endpoints::derefs(vals@) == v0 + c.named@.take(j as int),
                    crate::go::endpoints::derefs(ids@) == i0,
                decreases c.named.len() - j,
            {
                let ghost vb = crate::go::endpoints::derefs(vals@);
                vals.push(&c.named[j]);
                assert(crate::go::endpoints::derefs(vals@) =~= vb.push(c.named@[j as int]));
                assert(c.named@.take(j + 1) =~= c.named@.take(j as int).push(c.named@[j as int]));
                j = j + 1;
            }
            assert(c.named@.take(c.named@.len() as int) =~= c.named@);
        } else if is_kind(c, "interpreted_string_literal") || is_kind(c, "raw_string_literal") || is_kind(c, "binary_expression")
            || is_kind(c, "call_expression") || is_kind(c, "composite_literal") || is_kind(c, "selector_expression")
            || is_kind(c, "unary_expression") || is_kind(c, "parenthesized_expression") {
            vals.push(c);
            assert(crate::go::endpoints::derefs(vals@) =~= v0.push(*c));
        }
        k = k + 1;
    }
    (ids, vals)
}

/// Assigns the names of a `const_spec` or `var_spec` in a scope.
pub fn collect_spec_assignments(n: &GoNode, s: &Scope, st: &mut Vec<(AssignmentKey, Assignment)>)
    requires
        store_wf(old(st)@),
    ensures
        store_wf(final(st)@),
        store_map(final(st)@) == spec_assignments(*n, scope_view(*s), store_map(old(st)@)),
{
    let (ids, vals) = spec_parts_exec(n);
    let ghost iv = crate::go::endpoints::derefs(ids@);
    let ghost vv = crate::go::endpoints::derefs(vals@);
    let ghost sv = scope_view(*s);
    let mut m = scope_bindings(st, s);
    let globals = scope_bindings(st, &Scope::Global);
    extend_bindings(&mut m, &globals);
    let ghost st0 = store_map(st@);
    let ghost m0 = m@;
    assert(m0 == scope_map(st0, sv).union_prefer_right(scope_map(st0, global_scope())));
    let mut i: usize = 0;
    while i < ids.len()
        invariant
            i <= ids@.len(),
            iv == crate::go::endpoints::derefs(ids@),
            vv == crate::go::endpoints::derefs(vals@),
            sv == scope_view(*s),
            store_wf(st@),
            (store_map(st@), m@) == spec_step(iv, vv, sv, st0, m0, i as int),
        decreases ids.len() - i,
    {
        let name = ids[i].text.clone();
        let value: Vec<char> = if i < vals.len() {
            evaluate_expression_node(vals[i], &m)
        } else {
            Vec::new()
        };
        assert(iv[i as int].text@ == name@);
        store_assignment(st, copy_scope(s), name.clone(), string_of(&value));
        m.insert(name.clone(), string_of(&value));
        if i < vals.len() && starts_with_exec(&trim_start_exec(&text_of(&vals[i].text)), &chars_of("map[")) {
            collect_map_literal_entries(&name, vals[i], s, &m, st);
        }
        i = i + 1;
    }
}

/// The store after the `const_spec`s and `var_spec`s among the first `k`
/// children of a declaration are assigned in scope `sv`.
pub open spec fn declaration_assignments(n: GoNode, sv: (int, Seq<char>), st: StoreView, k: int) -> StoreView
    decreases k,
{
    if k <= 0 || k > n.named@.len() {
        st
    } else {
        let prev = declaration_assignments(n, sv, st, k - 1);
        let c = n.named@[k - 1];
        if c.kind@ == "const_spec"@ || c.kind@ == "var_spec"@ {
            spec_assignments(c, sv, prev)
        } else {
            prev
        }
    }
}

/// Assigns the specs of a `const` or `var` declaration in a scope.
pub fn collect_declaration_assignments(n: &GoNode, s: &Scope, st: &mut Vec<(AssignmentKey, Assignment)>)
    requires
        store_wf(old(st)@),
    ensures
        store_wf(final(st)@),
        store_map(final(st)@) == declaration_assignments(*n, scope_view(*s), store_map(old(st)@), n.named@.len() as int),
{
    let ghost st0 = store_map(st@);
    let mut k: usize = 0;
    while k < n.named.len()
        invariant
            k <= n.named@.len(),
            store_wf(st@),
            store_map(st@) == declaration_assignments(*n, scope_view(*s), st0, k as int),
        decreases n.named.len() - k,
    {
        let c = &n.named[k];
        if is_kind(c, "const_spec") || is_kind(c, "var_spec") {
            collect_spec_assignments(c, s, st);
        }
        k = k + 1;
    }
}

/// The store after the package-level declarations among the first `k`
/// children of the root are assigned in the global scope.
pub open spec fn global_assignments(root: GoNode, st: StoreView, k: int) -> StoreView
    decreases k,
{
    if k <= 0 || k > root.named@.len() {
        st
    } else {
        let prev = global_assignments(root, st, k - 1);
        let c = root.named@[k - 1];
        if c.kind@ == "const_declaration"@ || c.kind@ == "var_declaration"@ {
            declaration_assignments(c, global_scope(), prev, c.named@.len() as int)
        } else {
            prev
        }
    }
}

/// Assigns the package-level constants and variables.
pub fn collect_global_assignments(root: &GoNode, st: &mut Vec<(AssignmentKey, Assignment)>)
    requires
        store_wf(old(st)@),
    ensures
        store_wf(final(st)@),
        store_map(final(st)@) == global_assignments(*root, store_map(old(st)@), root.named@.len() as int),
{
    let ghost st0 = store_map(st@);
    let mut k: usize = 0;
    while k < root.named.len()
        invariant
            k <= root.named@.len(),
            store_wf(st@),
            store_map(st@) == global_assignments(*root, st0, k as int),
        decreases root.named.len() - k,
    {
        let c = &root.named[k];
        if is_kind(c, "const_declaration") || is_kind(c, "var_declaration") {
            collect_declaration_assignments(c, &Scope::Global, st);
        }
        k = k + 1;
    }
}

/// The store and scope values after the first `j` pairs of a local
/// assignment: each is assigned in the function's scope, and also globally
/// when it sets a selector of a global.
pub open spec fn pairs_step(
    pairs: Seq<(Seq<char>, GoNode)>,
    fs: (int, Seq<char>),
    st: StoreView,
    m: Map<Seq<char>, Seq<char>>,
    j: int,
) -> (StoreView, Map<Seq<char>, Seq<char>>)
    decreases j,
{
    if j <= 0 || j > pairs.len() {
        (st, m)
    } else {
        let (st1, m1) = pairs_step(pairs, fs, st, m, j - 1);
        let name = pairs[j - 1].0;
        let value = eval_node(pairs[j - 1].1, m1);
        let st2 = assign(st1, fs, name, value);
        let m2 = m1.insert(name, value);
        match split_once(name, '.') {
            Some((root, _)) => if scope_map(st2, global_scope()).contains_key(root) {
                (assign(st2, global_scope(), name, value), m2)
            } else {
                (st2, m2)
            },
            None => (st2, m2),
        }
    }
}

/// The store and scope values after the first `k` nodes of a function
/// body, in pre-order, are read.
pub open spec fn local_step(
    nodes: Seq<GoNode>,
    fs: (int, Seq<char>),
    st: StoreView,
    m: Map<Seq<char>, Seq<char>>,
    k: int,
) -> (StoreView, Map<Seq<char>, Seq<char>>)
    decreases k,
{
    if k <= 0 || k > nodes.len() {
        (st, m)
    } else {
        let (st1, m1) = local_step(nodes, fs, st, m, k - 1);
        let n = nodes[k - 1];
        if n.kind@ == "short_var_declaration"@ || n.kind@ == "assignment_statement"@ {
            let pairs = assignment_pairs(n);
            pairs_step(pairs, fs, st1, m1, pairs.len() as int)
        } else if n.kind@ == "const_declaration"@ || n.kind@ == "var_declaration"@ {
            let st2 = declaration_assignments(n, fs, st1, n.named@.len() as int);
            (st2, m1.union_prefer_right(scope_map(st2, fs)))
        } else {
            (st1, m1)
        }
    }
}

/// The store after the local assignments of a function body: its nodes in
/// pre-order, starting from the global values.
pub open spec fn local_assignments(body: GoNode, signature: Seq<char>, st: StoreView) -> StoreView {
    let nodes = crate::go::endpoints::preorder(body);
    local_step(nodes, (1, signature), st, scope_map(st, global_scope()), nodes.len() as int).0
}

/// Assigns the local variables of a function body in the function's scope.
pub fn collect_local_assignments(body: &GoNode, signature: &String, st: &mut Vec<(AssignmentKey, Assignment)>)
    requires
        store_wf(old(st)@),
    ensures
        store_wf(final(st)@),
        store_map(final(st)@) == local_assignments(*body, signature@, store_map(old(st)@)),
{
    let scope = Scope::Function(signature.clone());
    let ghost fs = scope_view(scope);
    assert(fs == (1int, signature@));
    let mut m = scope_bindings(st, &Scope::Global);
    let ghost st0 = store_map(st@);
    let ghost m0 = m@;
    let mut nodes: Vec<&GoNode> = Vec::new();
    crate::go::endpoints::collect_preorder(body, &mut nodes);
    let ghost pre = crate::go::endpoints::preorder(*body);
    assert(crate::go::endpoints::derefs(nodes@) =~= pre);
    let mut k: usize = 0;
    while k < nodes.len()
        invariant
            k <= nodes@.len(),
            pre == crate::go::endpoints::derefs(nodes@),
            fs == scope_view(scope),
            store_wf(st@),
            (store_map(st@), m@) == local_step(pre, fs, st0, m0, k as int),
        decreases nodes.len() - k,
    {
        let n = nodes[k];
        assert(pre[k as int] == *n);
        if is_kind(n, "short_var_declaration") || is_kind(n, "assignment_statement") {
            let pairs = assignment_pairs_exec(n);
            let ghost pv = node_pairs(pairs@);
            let ghost st1 = store_map(st@);
            let ghost m1 = m@;
            let mut j: usize = 0;
            while j < pairs.len()
                invariant
                    j <= pairs@.len(),
                    pv == node_pairs(pairs@),
                    fs == scope_view(scope),
                    store_wf(st@),
                    (store_map(st@), m@) == pairs_step(pv, fs, st1, m1, j as int),
                decreases pairs.len() - j,
            {
                let name = pairs[j].0.clone();
                let value = evaluate_expression_node(pairs[j].1, &m);
                assert(pv[j as int].0 == name@);
                store_assignment(st, copy_scope(&scope), name.clone(), string_of(&value));
                m.insert(name.clone(), string_of(&value));
                match split_once_exec(&text_of(&name), '.') {
                    Some((root, _)) => {
                        let globals = scope_bindings(st, &Scope::Global);
                        if globals.contains_key(&root) {
                            store_assignment(st, Scope::Global, name, string_of(&value));
                        }
                    },
                    None => {},
                }
                j = j + 1;
            }
            assert(pairs_step(pv, fs, st1, m1, pv.len() as int) == local_step(pre, fs, st0, m0, k + 1));
        } else if is_kind(n, "const_declaration") || is_kind(n, "var_declaration") {
            collect_declaration_assignments(n, &scope, st);
            let local = scope_bindings(st, &scope);
            extend_bindings(&mut m, &local);
        }
        k = k + 1;
    }
}

} // verus!
