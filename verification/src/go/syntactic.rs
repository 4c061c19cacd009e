//! The syntactic record of a Go file read from its syntax tree: imports,
//! package-level and local assignments, lowered functions and methods with
//! the calls they make, and the endpoints its routes register.
use vstd::prelude::*;

use crate::go::assignment_store::{store_map, store_wf};
use crate::go::endpoints::{preorder, synthetic_records, table_view, tree_routes};
use crate::go::ir::{build_callable, built_callable, callable_signature, calls_match, collect_call_statements};
use crate::go::ir_assignments::{collect_global_assignments, collect_local_assignments, global_assignments, local_assignments, StoreView};
use crate::go::shared::{simple_callable_name, simple_callable_name_exec};
use crate::go::syntax::{child_by_field, child_by_field_name, GoNode};
use crate::model::{parsed_view, endpoints_view, FileRecord, Language, callable_view, copy_callable, Callable, CallableView, CallStatement, Import, ParsedCallable};
use crate::text::{after_last, after_last_exec, chars_eq, chars_of, string_of, strip_quotes, strip_quotes_exec, text_of};

verus! {

fn is_kind(n: &GoNode, k: &str) -> (r: bool)
    ensures
        r == (n.kind@ == k@),
{
    chars_eq(&text_of(&n.kind), &chars_of(k))
}

/// The first named child from `i` on that is an interpreted string literal.
pub open spec fn first_string_child(cs: Seq<GoNode>, i: int) -> Option<int>
    decreases cs.len() - i,
{
    if i < 0 || i >= cs.len() {
        None
    } else if cs[i].kind@ == "interpreted_string_literal"@ {
        Some(i)
    } else {
        first_string_child(cs, i + 1)
    }
}

proof fn lemma_first_string_child(cs: Seq<GoNode>, i: int)
    requires
        0 <= i,
    ensures
        first_string_child(cs, i) matches Some(j) ==> i <= j < cs.len(),
    decreases cs.len() - i,
{
    if i < cs.len() && cs[i].kind@ != "interpreted_string_literal"@ {
        lemma_first_string_child(cs, i + 1);
    }
}

fn first_string_child_exec(n: &GoNode) -> (r: Option<usize>)
    ensures
        r matches Some(j) ==> first_string_child(n.named@, 0) == Some(j as int),
        r is None ==> first_string_child(n.named@, 0) is None,
{
    let mut j: usize = 0;
    while j < n.named.len()
        invariant
            j <= n.named@.len(),
            first_string_child(n.named@, 0) == first_string_child(n.named@, j as int),
        decreases n.named.len() - j,
    {
        if is_kind(&n.named[j], "interpreted_string_literal") {
            return Some(j);
        }
        j = j + 1;
    }
    None
}

/// The `(path, alias)` an import spec gives: the path unquoted, and the
/// spec's name unless it is `_` or `.`, else the last segment of the path.
pub open spec fn import_of(n: GoNode) -> Option<(Seq<char>, Seq<char>)> {
    let path_node = match child_by_field(n, "path"@) {
        Some(j) => Some(j),
        None => first_string_child(n.named@, 0),
    };
    match path_node {
        None => None,
        Some(j) => {
            let path = strip_quotes(n.named@[j].text@);
            let alias = match child_by_field(n, "name"@) {
                Some(a) => if n.named@[a].text@ == "_"@ || n.named@[a].text@ == "."@ {
                    after_last(path, '/')
                } else {
                    n.named@[a].text@
                },
                None => after_last(path, '/'),
            };
            Some((path, alias))
        },
    }
}

/// The imports of the first `k` nodes, in pre-order.
pub open spec fn imports_upto(nodes: Seq<GoNode>, k: int) -> Seq<(Seq<char>, Seq<char>)>
    decreases k,
{
    if k <= 0 || k > nodes.len() {
        Seq::empty()
    } else if nodes[k - 1].kind@ == "import_spec"@ && import_of(nodes[k - 1]) is Some {
        imports_upto(nodes, k - 1).push(import_of(nodes[k - 1])->0)
    } else {
        imports_upto(nodes, k - 1)
    }
}

/// An import with a path and an alias (both as the alias and the codeword).
pub open spec fn go_import_view(i: Import) -> (Seq<char>, Seq<char>) {
    (i.orig_module@, i.module_alias@)
}

pub open spec fn is_go_import(i: Import) -> bool {
    i.orig_name@.len() == 0 && i.name_alias@.len() == 0 && i.codeword@ == i.module_alias@
}

/// The imports of a file, in pre-order.
pub fn collect_imports(root: &GoNode) -> (r: Vec<Import>)
    ensures
        r@.map_values(|i: Import| go_import_view(i)) == imports_upto(preorder(*root), preorder(*root).len() as int),
        forall|i: int| 0 <= i < r@.len() ==> is_go_import(#[trigger] r@[i]),
{
    let mut nodes: Vec<&GoNode> = Vec::new();
    crate::go::endpoints::collect_preorder(root, &mut nodes);
    let ghost pre = preorder(*root);
    assert(crate::go::endpoints::derefs(nodes@) =~= pre);
    let mut out: Vec<Import> = Vec::new();
    let mut k: usize = 0;
    while k < nodes.len()
        invariant
            k <= nodes@.len(),
            pre == crate::go::endpoints::derefs(nodes@),
            out@.map_values(|i: Import| go_import_view(i)) == imports_upto(pre, k as int),
            forall|i: int| 0 <= i < out@.len() ==> is_go_import(#[trigger] out@[i]),
        decreases nodes.len() - k,
    {
        let n = nodes[k];
        assert(pre[k as int] == *n);
        if is_kind(n, "import_spec") {
            let path_node = match child_by_field_name(n, "path") {
                Some(j) => Some(j),
                None => first_string_child_exec(n),
            };
            proof {
                lemma_first_string_child(n.named@, 0);
            }
            assert(path_node matches Some(j) ==> j < n.named@.len());
            if let Some(j) = path_node {
                let path = strip_quotes_exec(&text_of(&n.named[j].text));
                let fallback = after_last_exec(&path, '/');
                let alias = match child_by_field_name(n, "name") {
                    Some(a) => {
                        let t = text_of(&n.named[a].text);
                        if chars_eq(&t, &chars_of("_")) || chars_eq(&t, &chars_of(".")) {
                            fallback
                        } else {
                            t
                        }
                    },
                    None => fallback,
                };
                assert(import_of(*n) == Some((path@, alias@)));
                let ghost before = out@;
                out.push(Import {
                    orig_module: string_of(&path),
                    orig_name: String::new(),
                    module_alias: string_of(&alias),
                    name_alias: String::new(),
                    codeword: string_of(&alias),
                });
                assert(out@.map_values(|i: Import| go_import_view(i)) =~= before.map_values(|i: Import| go_import_view(i)).push(
                    (path@, alias@),
                ));
            }
        }
        k = k + 1;
    }
    out
}

pub open spec fn is_declaration(n: GoNode) -> bool {
    n.kind@ == "function_declaration"@ || n.kind@ == "method_declaration"@
}

/// The function and method declarations among the first `k` children.
pub open spec fn declarations(root: GoNode, k: int) -> Seq<GoNode>
    decreases k,
{
    if k <= 0 || k > root.named@.len() {
        Seq::empty()
    } else if is_declaration(root.named@[k - 1]) {
        declarations(root, k - 1).push(root.named@[k - 1])
    } else {
        declarations(root, k - 1)
    }
}

/// The names a callable is found by: its signature, its name and its
/// simple name.
pub open spec fn aliases_of(m: Callable) -> Seq<(Seq<char>, CallableView)> {
    let cv = callable_view(m);
    seq![(m.signature@, cv), (m.name@, cv)] + match simple_callable_name(m.signature@) {
        Some(x) => seq![(x, cv)],
        None => Seq::empty(),
    }
}

pub open spec fn aliases_upto(cs: Seq<ParsedCallable>, k: int) -> Seq<(Seq<char>, CallableView)>
    decreases k,
{
    if k <= 0 || k > cs.len() {
        Seq::empty()
    } else {
        aliases_upto(cs, k - 1) + aliases_of(cs[k - 1].metadata)
    }
}

/// The number of call statements a declaration's body makes.
pub open spec fn body_calls(d: GoNode) -> int {
    match child_by_field(d, "body"@) {
        Some(b) => crate::go::ir::call_nodes(preorder(d.named@[b]), preorder(d.named@[b]).len() as int).len() as int,
        None => 0,
    }
}

/// `r` is the call statements of the first `k` declarations, one block per
/// declaration in order.
pub open spec fn calls_split(r: Seq<CallStatement>, decls: Seq<GoNode>, cs: Seq<ParsedCallable>, k: int) -> bool
    decreases k,
{
    if k <= 0 {
        r.len() == 0
    } else {
        let n = body_calls(decls[k - 1]);
        &&& r.len() >= n
        &&& calls_split(r.take(r.len() - n), decls, cs, k - 1)
        &&& match child_by_field(decls[k - 1], "body"@) {
            Some(b) => calls_match(r.skip(r.len() - n), decls[k - 1].named@[b], cs[k - 1].metadata),
            None => true,
        }
    }
}

/// The store after the local assignments of the first `k` declarations.
pub open spec fn callable_store(decls: Seq<GoNode>, st: StoreView, k: int) -> StoreView
    decreases k,
{
    if k <= 0 || k > decls.len() {
        st
    } else {
        let prev = callable_store(decls, st, k - 1);
        match child_by_field(decls[k - 1], "body"@) {
            Some(b) => local_assignments(decls[k - 1].named@[b], callable_signature(decls[k - 1]), prev),
            None => prev,
        }
    }
}

/// The callables a file declares, the table they are found by, and the
/// calls they make; their local assignments are added to the store.
pub fn collect_callable_ir(
    root: &GoNode,
    file_path: &str,
    st: &mut Vec<(crate::model::AssignmentKey, crate::model::Assignment)>,
) -> (r: (Vec<ParsedCallable>, Vec<(String, Callable)>, Vec<CallStatement>))
    requires
        store_wf(old(st)@),
    ensures
        ({
            let decls = declarations(*root, root.named@.len() as int);
            &&& r.0@.len() == decls.len()
            &&& forall|i: int| 0 <= i < decls.len() ==> built_callable(decls[i], file_path@, #[trigger] r.0@[i])
            &&& table_view(r.1@) == aliases_upto(r.0@, decls.len() as int)
            &&& calls_split(r.2@, decls, r.0@, decls.len() as int)
            &&& store_wf(final(st)@)
            &&& store_map(final(st)@) == callable_store(decls, store_map(old(st)@), decls.len() as int)
        }),
{
    let ghost st0 = store_map(st@);
    let mut callables: Vec<ParsedCallable> = Vec::new();
    let mut lookup: Vec<(String, Callable)> = Vec::new();
    let mut calls: Vec<CallStatement> = Vec::new();
    let mut k: usize = 0;
    while k < root.named.len()
        invariant
            k <= root.named@.len(),
            callables@.len() == declarations(*root, k as int).len(),
            forall|i: int| 0 <= i < callables@.len() ==> built_callable(declarations(*root, k as int)[i], file_path@, #[trigger] callables@[i]),
            table_view(lookup@) == aliases_upto(callables@, callables@.len() as int),
            calls_split(calls@, declarations(*root, k as int), callables@, callables@.len() as int),
            store_wf(st@),
            store_map(st@) == callable_store(declarations(*root, k as int), st0, callables@.len() as int),
        decreases root.named.len() - k,
    {
        let d = &root.named[k];
        let ghost decls0 = declarations(*root, k as int);
        let ghost cs0 = callables@;
        if is_kind(d, "function_declaration") || is_kind(d, "method_declaration") {
            let c = build_callable(d, file_path);
            let ghost decls1 = declarations(*root, k + 1);
            assert(decls1 == decls0.push(*d));
            // aliases
            let ghost t0 = table_view(lookup@);
            lookup.push((c.metadata.signature.clone(), copy_callable(&c.metadata)));
            lookup.push((c.metadata.name.clone(), copy_callable(&c.metadata)));
            match simple_callable_name_exec(&text_of(&c.metadata.signature)) {
                Some(x) => {
                    lookup.push((string_of(&x), copy_callable(&c.metadata)));
                },
                None => {},
            }
            assert(table_view(lookup@) =~= t0 + aliases_of(c.metadata));
            // body
            let ghost c0 = calls@;
            match child_by_field_name(d, "body") {
                Some(b) => {
                    collect_local_assignments(&d.named[b], &c.metadata.signature, st);
                    let mut part = collect_call_statements(&d.named[b], &c.metadata);
                    calls.append(&mut part);
                },
                None => {},
            }
            callables.push(c);
            proof {
                let cs1 = callables@;
                assert(cs1.drop_last() =~= cs0);
                assert forall|i: int| 0 <= i < cs1.len() implies built_callable(decls1[i], file_path@, #[trigger] cs1[i]) by {
                    if i < cs0.len() {
                        assert(cs1[i] == cs0[i]);
                        assert(decls1[i] == decls0[i]);
                    }
                }
                assert(aliases_upto(cs1, cs0.len() as int) == aliases_upto(cs0, cs0.len() as int)) by {
                    lemma_aliases_prefix(cs0, cs1, cs0.len() as int);
                }
                let n = body_calls(*d);
                assert(calls@.take(calls@.len() - n) =~= c0);
                lemma_calls_split_prefix(c0, decls0, decls1, cs0, cs1, cs0.len() as int);
                assert(callable_store(decls1, st0, cs0.len() as int) == callable_store(decls0, st0, cs0.len() as int)) by {
                    lemma_callable_store_prefix(decls0, decls1, st0, cs0.len() as int);
                }
            }
        }
        k = k + 1;
    }
    (callables, lookup, calls)
}

proof fn lemma_aliases_prefix(a: Seq<ParsedCallable>, b: Seq<ParsedCallable>, k: int)
    requires
        0 <= k <= a.len() <= b.len(),
        forall|i: int| 0 <= i < a.len() ==> a[i] == b[i],
    ensures
        aliases_upto(a, k) == aliases_upto(b, k),
    decreases k,
{
    if k > 0 {
        lemma_aliases_prefix(a, b, k - 1);
    }
}

proof fn lemma_calls_split_prefix(
    r: Seq<CallStatement>,
    d0: Seq<GoNode>,
    d1: Seq<GoNode>,
    c0: Seq<ParsedCallable>,
    c1: Seq<ParsedCallable>,
    k: int,
)
    requires
        0 <= k <= d0.len() <= d1.len(),
        k <= c0.len() <= c1.len(),
        forall|i: int| 0 <= i < d0.len() ==> d0[i] == d1[i],
        forall|i: int| 0 <= i < c0.len() ==> c0[i] == c1[i],
        calls_split(r, d0, c0, k),
    ensures
        calls_split(r, d1, c1, k),
    decreases k,
{
    if k > 0 {
        let n = body_calls(d0[k - 1]);
        lemma_calls_split_prefix(r.take(r.len() - n), d0, d1, c0, c1, k - 1);
    }
}

proof fn lemma_callable_store_prefix(d0: Seq<GoNode>, d1: Seq<GoNode>, st: StoreView, k: int)
    requires
        0 <= k <= d0.len() <= d1.len(),
        forall|i: int| 0 <= i < d0.len() ==> d0[i] == d1[i],
    ensures
        callable_store(d1, st, k) == callable_store(d0, st, k),
    decreases k,
{
    if k > 0 {
        lemma_callable_store_prefix(d0, d1, st, k - 1);
    }
}

/// What the syntactic record of the Go file `file_path` with syntax tree
/// `root` holds.
pub open spec fn syntactic_record(root: GoNode, file_path: Seq<char>, r: FileRecord) -> bool {
    let decls = declarations(root, root.named@.len() as int);
    let own = r.callables@.take(decls.len() as int);
    let table = aliases_upto(own, decls.len() as int);
    &&& r.file_path@ == file_path
    &&& r.language == Language::Go
    &&& r.imports@.map_values(|i: Import| go_import_view(i)) == imports_upto(preorder(root), preorder(root).len() as int)
    &&& forall|i: int| 0 <= i < r.imports@.len() ==> is_go_import(#[trigger] r.imports@[i])
    &&& store_wf(r.assignments@)
    &&& store_map(r.assignments@) == callable_store(
        decls,
        global_assignments(root, Map::empty(), root.named@.len() as int),
        decls.len() as int,
    )
    &&& r.callables@.len() >= decls.len()
    &&& forall|i: int| 0 <= i < decls.len() ==> built_callable(decls[i], file_path, #[trigger] r.callables@[i])
    &&& parsed_view(r.callables@.skip(decls.len() as int)) == synthetic_records(
        file_path,
        tree_routes(root, r.assignments@, r.imports@),
        table,
    )
    &&& endpoints_view(r.endpoints@) == tree_routes(root, r.assignments@, r.imports@).map_values(
        |x: crate::go::endpoint_frameworks::RouteMatch| crate::go::endpoints::route_endpoint(file_path, x, table),
    )
    &&& forall|i: int| decls.len() <= i < r.callables@.len() ==> (#[trigger] r.callables@[i]).statements@.len() == 0
    &&& calls_split(r.call_statements@, decls, own, decls.len() as int)
    &&& r.entities@.len() == 0
    &&& r.raw_message_edges@.len() == 0
}

/// The syntactic record of a Go file from its syntax tree: its imports; its
/// package-level assignments and then each function's local ones; its
/// functions and methods lowered (followed by the handlers its routes need
/// that it does not declare); the calls they make; and the endpoints its
/// routes register.
pub fn extract_syntactic(root: &GoNode, file_path: &str) -> (r: FileRecord)
    ensures
        syntactic_record(*root, file_path@, r),
{
    let imports = collect_imports(root);
    let mut assignments: Vec<(crate::model::AssignmentKey, crate::model::Assignment)> = Vec::new();
    assert(store_map(assignments@) =~= Map::empty());
    collect_global_assignments(root, &mut assignments);
    let (mut callables, lookup, calls) = collect_callable_ir(root, file_path, &mut assignments);
    let ghost own = callables@;
    let mut synthetic: Vec<ParsedCallable> = Vec::new();
    let endpoints = crate::go::endpoints::collect_endpoints(root, file_path, &assignments, &imports, &lookup, &mut synthetic);
    let ghost syn = synthetic@;
    callables.append(&mut synthetic);
    proof {
        assert(callables@ =~= own + syn);
        assert(callables@.take(own.len() as int) =~= own);
        assert(callables@.skip(own.len() as int) =~= syn);
        assert forall|i: int| own.len() <= i < callables@.len() implies (#[trigger] callables@[i]).statements@.len() == 0 by {
            assert(callables@[i] == syn[i - own.len()]);
        }
        assert(parsed_view(syn) =~= parsed_view(Seq::<ParsedCallable>::empty()) + parsed_view(syn));
        let decls = declarations(*root, root.named@.len() as int);
        assert forall|i: int| 0 <= i < decls.len() implies built_callable(decls[i], file_path@, #[trigger] callables@[i]) by {
            assert(callables@[i] == own[i]);
        }
    }
    FileRecord {
        file_path: file_path.to_string(),
        language: Language::Go,
        imports,
        entities: Vec::new(),
        endpoints,
        callables,
        call_statements: calls,
        assignments,
        raw_message_edges: Vec::new(),
    }
}

} // verus!
