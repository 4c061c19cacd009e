//! Project-wide resolution of Go message edges: an edge declared inside a
//! wrapper is replaced by the concrete edges of the wrapper's call sites,
//! followed up through the callers of the calling functions.
use vstd::prelude::*;

use crate::bindings::Bindings;
use crate::go::edge_resolution::{
    pairs_map,
    all_based_on, edge_with, edges_fields, fields_of, go_position, go_position_exec, kind_of, lemma_same_base_trans,
    resolve_edge_fields, resolve_edge_fields_exec, same_base, EdgeFields, EdgeKind,
};
use crate::go::edge_values::{class_of, is_go, pairs_view, RESOLUTION_DEPTH};
use crate::go::shared::{package_path, package_path_exec};
use crate::go::values::service_root;
use crate::model::{copy_opt, opt_view, CallStatement, Language, MessageEdge, ParsedCallable, TypedFileRecord};
use crate::text::{
    after_last, after_last_exec, chars_eq, chars_of, ends_with, ends_with_exec, join, join_exec, replace_all,
    replace_all_exec, split_char, split_char_exec, string_of, text_of,
};

verus! {

/// The last two segments of a package path, joined by `/`.
pub open spec fn package_suffix(package: Seq<char>) -> Seq<char> {
    let parts = split_char(package, '/');
    join(parts.skip(if parts.len() >= 2 { parts.len() - 2 } else { 0 }), seq!['/'])
}

/// Some import of `caller` names a module ending in `suffix` (read with
/// `/` for `\`), among its first `k` imports.
pub open spec fn imports_end_with(caller: TypedFileRecord, suffix: Seq<char>, k: int) -> bool
    decreases k,
{
    if k <= 0 || k > caller.imports@.len() {
        false
    } else {
        imports_end_with(caller, suffix, k - 1) || ends_with(
            replace_all(caller.imports@[k - 1].orig_module@, seq!['\\'], seq!['/']),
            suffix,
        )
    }
}

proof fn lemma_imports_end_with(caller: TypedFileRecord, suffix: Seq<char>, k: int, n: int)
    requires
        0 <= k <= n <= caller.imports@.len(),
        imports_end_with(caller, suffix, k),
    ensures
        imports_end_with(caller, suffix, n),
    decreases n - k,
{
    if k < n {
        lemma_imports_end_with(caller, suffix, k, n - 1);
    }
}

/// A caller belongs to the package of the file at `target`, or imports it.
pub open spec fn package_matches(caller: TypedFileRecord, target: Seq<char>) -> bool {
    let package = package_path(target);
    package_path(caller.file_path@) == package || imports_end_with(
        caller,
        package_suffix(package),
        caller.imports@.len() as int,
    )
}

#[verifier::loop_isolation(false)]
pub fn package_matches_exec(caller: &TypedFileRecord, target: &String) -> (r: bool)
    ensures
        r == package_matches(*caller, target@),
{
    let package = package_path_exec(target.as_str());
    if chars_eq(&text_of(&package_path_exec(caller.file_path.as_str())), &text_of(&package)) {
        return true;
    }
    let parts = split_char_exec(&text_of(&package), '/');
    let n = parts.len();
    let from: usize = if n >= 2 { n - 2 } else { 0 };
    let tail = vstd::slice::slice_subrange(parts.as_slice(), from, n);
    assert(tail@.map_values(|p: Vec<char>| p@) =~= split_char(package@, '/').skip(from as int));
    let suffix = join_exec(tail, &crate::text::one('/'));
    assert(suffix@ == package_suffix(package@));
    let mut i: usize = 0;
    while i < caller.imports.len()
        invariant
            i <= caller.imports@.len(),
            !imports_end_with(*caller, suffix@, i as int),
        decreases caller.imports.len() - i,
    {
        let m = replace_all_exec(&text_of(&caller.imports[i].orig_module), &crate::text::one('\\'), &crate::text::one('/'));
        if ends_with_exec(&m, &suffix) {
            assert(imports_end_with(*caller, suffix@, i + 1));
            proof {
                lemma_imports_end_with(*caller, suffix@, i + 1, caller.imports@.len() as int);
            }
            return true;
        }
        i = i + 1;
    }
    false
}

/// A call names the callable (by its last selector segment) and passes one
/// argument per parameter.
pub open spec fn call_matches(call: CallStatement, c: ParsedCallable) -> bool {
    after_last(call.function_name@, '.') == c.metadata.name@ && call.arguments@.len()
        == c.metadata.parameters@.len()
}

fn call_matches_exec(call: &CallStatement, c: &ParsedCallable) -> (r: bool)
    ensures
        r == call_matches(*call, *c),
{
    chars_eq(&after_last_exec(&text_of(&call.function_name), '.'), &text_of(&c.metadata.name))
        && call.arguments.len() == c.metadata.parameters.len()
}

/// The calls of the callable among the first `k` calls of file `fi`, as
/// `(file, call)` positions.
pub open spec fn calls_in(files: Seq<TypedFileRecord>, fi: int, c: ParsedCallable, k: int) -> Seq<(int, int)>
    decreases k,
{
    if k <= 0 || k > files[fi].call_statements@.len() {
        Seq::empty()
    } else if call_matches(files[fi].call_statements@[k - 1], c) {
        calls_in(files, fi, c, k - 1).push((fi, k - 1))
    } else {
        calls_in(files, fi, c, k - 1)
    }
}

/// The calls of the callable in the first `k` Go files, restricted to the
/// files of (or importing) the package of `target` when one is given.
pub open spec fn calls_upto(files: Seq<TypedFileRecord>, c: ParsedCallable, target: Option<Seq<char>>, k: int) -> Seq<(int, int)>
    decreases k,
{
    if k <= 0 || k > files.len() {
        Seq::empty()
    } else if is_go(files[k - 1]) && match target {
        Some(t) => package_matches(files[k - 1], t),
        None => true,
    } {
        calls_upto(files, c, target, k - 1) + calls_in(files, k - 1, c, files[k - 1].call_statements@.len() as int)
    } else {
        calls_upto(files, c, target, k - 1)
    }
}

/// The number of callables named `name` among the first `k` callables of
/// `cs`.
pub open spec fn named_in(cs: Seq<ParsedCallable>, name: Seq<char>, k: int) -> nat
    decreases k,
{
    if k <= 0 || k > cs.len() {
        0
    } else {
        named_in(cs, name, k - 1) + if cs[k - 1].metadata.name@ == name {
            1nat
        } else {
            0nat
        }
    }
}

/// The number of callables named `name` in the first `k` Go files.
pub open spec fn named_count(files: Seq<TypedFileRecord>, name: Seq<char>, k: int) -> nat
    decreases k,
{
    if k <= 0 || k > files.len() {
        0
    } else {
        named_count(files, name, k - 1) + if is_go(files[k - 1]) {
            named_in(files[k - 1].callables@, name, files[k - 1].callables@.len() as int)
        } else {
            0nat
        }
    }
}

pub fn named_count_exec(files: &Vec<TypedFileRecord>, name: &[char]) -> (r: usize)
    ensures
        r == named_count(files@, name@, files@.len() as int) || (r == 2 && named_count(files@, name@, files@.len() as int) >= 2),
{
    let mut total: usize = 0;
    let mut fi: usize = 0;
    while fi < files.len()
        invariant
            fi <= files@.len(),
            total <= 2,
            total == named_count(files@, name@, fi as int) || (total == 2 && named_count(files@, name@, fi as int) >= 2),
        decreases files.len() - fi,
    {
        if files[fi].language == Language::Go {
            let cs = &files[fi].callables;
            let ghost base = named_count(files@, name@, fi as int);
            let mut j: usize = 0;
            while j < cs.len()
                invariant
                    j <= cs@.len(),
                    total <= 2,
                    total == base + named_in(cs@, name@, j as int) || (total == 2 && base + named_in(cs@, name@, j as int) >= 2),
                decreases cs.len() - j,
            {
                if chars_eq(&text_of(&cs[j].metadata.name), name) && total < 2 {
                    total = total + 1;
                }
                j = j + 1;
            }
        }
        fi = fi + 1;
    }
    total
}

/// More than one callable of the project bears the name of this method.
pub open spec fn has_ambiguous_method_name(c: ParsedCallable, files: Seq<TypedFileRecord>) -> bool {
    class_of(c) is Some && named_count(files, c.metadata.name@, files.len() as int) > 1
}

pub fn has_ambiguous_method_name_exec(c: &ParsedCallable, files: &Vec<TypedFileRecord>) -> (r: bool)
    ensures
        r == has_ambiguous_method_name(*c, files@),
{
    let is_class = match &c.metadata.namespace {
        crate::model::Namespace::Class(_) => true,
        crate::model::Namespace::Module(_) => false,
    };
    is_class && named_count_exec(files, &text_of(&c.metadata.name)) > 1
}

/// The calls of a callable from its own package or an importing Go
/// package; a method with no such call but a name unique in the project
/// takes the calls of that name from anywhere.
pub open spec fn matching_calls(files: Seq<TypedFileRecord>, c: ParsedCallable, target: Seq<char>) -> Seq<(int, int)> {
    let calls = calls_upto(files, c, Some(target), files.len() as int);
    if calls.len() > 0 || class_of(c) is None {
        calls
    } else if named_count(files, c.metadata.name@, files.len() as int) != 1 {
        Seq::empty()
    } else {
        calls_upto(files, c, None, files.len() as int)
    }
}

fn calls_upto_exec(files: &Vec<TypedFileRecord>, c: &ParsedCallable, target: &Option<String>) -> (r: Vec<(usize, usize)>)
    ensures
        r@.map_values(|p: (usize, usize)| (p.0 as int, p.1 as int)) == calls_upto(files@, *c, opt_view(*target), files@.len() as int),
        forall|i: int| 0 <= i < r@.len() ==> r@[i].0 < files@.len() && r@[i].1 < files@[r@[i].0 as int].call_statements@.len(),
{
    let ghost t = opt_view(*target);
    let mut out: Vec<(usize, usize)> = Vec::new();
    let mut fi: usize = 0;
    while fi < files.len()
        invariant
            fi <= files@.len(),
            t == opt_view(*target),
            out@.map_values(|p: (usize, usize)| (p.0 as int, p.1 as int)) == calls_upto(files@, *c, t, fi as int),
            forall|i: int| 0 <= i < out@.len() ==> out@[i].0 < files@.len() && out@[i].1 < files@[out@[i].0 as int].call_statements@.len(),
        decreases files.len() - fi,
    {
        let inside = files[fi].language == Language::Go && match target {
            Some(tp) => package_matches_exec(&files[fi], tp),
            None => true,
        };
        if inside {
            let calls = &files[fi].call_statements;
            let ghost s0 = out@.map_values(|p: (usize, usize)| (p.0 as int, p.1 as int));
            let mut ci: usize = 0;
            while ci < calls.len()
                invariant
                    fi < files@.len(),
                    ci <= calls@.len(),
                    *calls == files@[fi as int].call_statements,
                    out@.map_values(|p: (usize, usize)| (p.0 as int, p.1 as int)) == s0 + calls_in(files@, fi as int, *c, ci as int),
                    forall|i: int| 0 <= i < out@.len() ==> out@[i].0 < files@.len() && out@[i].1 < files@[out@[i].0 as int].call_statements@.len(),
                decreases calls.len() - ci,
            {
                if call_matches_exec(&calls[ci], c) {
                    let ghost before = out@.map_values(|p: (usize, usize)| (p.0 as int, p.1 as int));
                    out.push((fi, ci));
                    assert(out@.map_values(|p: (usize, usize)| (p.0 as int, p.1 as int)) =~= before.push((fi as int, ci as int)));
                }
                ci = ci + 1;
            }
        }
        fi = fi + 1;
    }
    out
}

/// Finds calls to a callable from its own package or an importing Go
/// package.
pub fn matching_calls_exec(files: &Vec<TypedFileRecord>, c: &ParsedCallable, target: &String) -> (r: Vec<(usize, usize)>)
    ensures
        r@.map_values(|p: (usize, usize)| (p.0 as int, p.1 as int)) == matching_calls(files@, *c, target@),
        forall|i: int| 0 <= i < r@.len() ==> r@[i].0 < files@.len() && r@[i].1 < files@[r@[i].0 as int].call_statements@.len(),
{
    let calls = calls_upto_exec(files, c, &Some(target.clone()));
    let is_class = match &c.metadata.namespace {
        crate::model::Namespace::Class(_) => true,
        crate::model::Namespace::Module(_) => false,
    };
    if calls.len() > 0 || !is_class {
        return calls;
    }
    if named_count_exec(files, &text_of(&c.metadata.name)) != 1 {
        let r: Vec<(usize, usize)> = Vec::new();
        assert(r@.map_values(|p: (usize, usize)| (p.0 as int, p.1 as int)) =~= Seq::<(int, int)>::empty());
        return r;
    }
    calls_upto_exec(files, c, &None)
}

/// The parameter bindings of a call: each parameter's name with the value
/// of the argument in its place.
pub open spec fn parameter_pairs(c: ParsedCallable, call: CallStatement) -> Seq<(Seq<char>, Seq<char>)> {
    let n = if c.metadata.parameters@.len() <= call.arguments@.len() {
        c.metadata.parameters@.len()
    } else {
        call.arguments@.len()
    };
    Seq::new(n, |i: int| (c.metadata.parameters@[i].name@, call.arguments@[i].value@))
}

fn parameter_bindings(c: &ParsedCallable, call: &CallStatement) -> (r: Bindings)
    ensures
        r@ == pairs_map(parameter_pairs(*c, *call)),
{
    let n = if c.metadata.parameters.len() <= call.arguments.len() {
        c.metadata.parameters.len()
    } else {
        call.arguments.len()
    };
    let mut p: Vec<(String, String)> = Vec::new();
    let mut i: usize = 0;
    while i < n
        invariant
            i <= n,
            n <= c.metadata.parameters@.len(),
            n <= call.arguments@.len(),
            n == parameter_pairs(*c, *call).len(),
            pairs_view(p@) == parameter_pairs(*c, *call).take(i as int),
        decreases n - i,
    {
        let a = c.metadata.parameters[i].name.clone();
        let b = call.arguments[i].value.clone();
        let ghost before = pairs_view(p@);
        p.push((a, b));
        assert(pairs_view(p@) =~= before.push((a@, b@)));
        assert(parameter_pairs(*c, *call).take(i + 1) =~= parameter_pairs(*c, *call).take(i as int).push((a@, b@)));
        i = i + 1;
    }
    assert(parameter_pairs(*c, *call).take(n as int) =~= parameter_pairs(*c, *call));
    crate::go::edge_resolution::pairs_map_exec(&p)
}

/// A callable is the one a call stands in: by hash, name or signature.
pub open spec fn is_parent(p: ParsedCallable, call: CallStatement) -> bool {
    opt_view(call.enclosing_function_hash) == Some(p.metadata.hash@) || opt_view(call.enclosing_function_name) == Some(
        p.metadata.name@,
    ) || opt_view(call.enclosing_function_name) == Some(p.metadata.signature@)
}

pub open spec fn parent_position(cs: Seq<ParsedCallable>, call: CallStatement, i: int) -> Option<int>
    decreases cs.len() - i,
{
    if i < 0 || i >= cs.len() {
        None
    } else if is_parent(cs[i], call) {
        Some(i)
    } else {
        parent_position(cs, call, i + 1)
    }
}

fn opt_is(o: &Option<String>, t: &String) -> (r: bool)
    ensures
        r == (opt_view(*o) == Some(t@)),
{
    match o {
        Some(x) => chars_eq(&text_of(x), &text_of(t)),
        None => false,
    }
}

fn parent_position_exec(cs: &Vec<ParsedCallable>, call: &CallStatement) -> (r: Option<usize>)
    ensures
        r matches Some(j) ==> parent_position(cs@, *call, 0) == Some(j as int) && j < cs@.len(),
        r is None ==> parent_position(cs@, *call, 0) is None,
{
    let mut i: usize = 0;
    while i < cs.len()
        invariant
            i <= cs@.len(),
            parent_position(cs@, *call, 0) == parent_position(cs@, *call, i as int),
        decreases cs.len() - i,
    {
        let m = &cs[i].metadata;
        if opt_is(&call.enclosing_function_hash, &m.hash) || opt_is(&call.enclosing_function_name, &m.name) || opt_is(
            &call.enclosing_function_name,
            &m.signature,
        ) {
            return Some(i);
        }
        i = i + 1;
    }
    None
}

/// The key under which a wrapper is marked visited.
pub open spec fn visit_key(path: Seq<char>, hash: Seq<char>) -> Seq<char> {
    path + seq![':'] + hash
}

/// The edges of one invocation of the callable that declares an edge, each
/// followed up through the callers of the function the call stands in while
/// `fuel` lasts and the function was not visited on the way; where the
/// callers give no edge, the invocation's own stand.
pub open spec fn resolve_invocation(
    f: EdgeFields,
    k: EdgeKind,
    c: ParsedCallable,
    inv: (int, int),
    files: Seq<TypedFileRecord>,
    known: Seq<(Seq<char>, Seq<char>)>,
    fuel: nat,
    visited: Seq<Seq<char>>,
) -> Option<Seq<EdgeFields>>
    decreases 2 * fuel + 1, 0int, 0int,
{
    let file = files[inv.0];
    let call = file.call_statements@[inv.1];
    match resolve_edge_fields(f, k, pairs_map(parameter_pairs(c, call)), file.file_path@, c, files, known) {
        None => None,
        Some(resolved) => if fuel == 0 {
            Some(resolved)
        } else {
            match parent_position(file.callables@, call, 0) {
                None => Some(resolved),
                Some(pi) => {
                    let parent = file.callables@[pi];
                    let key = visit_key(file.file_path@, parent.metadata.hash@);
                    if visited.contains(key) {
                        Some(resolved)
                    } else {
                        let pcs = matching_calls(files, parent, file.file_path@);
                        if pcs.len() == 0 {
                            Some(resolved)
                        } else {
                            match propagate(resolved, k, parent, pcs, files, known, (fuel - 1) as nat, visited.push(key)) {
                                None => None,
                                Some(p) => Some(
                                    if p.len() == 0 {
                                        resolved
                                    } else {
                                        p
                                    },
                                ),
                            }
                        }
                    }
                },
            }
        },
    }
}

/// Each of the edges `rs` resolved at each of the calls `pcs`, in order.
pub open spec fn propagate(
    rs: Seq<EdgeFields>,
    k: EdgeKind,
    parent: ParsedCallable,
    pcs: Seq<(int, int)>,
    files: Seq<TypedFileRecord>,
    known: Seq<(Seq<char>, Seq<char>)>,
    fuel: nat,
    visited: Seq<Seq<char>>,
) -> Option<Seq<EdgeFields>>
    decreases 2 * fuel + 2, rs.len(), 1int,
{
    if rs.len() == 0 {
        Some(Seq::empty())
    } else {
        match (
            propagate(rs.drop_last(), k, parent, pcs, files, known, fuel, visited),
            propagate_calls(rs.last(), k, parent, pcs, files, known, fuel, visited),
        ) {
            (Some(a), Some(b)) => Some(a + b),
            _ => None,
        }
    }
}

/// One edge resolved at each of the calls `pcs`, in order.
pub open spec fn propagate_calls(
    r: EdgeFields,
    k: EdgeKind,
    parent: ParsedCallable,
    pcs: Seq<(int, int)>,
    files: Seq<TypedFileRecord>,
    known: Seq<(Seq<char>, Seq<char>)>,
    fuel: nat,
    visited: Seq<Seq<char>>,
) -> Option<Seq<EdgeFields>>
    decreases 2 * fuel + 2, 0int, pcs.len(),
{
    if pcs.len() == 0 {
        Some(Seq::empty())
    } else {
        match (
            propagate_calls(r, k, parent, pcs.drop_last(), files, known, fuel, visited),
            resolve_invocation(r, k, parent, pcs.last(), files, known, fuel, visited),
        ) {
            (Some(a), Some(b)) => Some(a + b),
            _ => None,
        }
    }
}

pub open spec fn positions(v: Seq<(usize, usize)>) -> Seq<(int, int)> {
    v.map_values(|p: (usize, usize)| (p.0 as int, p.1 as int))
}

pub open spec fn valid_positions(files: Seq<TypedFileRecord>, v: Seq<(usize, usize)>) -> bool {
    forall|i: int| 0 <= i < v.len() ==> v[i].0 < files.len() && v[i].1 < files[v[i].0 as int].call_statements@.len()
}

proof fn lemma_propagate_calls_none(
    r: EdgeFields,
    k: EdgeKind,
    parent: ParsedCallable,
    pcs: Seq<(int, int)>,
    files: Seq<TypedFileRecord>,
    known: Seq<(Seq<char>, Seq<char>)>,
    fuel: nat,
    visited: Seq<Seq<char>>,
    j: int,
    m: int,
)
    requires
        0 <= j <= m <= pcs.len(),
        propagate_calls(r, k, parent, pcs.take(j), files, known, fuel, visited) is None,
    ensures
        propagate_calls(r, k, parent, pcs.take(m), files, known, fuel, visited) is None,
    decreases m - j,
{
    if j < m {
        lemma_propagate_calls_none(r, k, parent, pcs, files, known, fuel, visited, j, m - 1);
        assert(pcs.take(m).drop_last() =~= pcs.take(m - 1));
    }
}

proof fn lemma_propagate_none(
    rs: Seq<EdgeFields>,
    k: EdgeKind,
    parent: ParsedCallable,
    pcs: Seq<(int, int)>,
    files: Seq<TypedFileRecord>,
    known: Seq<(Seq<char>, Seq<char>)>,
    fuel: nat,
    visited: Seq<Seq<char>>,
    j: int,
    m: int,
)
    requires
        0 <= j <= m <= rs.len(),
        propagate(rs.take(j), k, parent, pcs, files, known, fuel, visited) is None,
    ensures
        propagate(rs.take(m), k, parent, pcs, files, known, fuel, visited) is None,
    decreases m - j,
{
    if j < m {
        lemma_propagate_none(rs, k, parent, pcs, files, known, fuel, visited, j, m - 1);
        assert(rs.take(m).drop_last() =~= rs.take(m - 1));
    }
}

/// Resolves one invocation and follows its enclosing wrapper when the
/// wrapper has callers.
pub fn resolve_invocation_exec(
    e: &MessageEdge,
    c: &ParsedCallable,
    fi: usize,
    ci: usize,
    files: &Vec<TypedFileRecord>,
    known: &Vec<(String, String)>,
    fuel: usize,
    visited: &Vec<Vec<char>>,
) -> (r: Option<Vec<MessageEdge>>)
    requires
        fi < files@.len(),
        ci < files@[fi as int].call_statements@.len(),
    ensures
        r matches Some(vs) ==> resolve_invocation(
            fields_of(*e),
            kind_of(*e),
            *c,
            (fi as int, ci as int),
            files@,
            pairs_view(known@),
            fuel as nat,
            crate::text::views(visited@),
        ) == Some(edges_fields(vs@)) && all_based_on(vs@, *e),
        r is None ==> resolve_invocation(
            fields_of(*e),
            kind_of(*e),
            *c,
            (fi as int, ci as int),
            files@,
            pairs_view(known@),
            fuel as nat,
            crate::text::views(visited@),
        ) is None,
    decreases 2 * fuel + 1,
{
    let file = &files[fi];
    let call = &file.call_statements[ci];
    let b = parameter_bindings(c, call);
    let resolved = match resolve_edge_fields_exec(e, &b, &file.file_path, c, files, known) {
        None => return None,
        Some(v) => v,
    };
    if fuel == 0 {
        return Some(resolved);
    }
    let pi = match parent_position_exec(&file.callables, call) {
        None => return Some(resolved),
        Some(pi) => pi,
    };
    let parent = &file.callables[pi];
    let mut key = text_of(&file.file_path);
    key.push(':');
    crate::text::append_chars(&mut key, &text_of(&parent.metadata.hash));
    assert(key@ =~= visit_key(file.file_path@, parent.metadata.hash@));
    if crate::go::edge_resolution::views_contain(visited, &key) {
        return Some(resolved);
    }
    let pcs = matching_calls_exec(files, parent, &file.file_path);
    if pcs.len() == 0 {
        return Some(resolved);
    }
    let mut route: Vec<Vec<char>> = Vec::new();
    let mut q: usize = 0;
    while q < visited.len()
        invariant
            q <= visited@.len(),
            crate::text::views(route@) == crate::text::views(visited@).take(q as int),
        decreases visited.len() - q,
    {
        let ghost before = crate::text::views(route@);
        route.push(copy_chars(&visited[q]));
        assert(crate::text::views(route@) =~= before.push(visited@[q as int]@));
        assert(crate::text::views(visited@).take(q + 1) =~= crate::text::views(visited@).take(q as int).push(visited@[q as int]@));
        q = q + 1;
    }
    assert(crate::text::views(visited@).take(visited@.len() as int) =~= crate::text::views(visited@));
    let ghost before = crate::text::views(route@);
    route.push(key);
    assert(crate::text::views(route@) =~= before.push(visit_key(file.file_path@, parent.metadata.hash@)));
    match propagate_exec(&resolved, Ghost(*e), parent, &pcs, files, known, fuel - 1, &route) {
        None => None,
        Some(p) => if p.len() == 0 {
            Some(resolved)
        } else {
            Some(p)
        },
    }
}

fn copy_chars(v: &Vec<char>) -> (r: Vec<char>)
    ensures
        r@ == v@,
{
    let r = crate::text::slice_chars(v, 0, v.len());
    assert(r@ =~= v@);
    r
}

/// Each of the edges resolved at each of the calls of the wrapper.
fn propagate_exec(
    rs: &Vec<MessageEdge>,
    Ghost(e): Ghost<MessageEdge>,
    parent: &ParsedCallable,
    pcs: &Vec<(usize, usize)>,
    files: &Vec<TypedFileRecord>,
    known: &Vec<(String, String)>,
    fuel: usize,
    visited: &Vec<Vec<char>>,
) -> (r: Option<Vec<MessageEdge>>)
    requires
        all_based_on(rs@, e),
        valid_positions(files@, pcs@),
    ensures
        r matches Some(vs) ==> propagate(
            edges_fields(rs@),
            kind_of(e),
            *parent,
            positions(pcs@),
            files@,
            pairs_view(known@),
            fuel as nat,
            crate::text::views(visited@),
        ) == Some(edges_fields(vs@)) && all_based_on(vs@, e),
        r is None ==> propagate(
            edges_fields(rs@),
            kind_of(e),
            *parent,
            positions(pcs@),
            files@,
            pairs_view(known@),
            fuel as nat,
            crate::text::views(visited@),
        ) is None,
    decreases 2 * fuel + 2,
{
    let ghost rv = edges_fields(rs@);
    let ghost pv = positions(pcs@);
    let ghost kv = pairs_view(known@);
    let ghost vv = crate::text::views(visited@);
    let ghost k = kind_of(e);
    let mut out: Vec<MessageEdge> = Vec::new();
    let mut i: usize = 0;
    while i < rs.len()
        invariant
            i <= rs@.len(),
            rv == edges_fields(rs@),
            pv == positions(pcs@),
            kv == pairs_view(known@),
            vv == crate::text::views(visited@),
            k == kind_of(e),
            all_based_on(rs@, e),
            valid_positions(files@, pcs@),
            all_based_on(out@, e),
            propagate(rv.take(i as int), k, *parent, pv, files@, kv, fuel as nat, vv) == Some(edges_fields(out@)),
        decreases rs.len() - i,
    {
        let ri = &rs[i];
        assert(same_base(*ri, e));
        assert(rv.take(i + 1).drop_last() =~= rv.take(i as int));
        assert(rv.take(i + 1).last() == fields_of(*ri));
        let ghost s0 = edges_fields(out@);
        let mut j: usize = 0;
        while j < pcs.len()
            invariant
                i < rs@.len(),
                j <= pcs@.len(),
                *ri == rs@[i as int],
                same_base(*ri, e),
                rv == edges_fields(rs@),
                pv == positions(pcs@),
                kv == pairs_view(known@),
                vv == crate::text::views(visited@),
                k == kind_of(e),
                valid_positions(files@, pcs@),
                all_based_on(out@, e),
                propagate_calls(fields_of(*ri), k, *parent, pv.take(j as int), files@, kv, fuel as nat, vv) matches Some(x)
                    && edges_fields(out@) == s0 + x,
            decreases pcs.len() - j,
        {
            let (pf, pc) = pcs[j];
            assert(pv.take(j + 1).drop_last() =~= pv.take(j as int));
            assert(pv.take(j + 1).last() == (pf as int, pc as int));
            match resolve_invocation_exec(ri, parent, pf, pc, files, known, fuel, visited) {
                None => {
                    proof {
                        lemma_propagate_calls_none(fields_of(*ri), k, *parent, pv, files@, kv, fuel as nat, vv, j + 1, pv.len() as int);
                        assert(pv.take(pv.len() as int) =~= pv);
                        lemma_propagate_none(rv, k, *parent, pv, files@, kv, fuel as nat, vv, i + 1, rv.len() as int);
                        assert(rv.take(rv.len() as int) =~= rv);
                    }
                    return None;
                },
                Some(vs) => {
                    let ghost mid = edges_fields(out@);
                    let mut t: usize = 0;
                    while t < vs.len()
                        invariant
                            t <= vs@.len(),
                            all_based_on(vs@, *ri),
                            same_base(*ri, e),
                            all_based_on(out@, e),
                            edges_fields(out@) == mid + edges_fields(vs@).take(t as int),
                        decreases vs.len() - t,
                    {
                        let x = edge_with(
                            &vs[t],
                            vs[t].destination.clone(),
                            copy_opt(&vs[t].exchange),
                            copy_opt(&vs[t].routing_key),
                            copy_opt(&vs[t].queue),
                            copy_opt(&vs[t].topic),
                            vs[t].file_path.clone(),
                        );
                        proof {
                            assert(same_base(vs@[t as int], *ri));
                            lemma_same_base_trans(x, vs@[t as int], *ri);
                            lemma_same_base_trans(x, *ri, e);
                        }
                        let ghost s1 = edges_fields(out@);
                        crate::go::edge_resolution::push_edge(&mut out, x, Ghost(e));
                        assert(edges_fields(vs@).take(t + 1) =~= edges_fields(vs@).take(t as int).push(fields_of(vs@[t as int])));
                        assert(edges_fields(out@) =~= mid + edges_fields(vs@).take(t + 1));
                        t = t + 1;
                    }
                    assert(edges_fields(vs@).take(vs@.len() as int) =~= edges_fields(vs@));
                },
            }
            j = j + 1;
        }
        assert(pv.take(pv.len() as int) =~= pv);
        i = i + 1;
    }
    assert(rv.take(rv.len() as int) =~= rv);
    Some(out)
}

/// The `(name, value)` assignments whose literals are known to a source
/// file: those of the Go files under its service root, or of all Go files
/// when it lies under none; from the first `k` files.
pub open spec fn source_known(files: Seq<TypedFileRecord>, path: Seq<char>, k: int) -> Seq<(Seq<char>, Seq<char>)>
    decreases k,
{
    if k <= 0 || k > files.len() {
        Seq::empty()
    } else {
        source_known(files, path, k - 1) + if is_go(files[k - 1]) && (service_root(path) is None || service_root(
            files[k - 1].file_path@,
        ) == service_root(path)) {
            crate::go::edge_resolution::file_pairs(files[k - 1])
        } else {
            Seq::empty()
        }
    }
}

fn source_known_exec(files: &Vec<TypedFileRecord>, path: &String) -> (r: Vec<(String, String)>)
    ensures
        pairs_view(r@) == source_known(files@, path@, files@.len() as int),
{
    let root = crate::go::values::service_root_exec(&text_of(path));
    let mut out: Vec<(String, String)> = Vec::new();
    let mut i: usize = 0;
    while i < files.len()
        invariant
            i <= files@.len(),
            root matches Some(x) ==> service_root(path@) == Some(x@),
            root is None ==> service_root(path@) is None,
            pairs_view(out@) == source_known(files@, path@, i as int),
        decreases files.len() - i,
    {
        let inside = files[i].language == Language::Go && match &root {
            None => true,
            Some(x) => match crate::go::values::service_root_exec(&text_of(&files[i].file_path)) {
                Some(y) => chars_eq(&y, x),
                None => false,
            },
        };
        if inside {
            let p = crate::go::edge_resolution::file_pairs_exec(&files[i]);
            let ghost s0 = pairs_view(out@);
            let mut j: usize = 0;
            while j < p.len()
                invariant
                    j <= p@.len(),
                    pairs_view(out@) == s0 + pairs_view(p@).take(j as int),
                decreases p.len() - j,
            {
                let a = p[j].0.clone();
                let b = p[j].1.clone();
                let ghost mid = pairs_view(out@);
                out.push((a, b));
                assert(pairs_view(out@) =~= mid.push((a@, b@)));
                assert(pairs_view(p@).take(j + 1) =~= pairs_view(p@).take(j as int).push((a@, b@)));
                j = j + 1;
            }
            assert(pairs_view(p@).take(p@.len() as int) =~= pairs_view(p@));
        } else {
            assert(pairs_view(out@) =~= pairs_view(out@) + Seq::<(Seq<char>, Seq<char>)>::empty());
        }
        i = i + 1;
    }
    out
}

/// The position of the first callable with the given hash.
pub open spec fn callable_position(cs: Seq<ParsedCallable>, hash: Seq<char>, i: int) -> Option<int>
    decreases cs.len() - i,
{
    if i < 0 || i >= cs.len() {
        None
    } else if cs[i].metadata.hash@ == hash {
        Some(i)
    } else {
        callable_position(cs, hash, i + 1)
    }
}

fn callable_position_exec(cs: &Vec<ParsedCallable>, hash: &String) -> (r: Option<usize>)
    ensures
        r matches Some(j) ==> callable_position(cs@, hash@, 0) == Some(j as int) && j < cs@.len(),
        r is None ==> callable_position(cs@, hash@, 0) is None,
{
    let mut i: usize = 0;
    while i < cs.len()
        invariant
            i <= cs@.len(),
            callable_position(cs@, hash@, 0) == callable_position(cs@, hash@, i as int),
        decreases cs.len() - i,
    {
        if chars_eq(&text_of(&cs[i].metadata.hash), &text_of(hash)) {
            return Some(i);
        }
        i = i + 1;
    }
    None
}

/// The first `n` declared edges, each resolved at the invocation `inv`.
pub open spec fn declared_at(
    ds: Seq<EdgeFields>,
    k: EdgeKind,
    c: ParsedCallable,
    inv: (int, int),
    files: Seq<TypedFileRecord>,
    known: Seq<(Seq<char>, Seq<char>)>,
    n: int,
) -> Option<Seq<EdgeFields>>
    decreases n,
{
    if n <= 0 || n > ds.len() {
        Some(Seq::empty())
    } else {
        match (
            declared_at(ds, k, c, inv, files, known, n - 1),
            resolve_invocation(ds[n - 1], k, c, inv, files, known, RESOLUTION_DEPTH as nat, Seq::empty()),
        ) {
            (Some(a), Some(b)) => Some(a + b),
            _ => None,
        }
    }
}

/// The declared edges resolved at each of the invocations `invs`, in order.
pub open spec fn invocation_edges(
    ds: Seq<EdgeFields>,
    k: EdgeKind,
    c: ParsedCallable,
    invs: Seq<(int, int)>,
    files: Seq<TypedFileRecord>,
    known: Seq<(Seq<char>, Seq<char>)>,
) -> Option<Seq<EdgeFields>>
    decreases invs.len(),
{
    if invs.len() == 0 {
        Some(Seq::empty())
    } else {
        match (
            invocation_edges(ds, k, c, invs.drop_last(), files, known),
            declared_at(ds, k, c, invs.last(), files, known, ds.len() as int),
        ) {
            (Some(a), Some(b)) => Some(a + b),
            _ => None,
        }
    }
}

/// The edges an edge of a Go file becomes: where the file's callable that
/// declares it is known, its declared edges (resolved with no arguments)
/// or, for a callable that is neither a non-producer's constructor nor an
/// ambiguous method, their resolutions at the callable's call sites when
/// there are any; else the edge itself.  `None` where a composite literal
/// on the way cannot be read.
pub open spec fn edge_expansion(e: MessageEdge, path: Seq<char>, files: Seq<TypedFileRecord>) -> Option<Seq<EdgeFields>> {
    match go_position(files, path, 0) {
        None => Some(seq![fields_of(e)]),
        Some(si) => {
            let src = files[si];
            match callable_position(src.callables@, e.function_hash@, 0) {
                None => Some(seq![fields_of(e)]),
                Some(cj) => {
                    let c = src.callables@[cj];
                    let known = source_known(files, src.file_path@, files.len() as int);
                    match resolve_edge_fields(fields_of(e), kind_of(e), Map::empty(), src.file_path@, c, files, known) {
                        None => None,
                        Some(declared) => if (e.role != crate::model::MessageRole::Producer && crate::text::starts_with(
                            c.metadata.name@,
                            "New"@,
                        )) || has_ambiguous_method_name(c, files) {
                            Some(declared)
                        } else {
                            match invocation_edges(declared, kind_of(e), c, matching_calls(files, c, src.file_path@), files, known) {
                                None => None,
                                Some(res) => Some(
                                    if res.len() == 0 {
                                        declared
                                    } else {
                                        res
                                    },
                                ),
                            }
                        },
                    }
                },
            }
        },
    }
}

proof fn lemma_declared_at_none(
    ds: Seq<EdgeFields>,
    k: EdgeKind,
    c: ParsedCallable,
    inv: (int, int),
    files: Seq<TypedFileRecord>,
    known: Seq<(Seq<char>, Seq<char>)>,
    j: int,
    m: int,
)
    requires
        0 <= j <= m <= ds.len(),
        declared_at(ds, k, c, inv, files, known, j) is None,
    ensures
        declared_at(ds, k, c, inv, files, known, m) is None,
    decreases m - j,
{
    if j < m {
        lemma_declared_at_none(ds, k, c, inv, files, known, j, m - 1);
    }
}

proof fn lemma_invocation_edges_none(
    ds: Seq<EdgeFields>,
    k: EdgeKind,
    c: ParsedCallable,
    invs: Seq<(int, int)>,
    files: Seq<TypedFileRecord>,
    known: Seq<(Seq<char>, Seq<char>)>,
    j: int,
    m: int,
)
    requires
        0 <= j <= m <= invs.len(),
        invocation_edges(ds, k, c, invs.take(j), files, known) is None,
    ensures
        invocation_edges(ds, k, c, invs.take(m), files, known) is None,
    decreases m - j,
{
    if j < m {
        lemma_invocation_edges_none(ds, k, c, invs, files, known, j, m - 1);
        assert(invs.take(m).drop_last() =~= invs.take(m - 1));
    }
}

fn single_edge(e: &MessageEdge) -> (r: Vec<MessageEdge>)
    ensures
        edges_fields(r@) == seq![fields_of(*e)],
        all_based_on(r@, *e),
{
    let x = edge_with(
        e,
        e.destination.clone(),
        copy_opt(&e.exchange),
        copy_opt(&e.routing_key),
        copy_opt(&e.queue),
        copy_opt(&e.topic),
        e.file_path.clone(),
    );
    let mut r: Vec<MessageEdge> = Vec::new();
    r.push(x);
    assert(edges_fields(r@) =~= seq![fields_of(*e)]);
    r
}

/// Appends edges based on `d` (itself based on `e`) to `out`.
fn append_edges(out: &mut Vec<MessageEdge>, vs: &Vec<MessageEdge>, Ghost(d): Ghost<MessageEdge>, Ghost(e): Ghost<MessageEdge>)
    requires
        all_based_on(old(out)@, e),
        all_based_on(vs@, d),
        same_base(d, e),
    ensures
        all_based_on(final(out)@, e),
        edges_fields(final(out)@) == edges_fields(old(out)@) + edges_fields(vs@),
{
    let ghost s0 = edges_fields(out@);
    let mut t: usize = 0;
    while t < vs.len()
        invariant
            t <= vs@.len(),
            all_based_on(vs@, d),
            same_base(d, e),
            all_based_on(out@, e),
            edges_fields(out@) == s0 + edges_fields(vs@).take(t as int),
        decreases vs.len() - t,
    {
        let x = edge_with(
            &vs[t],
            vs[t].destination.clone(),
            copy_opt(&vs[t].exchange),
            copy_opt(&vs[t].routing_key),
            copy_opt(&vs[t].queue),
            copy_opt(&vs[t].topic),
            vs[t].file_path.clone(),
        );
        proof {
            assert(same_base(vs@[t as int], d));
            lemma_same_base_trans(x, vs@[t as int], d);
            lemma_same_base_trans(x, d, e);
        }
        crate::go::edge_resolution::push_edge(out, x, Ghost(e));
        assert(edges_fields(vs@).take(t + 1) =~= edges_fields(vs@).take(t as int).push(fields_of(vs@[t as int])));
        assert(edges_fields(out@) =~= s0 + edges_fields(vs@).take(t + 1));
        t = t + 1;
    }
    assert(edges_fields(vs@).take(vs@.len() as int) =~= edges_fields(vs@));
}

/// Replaces one Go message edge by the concrete edges of its call sites.
#[verifier::loop_isolation(false)]
pub fn edge_expansion_exec(e: &MessageEdge, path: &String, files: &Vec<TypedFileRecord>) -> (r: Option<Vec<MessageEdge>>)
    ensures
        r matches Some(vs) ==> edge_expansion(*e, path@, files@) == Some(edges_fields(vs@)) && all_based_on(vs@, *e),
        r is None ==> edge_expansion(*e, path@, files@) is None,
{
    let si = match go_position_exec(files, &text_of(path)) {
        None => return Some(single_edge(e)),
        Some(si) => si,
    };
    let src = &files[si];
    let cj = match callable_position_exec(&src.callables, &e.function_hash) {
        None => return Some(single_edge(e)),
        Some(cj) => cj,
    };
    let c = &src.callables[cj];
    let known = source_known_exec(files, &src.file_path);
    let empty = Bindings::new();
    let declared = match resolve_edge_fields_exec(e, &empty, &src.file_path, c, files, &known) {
        None => return None,
        Some(d) => d,
    };
    if (e.role != crate::model::MessageRole::Producer && crate::text::starts_with_exec(
        &text_of(&c.metadata.name),
        &chars_of("New"),
    )) || has_ambiguous_method_name_exec(c, files) {
        return Some(declared);
    }
    let invs = matching_calls_exec(files, c, &src.file_path);
    let ghost iv = positions(invs@);
    let ghost dv = edges_fields(declared@);
    let ghost kv = pairs_view(known@);
    let ghost k = kind_of(*e);
    let ghost f0 = files@;
    let mut out: Vec<MessageEdge> = Vec::new();
    let mut a: usize = 0;
    while a < invs.len()
        invariant
            a <= invs@.len(),
            iv == positions(invs@),
            dv == edges_fields(declared@),
            kv == pairs_view(known@),
            k == kind_of(*e),
            f0 == files@,
            valid_positions(files@, invs@),
            all_based_on(declared@, *e),
            all_based_on(out@, *e),
            invocation_edges(dv, k, *c, iv.take(a as int), files@, kv) == Some(edges_fields(out@)),
        decreases invs.len() - a,
    {
        let (fi, ci) = invs[a];
        assert(iv.take(a + 1).drop_last() =~= iv.take(a as int));
        assert(iv.take(a + 1).last() == (fi as int, ci as int));
        match declared_at_exec(&declared, Ghost(*e), c, fi, ci, files, &known) {
            None => {
                proof {
                    assert(invocation_edges(dv, k, *c, iv.take(a + 1), files@, kv) is None);
                    lemma_invocation_edges_none(dv, k, *c, iv, files@, kv, a + 1, iv.len() as int);
                    assert(iv.take(iv.len() as int) =~= iv);
                }
                return None;
            },
            Some(vs) => {
                append_edges(&mut out, &vs, Ghost(*e), Ghost(*e));
            },
        }
        a = a + 1;
    }
    assert(iv.take(iv.len() as int) =~= iv);
    if out.len() == 0 {
        Some(declared)
    } else {
        Some(out)
    }
}

/// The declared edges, each resolved at one invocation.
fn declared_at_exec(
    declared: &Vec<MessageEdge>,
    Ghost(e): Ghost<MessageEdge>,
    c: &ParsedCallable,
    fi: usize,
    ci: usize,
    files: &Vec<TypedFileRecord>,
    known: &Vec<(String, String)>,
) -> (r: Option<Vec<MessageEdge>>)
    requires
        fi < files@.len(),
        ci < files@[fi as int].call_statements@.len(),
        all_based_on(declared@, e),
    ensures
        r matches Some(vs) ==> declared_at(
            edges_fields(declared@),
            kind_of(e),
            *c,
            (fi as int, ci as int),
            files@,
            pairs_view(known@),
            declared@.len() as int,
        ) == Some(edges_fields(vs@)) && all_based_on(vs@, e),
        r is None ==> declared_at(
            edges_fields(declared@),
            kind_of(e),
            *c,
            (fi as int, ci as int),
            files@,
            pairs_view(known@),
            declared@.len() as int,
        ) is None,
{
    let ghost dv = edges_fields(declared@);
    let ghost kv = pairs_view(known@);
    let ghost k = kind_of(e);
    let mut out: Vec<MessageEdge> = Vec::new();
    let mut b: usize = 0;
    while b < declared.len()
        invariant
            b <= declared@.len(),
            fi < files@.len(),
            ci < files@[fi as int].call_statements@.len(),
            dv == edges_fields(declared@),
            kv == pairs_view(known@),
            k == kind_of(e),
            all_based_on(declared@, e),
            all_based_on(out@, e),
            declared_at(dv, k, *c, (fi as int, ci as int), files@, kv, b as int) == Some(edges_fields(out@)),
        decreases declared.len() - b,
    {
        let d = &declared[b];
        assert(same_base(*d, e));
        assert(dv[b as int] == fields_of(*d));
        let empty_route: Vec<Vec<char>> = Vec::new();
        assert(crate::text::views(empty_route@) =~= Seq::<Seq<char>>::empty());
        match resolve_invocation_exec(d, c, fi, ci, files, known, RESOLUTION_DEPTH, &empty_route) {
            None => {
                proof {
                    lemma_declared_at_none(dv, k, *c, (fi as int, ci as int), files@, kv, b + 1, dv.len() as int);
                }
                return None;
            },
            Some(vs) => {
                append_edges(&mut out, &vs, Ghost(*d), Ghost(e));
            },
        }
        b = b + 1;
    }
    Some(out)
}

/// `r` is the edges `raw` each replaced, in order, by edges of the same
/// flow carrying the transport fields of its group.
pub open spec fn expands(r: Seq<MessageEdge>, raw: Seq<MessageEdge>, groups: Seq<Seq<EdgeFields>>) -> bool
    decreases raw.len(),
{
    raw.len() == groups.len() && if raw.len() == 0 {
        r.len() == 0
    } else {
        let g = groups.last();
        let n = r.len() - g.len();
        &&& n >= 0
        &&& expands(r.take(n), raw.drop_last(), groups.drop_last())
        &&& forall|j: int| 0 <= j < g.len() ==> same_base(#[trigger] r[n + j], raw.last()) && fields_of(r[n + j]) == g[j]
    }
}

/// The expansions of the first `k` message edges of a Go file.
pub open spec fn file_groups(f: TypedFileRecord, files: Seq<TypedFileRecord>, k: int) -> Option<Seq<Seq<EdgeFields>>>
    decreases k,
{
    if k <= 0 || k > f.raw_message_edges@.len() {
        Some(Seq::empty())
    } else {
        match (file_groups(f, files, k - 1), edge_expansion(f.raw_message_edges@[k - 1], f.file_path@, files)) {
            (Some(g), Some(x)) => Some(g.push(x)),
            _ => None,
        }
    }
}

pub open spec fn file_expansion(f: TypedFileRecord, files: Seq<TypedFileRecord>) -> Option<Seq<Seq<EdgeFields>>> {
    file_groups(f, files, f.raw_message_edges@.len() as int)
}

/// Every message edge of every Go file can be resolved: no composite
/// literal met on the way has its last `}` before its first `{`.
pub open spec fn edges_resolvable(files: Seq<TypedFileRecord>) -> bool {
    forall|i: int| 0 <= i < files.len() && is_go(files[i]) ==> #[trigger] file_expansion(files[i], files) is Some
}

proof fn lemma_file_groups_none(f: TypedFileRecord, files: Seq<TypedFileRecord>, j: int, m: int)
    requires
        0 <= j <= m <= f.raw_message_edges@.len(),
        file_groups(f, files, j) is None,
    ensures
        file_groups(f, files, m) is None,
    decreases m - j,
{
    if j < m {
        lemma_file_groups_none(f, files, j, m - 1);
    }
}

proof fn lemma_expands_step(
    r: Seq<MessageEdge>,
    vs: Seq<MessageEdge>,
    raw: Seq<MessageEdge>,
    groups: Seq<Seq<EdgeFields>>,
    e: MessageEdge,
)
    requires
        expands(r, raw, groups),
        all_based_on(vs, e),
    ensures
        expands(r + vs, raw.push(e), groups.push(edges_fields(vs))),
{
    let g = edges_fields(vs);
    assert((r + vs).take(r.len() as int) =~= r);
    assert(raw.push(e).drop_last() =~= raw);
    assert(groups.push(g).drop_last() =~= groups);
    assert forall|j: int| 0 <= j < g.len() implies same_base(#[trigger] (r + vs)[r.len() + j], e) && fields_of(
        (r + vs)[r.len() + j],
    ) == g[j] by {
        assert((r + vs)[r.len() + j] == vs[j]);
    }
}

/// The resolved message edges of a Go file.
pub fn file_edges_exec(f: &TypedFileRecord, files: &Vec<TypedFileRecord>) -> (r: Option<Vec<MessageEdge>>)
    ensures
        r matches Some(vs) ==> file_expansion(*f, files@) matches Some(g) && expands(vs@, f.raw_message_edges@, g),
        r is None ==> file_expansion(*f, files@) is None,
{
    let raw = &f.raw_message_edges;
    let mut out: Vec<MessageEdge> = Vec::new();
    let ghost mut groups: Seq<Seq<EdgeFields>> = Seq::empty();
    let mut i: usize = 0;
    while i < raw.len()
        invariant
            i <= raw@.len(),
            *raw == f.raw_message_edges,
            file_groups(*f, files@, i as int) == Some(groups),
            expands(out@, raw@.take(i as int), groups),
        decreases raw.len() - i,
    {
        match edge_expansion_exec(&raw[i], &f.file_path, files) {
            None => {
                proof {
                    lemma_file_groups_none(*f, files@, i + 1, raw@.len() as int);
                }
                return None;
            },
            Some(vs) => {
                proof {
                    lemma_expands_step(out@, vs@, raw@.take(i as int), groups, raw@[i as int]);
                    assert(raw@.take(i + 1) =~= raw@.take(i as int).push(raw@[i as int]));
                }
                let ghost before = out@;
                let ghost added = vs@;
                let mut vs = vs;
                out.append(&mut vs);
                assert(out@ =~= before + added);
                proof {
                    groups = groups.push(edges_fields(added));
                }
            },
        }
        i = i + 1;
    }
    assert(raw@.take(raw@.len() as int) =~= raw@);
    Some(out)
}

/// `g` is `f` with its message edges replaced by their resolutions.
pub open spec fn resolved_file(files: Seq<TypedFileRecord>, f: TypedFileRecord, g: TypedFileRecord) -> bool {
    &&& g == (TypedFileRecord { raw_message_edges: g.raw_message_edges, ..f })
    &&& file_expansion(f, files) matches Some(groups) && expands(g.raw_message_edges@, f.raw_message_edges@, groups)
}

/// The edges `v` resolve the message edges of `f` when it is a Go file.
#[verifier::opaque]
pub open spec fn entry_ok(files: Seq<TypedFileRecord>, f: TypedFileRecord, v: Seq<MessageEdge>) -> bool {
    is_go(f) ==> (file_expansion(f, files) matches Some(g) && expands(v, f.raw_message_edges@, g))
}

/// Each Go file's resolved edges in `v` expand its message edges.
pub open spec fn resolutions_hold(files: Seq<TypedFileRecord>, v: Seq<Vec<MessageEdge>>, n: int) -> bool {
    forall|a: int| 0 <= a < n ==> entry_ok(files, files[a], #[trigger] v[a]@)
}

/// The resolved message edges of every Go file (an empty list for the other
/// files), or `None` when some edge cannot be resolved.
pub fn message_edge_resolutions(files: &Vec<TypedFileRecord>) -> (r: Option<Vec<Vec<MessageEdge>>>)
    ensures
        r is None <==> !edges_resolvable(files@),
        r matches Some(v) ==> v@.len() == files@.len() && resolutions_hold(files@, v@, files@.len() as int),
{
    let mut out: Vec<Vec<MessageEdge>> = Vec::new();
    let mut i: usize = 0;
    while i < files.len()
        invariant
            i <= files@.len(),
            out@.len() == i,
            resolutions_hold(files@, out@, i as int),
        decreases files.len() - i,
    {
        let ghost before = out@;
        let entry = match resolution_entry(files, i) {
            None => return None,
            Some(v) => v,
        };
        let ghost ev = entry@;
        out.push(entry);
        assert(resolutions_hold(files@, out@, i + 1)) by {
            assert forall|a: int| 0 <= a < i + 1 implies entry_ok(files@, files@[a], #[trigger] out@[a]@) by {
                if a < i {
                    assert(out@[a] == before[a]);
                } else {
                    assert(out@[a]@ == ev);
                }
            }
        }
        i = i + 1;
    }
    assert(edges_resolvable(files@)) by {
        reveal(entry_ok);
        assert forall|a: int| 0 <= a < files@.len() && is_go(files@[a]) implies #[trigger] file_expansion(files@[a], files@) is Some by {
            assert(entry_ok(files@, files@[a], out@[a]@));
        }
    }
    Some(out)
}

/// The resolved edges of file `i`: those of a Go file, an empty list for
/// another; `None` when an edge of a Go file cannot be resolved.
fn resolution_entry(files: &Vec<TypedFileRecord>, i: usize) -> (r: Option<Vec<MessageEdge>>)
    requires
        i < files@.len(),
    ensures
        r is None ==> !edges_resolvable(files@),
        r matches Some(v) ==> entry_ok(files@, files@[i as int], v@),
{
    reveal(entry_ok);
    if files[i].language == Language::Go {
        match file_edges_exec(&files[i], files) {
            None => {
                assert(!edges_resolvable(files@)) by {
                    assert(file_expansion(files@[i as int], files@) is None);
                }
                None
            },
            Some(vs) => Some(vs),
        }
    } else {
        Some(Vec::new())
    }
}

/// Whether every message edge of the Go files can be resolved.
pub fn message_edges_resolvable(files: &Vec<TypedFileRecord>) -> (r: bool)
    ensures
        r == edges_resolvable(files@),
{
    message_edge_resolutions(files).is_some()
}

/// Replaces the Go message edges of every file with the concrete variants
/// that the project's call sites give them.
pub fn resolve_message_edges(files: &mut Vec<TypedFileRecord>)
    requires
        edges_resolvable(old(files)@),
    ensures
        final(files)@.len() == old(files)@.len(),
        forall|i: int|
            0 <= i < old(files)@.len() ==> if is_go(old(files)@[i]) {
                resolved_file(old(files)@, old(files)@[i], #[trigger] final(files)@[i])
            } else {
                final(files)@[i] == old(files)@[i]
            },
{
    let res = match message_edge_resolutions(files) {
        Some(v) => v,
        None => return,
    };
    let ghost orig = files@;
    let mut pending: Vec<TypedFileRecord> = Vec::new();
    std::mem::swap(&mut pending, files);
    let mut res = res;
    let ghost resv = res@;
    let n = pending.len();
    let mut done: Vec<TypedFileRecord> = Vec::new();
    let mut i: usize = 0;
    while i < n
        invariant
            i <= n,
            n == orig.len(),
            resv.len() == n,
            res@ == resv.skip(i as int),
            pending@ == orig.skip(i as int),
            done@.len() == i,
            resolutions_hold(orig, resv, n as int),
            forall|a: int|
                0 <= a < i ==> if is_go(orig[a]) {
                    resolved_file(orig, orig[a], #[trigger] done@[a])
                } else {
                    done@[a] == orig[a]
                },
        decreases n - i,
    {
        let f = pending.remove(0);
        let edges = res.remove(0);
        assert(f == orig[i as int]);
        assert(edges == resv[i as int]);
        assert(orig.skip(i as int).remove(0) =~= orig.skip(i + 1));
        assert(resv.skip(i as int).remove(0) =~= resv.skip(i + 1));
        if f.language == Language::Go {
            let mut g = f;
            g.raw_message_edges = edges;
            assert(resv[i as int]@ == edges@);
            assert(entry_ok(orig, orig[i as int], resv[i as int]@));
            assert(resolved_file(orig, orig[i as int], g)) by {
                reveal(entry_ok);
            }
            done.push(g);
        } else {
            done.push(f);
        }
        i = i + 1;
    }
    *files = done;
}

} // verus!
