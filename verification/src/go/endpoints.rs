//! The endpoints a Go syntax tree registers, each bound to the callable
//! that handles it (or to a synthetic handler the file does not define).
use vstd::prelude::*;

use crate::bindings::Bindings;
use crate::go::endpoint_frameworks::{identify_route, identify_route_exec, RouteMatch};
use crate::go::pipeline::{global_bindings, global_bindings_exec};
use crate::go::syntax::{lemma_child_size, node_size, GoNode};
use crate::model::{
    bare_callable, callable_view, callables_view, copy_callable, endpoint_view, endpoints_view, parsed_view, Assignment,
    AssignmentKey, Callable, CallableView, Endpoint, EndpointView, HttpMethod, Import, Namespace, ParsedCallable,
};
use crate::text::{after_last, after_last_exec, chars_eq, chars_of, string_of, text_of, trim, trim_exec, views};

verus! {

/// The nodes of a tree in pre-order.
pub open spec fn preorder(n: GoNode) -> Seq<GoNode>
    decreases node_size(n), 1int, 0int,
{
    seq![n] + preorder_children(n, n.named@.len() as int)
}

/// The pre-order nodes of the first `k` children.
pub open spec fn preorder_children(n: GoNode, k: int) -> Seq<GoNode>
    decreases node_size(n), 0int, k,
{
    if k <= 0 || k > n.named@.len() {
        Seq::empty()
    } else {
        proof {
            lemma_child_size(n, k - 1);
        }
        preorder_children(n, k - 1) + preorder(n.named@[k - 1])
    }
}

pub open spec fn derefs<'a>(s: Seq<&'a GoNode>) -> Seq<GoNode> {
    s.map_values(|r: &'a GoNode| *r)
}

pub(crate) fn collect_preorder<'a>(n: &'a GoNode, out: &mut Vec<&'a GoNode>)
    ensures
        derefs(final(out)@) == derefs(old(out)@) + preorder(*n),
    decreases node_size(*n),
{
    let ghost start = derefs(out@);
    out.push(n);
    let mut k: usize = 0;
    assert(derefs(out@) =~= start + seq![*n] + preorder_children(*n, 0));
    while k < n.named.len()
        invariant
            k <= n.named@.len(),
            derefs(out@) == start + seq![*n] + preorder_children(*n, k as int),
        decreases n.named.len() - k,
    {
        proof {
            lemma_child_size(*n, k as int);
        }
        collect_preorder(&n.named[k], out);
        assert(derefs(out@) =~= start + seq![*n] + preorder_children(*n, k + 1));
        k = k + 1;
    }
    assert(derefs(out@) =~= start + preorder(*n));
}

/// The routes the call nodes among `nodes` register, in order.
pub open spec fn routes_of(
    nodes: Seq<GoNode>,
    m: Map<Seq<char>, Seq<char>>,
    asg: Seq<(AssignmentKey, Assignment)>,
    imports: Seq<Import>,
) -> Seq<RouteMatch>
    decreases nodes.len(),
{
    if nodes.len() == 0 {
        Seq::empty()
    } else {
        let n = nodes.last();
        routes_of(nodes.drop_last(), m, asg, imports) + if n.kind@ == "call_expression"@ {
            match identify_route(n, m, asg, imports) {
                Some(r) => seq![r],
                None => Seq::empty(),
            }
        } else {
            Seq::empty()
        }
    }
}

/// The callable a lookup table gives a key: its last entry of that key.
pub open spec fn table_get(table: Seq<(Seq<char>, CallableView)>, key: Seq<char>) -> Option<CallableView>
    decreases table.len(),
{
    if table.len() == 0 {
        None
    } else if table.last().0 == key {
        Some(table.last().1)
    } else {
        table_get(table.drop_last(), key)
    }
}

pub open spec fn table_view(t: Seq<(String, Callable)>) -> Seq<(Seq<char>, CallableView)> {
    t.map_values(|e: (String, Callable)| (e.0@, callable_view(e.1)))
}

/// The callable a handler expression names: by its whole text, else by its
/// last selector.
pub open spec fn lookup_handler(handler: Seq<char>, table: Seq<(Seq<char>, CallableView)>) -> Option<CallableView> {
    let t = trim(handler);
    match table_get(table, t) {
        Some(c) => Some(c),
        None => table_get(table, after_last(t, '.')),
    }
}

/// `handler METHOD uri`.
pub open spec fn synthetic_signature(m: HttpMethod, uri: Seq<char>) -> Seq<char> {
    "handler "@ + m.name() + " "@ + uri
}

pub open spec fn synthetic_hash(file_path: Seq<char>, route: RouteMatch) -> Seq<char> {
    crate::hashing::text_hash(file_path + "::"@ + synthetic_signature(route.0, route.1) + "::"@ + route.2)
}

/// The callable an endpoint of a route is bound to.
pub open spec fn route_handler(file_path: Seq<char>, route: RouteMatch, table: Seq<(Seq<char>, CallableView)>) -> CallableView {
    match lookup_handler(route.2, table) {
        Some(c) => c,
        None => {
            let sig = synthetic_signature(route.0, route.1);
            bare_callable(sig, sig, (false, file_path), synthetic_hash(file_path, route), file_path)
        },
    }
}

/// The synthetic handler recorded for a route no callable handles: named by
/// the handler expression.
pub open spec fn synthetic_record(file_path: Seq<char>, route: RouteMatch) -> CallableView {
    bare_callable(
        route.2,
        synthetic_signature(route.0, route.1),
        (false, file_path),
        synthetic_hash(file_path, route),
        file_path,
    )
}

pub open spec fn hashes_of(cs: Seq<CallableView>) -> Seq<Seq<char>> {
    cs.map_values(|c: CallableView| c.2.0)
}

/// The synthetic handlers the routes add, each hash once.
pub open spec fn synthetic_records(
    file_path: Seq<char>,
    routes: Seq<RouteMatch>,
    table: Seq<(Seq<char>, CallableView)>,
) -> Seq<CallableView>
    decreases routes.len(),
{
    if routes.len() == 0 {
        Seq::empty()
    } else {
        let prev = synthetic_records(file_path, routes.drop_last(), table);
        let r = routes.last();
        if lookup_handler(r.2, table) is Some || hashes_of(prev).contains(synthetic_hash(file_path, r)) {
            prev
        } else {
            prev.push(synthetic_record(file_path, r))
        }
    }
}

/// The endpoint of a route bound to its handler.
pub open spec fn route_endpoint(file_path: Seq<char>, route: RouteMatch, table: Seq<(Seq<char>, CallableView)>) -> EndpointView {
    let c = route_handler(file_path, route, table);
    (c.0.1, c.2.0, route.0, Seq::empty(), route.1, file_path, None)
}

/// The routes of a syntax tree, its global assignments giving the names
/// route expressions are evaluated with.
pub open spec fn tree_routes(root: GoNode, asg: Seq<(AssignmentKey, Assignment)>, imports: Seq<Import>) -> Seq<
    RouteMatch,
> {
    routes_of(preorder(root), global_bindings(asg).0, asg, imports)
}

fn table_get_exec(table: &Vec<(String, Callable)>, key: &[char]) -> (r: Option<Callable>)
    ensures
        r matches Some(c) ==> table_get(table_view(table@), key@) == Some(callable_view(c)),
        r is None ==> table_get(table_view(table@), key@) is None,
{
    let ghost tv = table_view(table@);
    let mut i: usize = table.len();
    assert(tv.take(i as int) =~= tv);
    while i > 0
        invariant
            i <= table@.len(),
            tv == table_view(table@),
            table_get(tv, key@) == table_get(tv.take(i as int), key@),
        decreases i,
    {
        assert(tv.take(i as int).drop_last() =~= tv.take(i - 1));
        assert(tv.take(i as int).last() == tv[i - 1]);
        if chars_eq(&text_of(&table[i - 1].0), key) {
            return Some(copy_callable(&table[i - 1].1));
        }
        i = i - 1;
    }
    assert(tv.take(0) =~= Seq::<(Seq<char>, CallableView)>::empty());
    None
}

fn lookup_handler_exec(handler: &[char], table: &Vec<(String, Callable)>) -> (r: Option<Callable>)
    ensures
        r matches Some(c) ==> lookup_handler(handler@, table_view(table@)) == Some(callable_view(c)),
        r is None ==> lookup_handler(handler@, table_view(table@)) is None,
{
    let t = trim_exec(handler);
    match table_get_exec(table, &t) {
        Some(c) => Some(c),
        None => table_get_exec(table, &after_last_exec(&t, '.')),
    }
}

fn synthetic_signature_exec(m: HttpMethod, uri: &[char]) -> (r: Vec<char>)
    ensures
        r@ == synthetic_signature(m, uri@),
{
    let mut sig = chars_of("handler ");
    crate::text::append_chars(&mut sig, &chars_of(m.as_str()));
    sig.push(' ');
    crate::text::append_chars(&mut sig, uri);
    assert(sig@ =~= synthetic_signature(m, uri@)) by {
        reveal_strlit(" ");
    }
    sig
}

fn bare(name: &[char], sig: &[char], file_path: &str, hash: &String) -> (r: Callable)
    ensures
        callable_view(r) == bare_callable(name@, sig@, (false, file_path@), hash@, file_path@),
{
    let r = Callable {
        name: string_of(name),
        signature: string_of(sig),
        namespace: Namespace::Module(file_path.to_string()),
        parameters: Vec::new(),
        return_type: None,
        is_async: false,
        is_constructor: false,
        hash: hash.clone(),
        file_path: file_path.to_string(),
    };
    assert(crate::model::parameters_view(r.parameters@) =~= Seq::empty());
    r
}

fn route_handler_exec(
    file_path: &str,
    route: &(HttpMethod, Vec<char>, Vec<char>),
    table: &Vec<(String, Callable)>,
    fresh: &mut Vec<ParsedCallable>,
    seen: &mut Vec<Vec<char>>,
) -> (r: Callable)
    requires
        views(old(seen)@) == hashes_of(parsed_view(old(fresh)@)),
    ensures
        callable_view(r) == route_handler(file_path@, (route.0, route.1@, route.2@), table_view(table@)),
        views(final(seen)@) == hashes_of(parsed_view(final(fresh)@)),
        ({
            let rv = (route.0, route.1@, route.2@);
            let prev = parsed_view(old(fresh)@);
            parsed_view(final(fresh)@) == if lookup_handler(rv.2, table_view(table@)) is Some || hashes_of(
                prev,
            ).contains(synthetic_hash(file_path@, rv)) {
                prev
            } else {
                prev.push(synthetic_record(file_path@, rv))
            }
        }),
        (forall|k: int| 0 <= k < old(fresh)@.len() ==> (#[trigger] old(fresh)@[k]).statements@.len() == 0) ==> (forall|
            k: int,
        | 0 <= k < final(fresh)@.len() ==> (#[trigger] final(fresh)@[k]).statements@.len() == 0),
{
    if let Some(c) = lookup_handler_exec(&route.2, table) {
        return c;
    }
    let sig = synthetic_signature_exec(route.0, &route.1);
    let mut keyed = chars_of(file_path);
    crate::text::append_chars(&mut keyed, &chars_of("::"));
    crate::text::append_chars(&mut keyed, &sig);
    crate::text::append_chars(&mut keyed, &chars_of("::"));
    crate::text::append_chars(&mut keyed, &route.2);
    assert(keyed@ =~= file_path@ + "::"@ + sig@ + "::"@ + route.2@);
    let hash = crate::hashing::hash_text(string_of(&keyed).as_str());
    let hash_chars = text_of(&hash);
    if !crate::go::shared::seen_contains(seen, &hash_chars) {
        let ghost before = fresh@;
        let ghost seen_before = seen@;
        fresh.push(ParsedCallable { metadata: bare(&route.2, &sig, file_path, &hash), statements: Vec::new() });
        seen.push(hash_chars);
        assert(views(seen@) =~= views(seen_before).push(hash@));
        assert(parsed_view(fresh@) =~= parsed_view(before).push(
            synthetic_record(file_path@, (route.0, route.1@, route.2@)),
        ));
        assert(hashes_of(parsed_view(fresh@)) =~= hashes_of(parsed_view(before)).push(hash@));
    }
    bare(&sig, &sig, file_path, &hash)
}

/// The endpoints a Go syntax tree registers, in pre-order of their call
/// nodes, each bound to the callable of the lookup table that its handler
/// names or else to a synthetic handler; the synthetic handlers are added
/// to `synthetic`, each hash once.
pub fn collect_endpoints(
    root: &GoNode,
    file_path: &str,
    assignments: &Vec<(AssignmentKey, Assignment)>,
    imports: &Vec<Import>,
    callable_lookup: &Vec<(String, Callable)>,
    synthetic: &mut Vec<ParsedCallable>,
) -> (r: Vec<Endpoint>)
    ensures
        endpoints_view(r@) == tree_routes(*root, assignments@, imports@).map_values(
            |x: RouteMatch| route_endpoint(file_path@, x, table_view(callable_lookup@)),
        ),
        parsed_view(final(synthetic)@) == parsed_view(old(synthetic)@) + synthetic_records(
            file_path@,
            tree_routes(*root, assignments@, imports@),
            table_view(callable_lookup@),
        ),
        final(synthetic)@.len() >= old(synthetic)@.len(),
        forall|k: int| 0 <= k < old(synthetic)@.len() ==> #[trigger] final(synthetic)@[k] == old(synthetic)@[k],
        forall|k: int|
            old(synthetic)@.len() <= k < final(synthetic)@.len() ==> (#[trigger] final(synthetic)@[k]).statements@.len()
                == 0,
{
    let globals = global_bindings_exec(assignments);
    let mut nodes: Vec<&GoNode> = Vec::new();
    collect_preorder(root, &mut nodes);
    let ghost ns = derefs(nodes@);
    assert(ns =~= preorder(*root));
    let ghost m = globals@;
    let ghost tv = table_view(callable_lookup@);
    let mut endpoints: Vec<Endpoint> = Vec::new();
    let mut fresh: Vec<ParsedCallable> = Vec::new();
    let mut seen: Vec<Vec<char>> = Vec::new();
    let mut i: usize = 0;
    while i < nodes.len()
        invariant
            i <= nodes@.len(),
            ns == derefs(nodes@),
            ns == preorder(*root),
            m == globals@,
            m == global_bindings(assignments@).0,
            tv == table_view(callable_lookup@),
            endpoints_view(endpoints@) == routes_of(ns.take(i as int), m, assignments@, imports@).map_values(
                |x: RouteMatch| route_endpoint(file_path@, x, tv),
            ),
            parsed_view(fresh@) == synthetic_records(file_path@, routes_of(ns.take(i as int), m, assignments@, imports@), tv),
            views(seen@) == hashes_of(parsed_view(fresh@)),
            forall|k: int| 0 <= k < fresh@.len() ==> (#[trigger] fresh@[k]).statements@.len() == 0,
        decreases nodes.len() - i,
    {
        let n = nodes[i];
        let ghost rs0 = routes_of(ns.take(i as int), m, assignments@, imports@);
        assert(ns.take(i + 1).drop_last() =~= ns.take(i as int));
        assert(ns.take(i + 1).last() == *n);
        let ghost rs1 = routes_of(ns.take(i + 1), m, assignments@, imports@);
        if chars_eq(&text_of(&n.kind), &chars_of("call_expression")) {
            match identify_route_exec(n, &globals, assignments, imports) {
                Some(route) => {
                    let ghost rv = (route.0, route.1@, route.2@);
                    assert(rs1 == rs0.push(rv));
                    assert(rs1.drop_last() =~= rs0);
                    let h = route_handler_exec(file_path, &route, callable_lookup, &mut fresh, &mut seen);
                    let ghost before = endpoints_view(endpoints@);
                    let e = Endpoint {
                        function_name: h.signature,
                        function_hash: h.hash,
                        http_method: route.0,
                        parameters: Vec::new(),
                        uri: string_of(&route.1),
                        file_path: file_path.to_string(),
                        router_variable: None,
                    };
                    assert(crate::model::parameters_view(e.parameters@) =~= Seq::empty());
                    endpoints.push(e);
                    assert(endpoints_view(endpoints@) =~= before.push(route_endpoint(file_path@, rv, tv)));
                    assert(rs1.map_values(|x: RouteMatch| route_endpoint(file_path@, x, tv)) =~= rs0.map_values(
                        |x: RouteMatch| route_endpoint(file_path@, x, tv),
                    ).push(route_endpoint(file_path@, rv, tv)));
                },
                None => {
                    assert(rs1 =~= rs0);
                },
            }
        } else {
            assert(rs1 =~= rs0);
        }
        i = i + 1;
    }
    assert(ns.take(ns.len() as int) =~= ns);
    let ghost base = synthetic@;
    let ghost fv = fresh@;
    synthetic.append(&mut fresh);
    assert(synthetic@ =~= base + fv);
    assert(parsed_view(synthetic@) =~= parsed_view(base) + parsed_view(fv));
    assert forall|k: int| base.len() <= k < synthetic@.len() implies (#[trigger] synthetic@[k]).statements@.len() == 0 by {
        assert(synthetic@[k] == fv[k - base.len()]);
    }
    endpoints
}

} // verus!
