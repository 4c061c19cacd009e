//! Identification of a Go file's outgoing requests and message edges, with
//! the globals and callables of its package.
use vstd::prelude::*;

use crate::bindings::Bindings;
use crate::go::identify::{globals_view, identify_restcall, identify_scope, is_restcall_of, restcall_target};
use crate::go::message_edge_strategies::{call_edges_ok, edge_count, identify_message_edges, message_scope, rabbit_applies};
use crate::go::message_edges::message_call_safe;
use crate::model::{scope_view, Assignment, AssignmentKey, CallStatement, HttpMethod, MessageEdge, ParsedCallable, RestCall, TypedFileRecord};

verus! {

/// The request a call of a file makes, evaluated with the package's globals
/// (and their order) and callables.
pub open spec fn call_target(
    file: TypedFileRecord,
    call: CallStatement,
    globals: (Map<Seq<char>, Seq<char>>, Seq<Seq<char>>),
    cs: Seq<ParsedCallable>,
) -> Option<(HttpMethod, Seq<char>)> {
    restcall_target(file.imports@, file.endpoints@, call, identify_scope(file.assignments@, call, Some(globals), cs), cs)
}

/// The requests of the calls, each with the index of its call.
pub open spec fn rest_targets(
    file: TypedFileRecord,
    calls: Seq<CallStatement>,
    globals: (Map<Seq<char>, Seq<char>>, Seq<Seq<char>>),
    cs: Seq<ParsedCallable>,
) -> Seq<(int, HttpMethod, Seq<char>)>
    decreases calls.len(),
{
    if calls.len() == 0 {
        Seq::empty()
    } else {
        rest_targets(file, calls.drop_last(), globals, cs) + match call_target(file, calls.last(), globals, cs) {
            Some((m, u)) => seq![(calls.len() - 1, m, u)],
            None => Seq::empty(),
        }
    }
}

/// `rs` are the requests of the calls, in order.
pub open spec fn restcalls_match(
    rs: Seq<RestCall>,
    file: TypedFileRecord,
    calls: Seq<CallStatement>,
    globals: (Map<Seq<char>, Seq<char>>, Seq<Seq<char>>),
    cs: Seq<ParsedCallable>,
) -> bool {
    requests_at(rs, calls, file.file_path@, rest_targets(file, calls, globals, cs))
}

/// `rs` are the requests `t` names: for each, the call it is made at, its
/// method and its URI.
pub open spec fn requests_at(
    rs: Seq<RestCall>,
    calls: Seq<CallStatement>,
    file_path: Seq<char>,
    t: Seq<(int, HttpMethod, Seq<char>)>,
) -> bool {
    &&& rs.len() == t.len()
    &&& forall|k: int|
        0 <= k < t.len() ==> 0 <= t[k].0 < calls.len() && #[trigger] is_restcall_of(
            rs[k],
            calls[t[k].0],
            file_path,
            t[k].1,
            t[k].2,
        )
}

/// `es` are the message edges of the calls, call by call; channel calls
/// are read whatever the file imports.
pub open spec fn edges_match(es: Seq<MessageEdge>, file: TypedFileRecord, calls: Seq<CallStatement>) -> bool
    decreases calls.len(),
{
    if calls.len() == 0 {
        es.len() == 0
    } else {
        let n = edge_count(file, calls.last(), false);
        &&& n <= es.len()
        &&& edges_match(es.take(es.len() - n), file, calls.drop_last())
        &&& call_edges_ok(es.skip(es.len() - n), file, calls.last(), false)
    }
}

/// Every call that the RabbitMQ channel recogniser reads has arguments it
/// can clean.
pub open spec fn messages_readable(file: TypedFileRecord) -> bool {
    forall|i: int|
        0 <= i < file.call_statements@.len() && rabbit_applies(file, #[trigger] file.call_statements@[i], false)
            ==> message_call_safe(file.call_statements@[i], message_scope(file, file.call_statements@[i]))
}

/// Whether every channel call of a file has arguments the recogniser can
/// read.
pub fn messages_readable_exec(file: &TypedFileRecord) -> (r: bool)
    ensures
        r == messages_readable(*file),
{
    let calls = &file.call_statements;
    let mut i: usize = 0;
    while i < calls.len()
        invariant
            i <= calls@.len(),
            *calls == file.call_statements,
            forall|j: int| 0 <= j < i ==> message_call_safe(#[trigger] calls@[j], message_scope(*file, calls@[j])),
        decreases calls.len() - i,
    {
        let call = &calls[i];
        let mut scope = Bindings::new();
        crate::go::identify::bind_scope_exec(&mut scope, &file.assignments, &crate::model::Scope::Global);
        let s = match &call.enclosing_function_name {
            Some(n) => crate::model::Scope::Function(n.clone()),
            None => crate::model::Scope::Global,
        };
        crate::go::identify::bind_scope_exec(&mut scope, &file.assignments, &s);
        assert(scope@ == message_scope(*file, *call));
        if !crate::go::message_edges::message_call_safe_exec(call, &scope) {
            return false;
        }
        i = i + 1;
    }
    true
}

proof fn lemma_rest_targets_index(
    file: TypedFileRecord,
    calls: Seq<CallStatement>,
    globals: (Map<Seq<char>, Seq<char>>, Seq<Seq<char>>),
    cs: Seq<ParsedCallable>,
)
    ensures
        forall|k: int|
            0 <= k < rest_targets(file, calls, globals, cs).len() ==> 0 <= (#[trigger] rest_targets(
                file,
                calls,
                globals,
                cs,
            )[k]).0 < calls.len(),
    decreases calls.len(),
{
    if calls.len() > 0 {
        lemma_rest_targets_index(file, calls.drop_last(), globals, cs);
        let p = rest_targets(file, calls.drop_last(), globals, cs);
        let t = rest_targets(file, calls, globals, cs);
        assert forall|k: int| 0 <= k < t.len() implies 0 <= (#[trigger] t[k]).0 < calls.len() by {
            if k < p.len() {
                assert(t[k] == p[k]);
            }
        }
    }
}

/// The requests and message edges of a file's calls.
fn identify_records(file: &TypedFileRecord, globals: &Bindings, callables: &Vec<ParsedCallable>) -> (r: (
    Vec<RestCall>,
    Vec<MessageEdge>,
))
    requires
        messages_readable(*file),
    ensures
        restcalls_match(r.0@, *file, file.call_statements@, (globals@, globals.keys()), callables@),
        edges_match(r.1@, *file, file.call_statements@),
{
    let calls = &file.call_statements;
    let ghost g = (globals@, globals.keys());
    let mut restcalls: Vec<RestCall> = Vec::new();
    let mut edges: Vec<MessageEdge> = Vec::new();
    let mut i: usize = 0;
    while i < calls.len()
        invariant
            i <= calls@.len(),
            calls@ == file.call_statements@,
            g == (globals@, globals.keys()),
            messages_readable(*file),
            restcalls_match(restcalls@, *file, calls@.take(i as int), g, callables@),
            edges_match(edges@, *file, calls@.take(i as int)),
        decreases calls.len() - i,
    {
        let ghost taken = calls@.take(i + 1);
        assert(taken.drop_last() =~= calls@.take(i as int));
        assert(taken.last() == calls@[i as int]);
        let call = &calls[i];
        let ghost before_r = restcalls@;
        proof {
            lemma_rest_targets_index(*file, calls@.take(i as int), g, callables@);
        }
        match identify_restcall(file, call, Some(globals), callables) {
            Some(rc) => {
                restcalls.push(rc);
            },
            None => {},
        }
        proof {
            let t0 = rest_targets(*file, calls@.take(i as int), g, callables@);
            let t1 = rest_targets(*file, taken, g, callables@);
            assert(globals_view(Some(globals)) == Some(g));
            assert forall|k: int| 0 <= k < t1.len() implies 0 <= t1[k].0 < taken.len() && #[trigger] is_restcall_of(
                restcalls@[k],
                taken[t1[k].0],
                file.file_path@,
                t1[k].1,
                t1[k].2,
            ) by {
                if k < t0.len() {
                    assert(t1[k] == t0[k]);
                    assert(restcalls@[k] == before_r[k]);
                    assert(taken[t0[k].0] == calls@.take(i as int)[t0[k].0]);
                }
            }
        }
        let ghost before_e = edges@;
        assert(rabbit_applies(*file, calls@[i as int], false) ==> message_call_safe(
            calls@[i as int],
            message_scope(*file, calls@[i as int]),
        ));
        let mut more = identify_message_edges(file, call, false);
        let ghost m = more@;
        edges.append(&mut more);
        proof {
            assert(edges@ =~= before_e + m);
            assert(edges@.take(edges@.len() - m.len()) =~= before_e);
            assert(edges@.skip(edges@.len() - m.len()) =~= m);
        }
        i = i + 1;
    }
    assert(calls@.take(calls@.len() as int) =~= calls@);
    (restcalls, edges)
}

/// Records the requests and message edges of a file's calls, evaluated
/// with its package's globals and callables; nothing else changes.
pub fn identify_with_package_context(
    file: &mut TypedFileRecord,
    package_globals: &Bindings,
    package_callables: &Vec<ParsedCallable>,
)
    requires
        messages_readable(*old(file)),
    ensures
        restcalls_match(
            final(file).raw_restcalls@,
            *old(file),
            old(file).call_statements@,
            (package_globals@, package_globals.keys()),
            package_callables@,
        ),
        edges_match(final(file).raw_message_edges@, *old(file), old(file).call_statements@),
        final(file).file_path == old(file).file_path,
        final(file).language == old(file).language,
        final(file).imports == old(file).imports,
        final(file).endpoints == old(file).endpoints,
        final(file).callables == old(file).callables,
        final(file).call_statements == old(file).call_statements,
        final(file).assignments == old(file).assignments,
{
    let (restcalls, edges) = identify_records(&*file, package_globals, package_callables);
    file.raw_restcalls = restcalls;
    file.raw_message_edges = edges;
}

/// The global names a file's assignments bind (a later binding of a name
/// replacing an earlier one), and the order names were first bound in.
pub open spec fn global_bindings(a: Seq<(AssignmentKey, Assignment)>) -> (Map<Seq<char>, Seq<char>>, Seq<Seq<char>>)
    decreases a.len(),
{
    if a.len() == 0 {
        (Map::empty(), Seq::empty())
    } else {
        let (m, keys) = global_bindings(a.drop_last());
        let e = a.last();
        if scope_view(e.0.scope) == (0int, Seq::<char>::empty()) {
            (
                m.insert(e.1.variable_name@, e.1.value@),
                if m.contains_key(e.1.variable_name@) {
                    keys
                } else {
                    keys.push(e.1.variable_name@)
                },
            )
        } else {
            (m, keys)
        }
    }
}

pub fn global_bindings_exec(a: &Vec<(AssignmentKey, Assignment)>) -> (r: Bindings)
    ensures
        (r@, r.keys()) == global_bindings(a@),
{
    let mut b = Bindings::new();
    let mut i: usize = 0;
    while i < a.len()
        invariant
            i <= a@.len(),
            (b@, b.keys()) == global_bindings(a@.take(i as int)),
        decreases a.len() - i,
    {
        assert(a@.take(i + 1).drop_last() =~= a@.take(i as int));
        assert(a@.take(i + 1).last() == a@[i as int]);
        let (k, v) = &a[i];
        match k.scope {
            crate::model::Scope::Global => {
                b.insert(v.variable_name.clone(), v.value.clone());
            },
            _ => {},
        }
        i = i + 1;
    }
    assert(a@.take(a@.len() as int) =~= a@);
    b
}

/// Records the requests and message edges of a file's calls, evaluated
/// with the file's own globals and callables; nothing else changes.
pub fn identify(file: &mut TypedFileRecord)
    requires
        messages_readable(*old(file)),
    ensures
        restcalls_match(
            final(file).raw_restcalls@,
            *old(file),
            old(file).call_statements@,
            global_bindings(old(file).assignments@),
            old(file).callables@,
        ),
        edges_match(final(file).raw_message_edges@, *old(file), old(file).call_statements@),
        final(file).file_path == old(file).file_path,
        final(file).language == old(file).language,
        final(file).imports == old(file).imports,
        final(file).endpoints == old(file).endpoints,
        final(file).callables == old(file).callables,
        final(file).call_statements == old(file).call_statements,
        final(file).assignments == old(file).assignments,
{
    let globals = global_bindings_exec(&file.assignments);
    let (restcalls, edges) = identify_records(&*file, &globals, &file.callables);
    file.raw_restcalls = restcalls;
    file.raw_message_edges = edges;
}

} // verus!
