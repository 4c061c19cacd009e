//! Concrete message edges for the call sites of the callables that declare
//! them: each transport field is resolved through the call's arguments, the
//! callee file's aliases and the constants known across the service.
use vstd::prelude::*;

use crate::bindings::Bindings;
use crate::go::edge_values::{is_go, opts_view, pairs_view, values_for, values_for_exec};
use crate::go::grpc::{client_service_name, client_service_name_exec, upper_first, upper_first_exec};
use crate::model::{
    copy_arguments, copy_opt, opt_view, same_arguments, CommunicationProtocol, MessageDestinationKind,
    Language, MessageEdge, MessageRole, ParsedCallable, TypedFileRecord,
};
use crate::sorting::texts;
use crate::text::{
    after_last, after_last_exec, chars_eq, chars_of, split_once, split_once_exec, string_of, strip_suffix,
    strip_suffix_exec, text_of,
};

verus! {

/// The transport fields of an edge that resolution sets: destination,
/// exchange, routing key, queue, topic and the file it is reported in.
pub type EdgeFields = (
    Seq<char>,
    Option<Seq<char>>,
    Option<Seq<char>>,
    Option<Seq<char>>,
    Option<Seq<char>>,
    Seq<char>,
);

/// What an edge is, which resolution keeps: protocol, role and the kind of
/// its destination.
pub type EdgeKind = (CommunicationProtocol, MessageRole, MessageDestinationKind);

pub open spec fn fields_of(e: MessageEdge) -> EdgeFields {
    (e.destination@, opt_view(e.exchange), opt_view(e.routing_key), opt_view(e.queue), opt_view(e.topic), e.file_path@)
}

pub open spec fn kind_of(e: MessageEdge) -> EdgeKind {
    (e.protocol, e.role, e.destination_kind)
}

/// `r` is `e` with (at most) its transport fields changed.
pub open spec fn same_base(r: MessageEdge, e: MessageEdge) -> bool {
    &&& kind_of(r) == kind_of(e)
    &&& opt_view(r.handler) == opt_view(e.handler)
    &&& r.function_name@ == e.function_name@
    &&& r.function_hash@ == e.function_hash@
    &&& same_arguments(r.call_arguments@, e.call_arguments@)
}

pub proof fn lemma_same_base_trans(a: MessageEdge, b: MessageEdge, c: MessageEdge)
    requires
        same_base(a, b),
        same_base(b, c),
    ensures
        same_base(a, c),
{
    let x = a.call_arguments@;
    let y = b.call_arguments@;
    let z = c.call_arguments@;
    assert forall|i: int| 0 <= i < x.len() implies {
        &&& #[trigger] x[i].value@ == z[i].value@
        &&& x[i].assigned_variable@ == z[i].assigned_variable@
        &&& opt_view(x[i].datatype) == opt_view(z[i].datatype)
    } by {
        assert(x[i].value@ == y[i].value@);
        assert(y[i].value@ == z[i].value@);
    }
    assert(same_arguments(x, z));
}

pub proof fn lemma_same_base_refl(a: MessageEdge)
    ensures
        same_base(a, a),
{
}

/// `e` with the given transport fields.
pub fn edge_with(
    e: &MessageEdge,
    destination: String,
    exchange: Option<String>,
    routing_key: Option<String>,
    queue: Option<String>,
    topic: Option<String>,
    file_path: String,
) -> (r: MessageEdge)
    ensures
        same_base(r, *e),
        fields_of(r) == (destination@, opt_view(exchange), opt_view(routing_key), opt_view(queue), opt_view(topic), file_path@),
{
    MessageEdge {
        protocol: e.protocol,
        role: e.role,
        destination_kind: e.destination_kind,
        destination,
        exchange,
        routing_key,
        queue,
        topic,
        handler: copy_opt(&e.handler),
        function_name: e.function_name.clone(),
        function_hash: e.function_hash.clone(),
        call_arguments: copy_arguments(&e.call_arguments),
        file_path,
    }
}

/// The destination rebuilt from resolved fields: the topic for Kafka and
/// topic destinations; `exchange:key`, the key, the exchange or the queue
/// for a producer or binding; the queue for the other roles; else the old
/// destination.
pub open spec fn destination(
    old: Seq<char>,
    k: EdgeKind,
    exchange: Option<Seq<char>>,
    routing_key: Option<Seq<char>>,
    queue: Option<Seq<char>>,
    topic: Option<Seq<char>>,
) -> Seq<char> {
    if k.0 == CommunicationProtocol::Kafka || k.2 == MessageDestinationKind::Topic {
        match topic {
            Some(t) => t,
            None => old,
        }
    } else if k.1 == MessageRole::Producer || k.1 == MessageRole::Binding {
        match (exchange, routing_key) {
            (Some(x), Some(r)) => if x.len() > 0 {
                x + seq![':'] + r
            } else {
                r
            },
            (_, Some(r)) => r,
            (Some(x), _) => x,
            _ => match queue {
                Some(q) => q,
                None => old,
            },
        }
    } else {
        match queue {
            Some(q) => q,
            None => old,
        }
    }
}

fn opt_chars(o: &Option<String>) -> (r: Option<Vec<char>>)
    ensures
        r matches Some(v) ==> opt_view(*o) == Some(v@),
        r is None ==> opt_view(*o) is None,
{
    match o {
        Some(s) => Some(text_of(s)),
        None => None,
    }
}

fn destination_exec(
    old: &String,
    k: EdgeKind,
    exchange: &Option<String>,
    routing_key: &Option<String>,
    queue: &Option<String>,
    topic: &Option<String>,
) -> (r: String)
    ensures
        r@ == destination(old@, k, opt_view(*exchange), opt_view(*routing_key), opt_view(*queue), opt_view(*topic)),
{
    if k.0 == CommunicationProtocol::Kafka || k.2 == MessageDestinationKind::Topic {
        return match topic {
            Some(t) => t.clone(),
            None => old.clone(),
        };
    }
    let fallback = match queue {
        Some(q) => q.clone(),
        None => old.clone(),
    };
    if k.1 == MessageRole::Producer || k.1 == MessageRole::Binding {
        match (opt_chars(exchange), opt_chars(routing_key)) {
            (Some(x), Some(r)) => if x.len() > 0 {
                let mut d = x;
                d.push(':');
                crate::text::append_chars(&mut d, &r);
                assert(d@ =~= opt_view(*exchange)->0 + seq![':'] + opt_view(*routing_key)->0);
                string_of(&d)
            } else {
                string_of(&r)
            },
            (_, Some(r)) => string_of(&r),
            (Some(x), _) => string_of(&x),
            _ => fallback,
        }
    } else {
        fallback
    }
}

/// One set of fields for each choice of exchange, routing key, queue and
/// topic, in that nesting order, with the destination rebuilt from them.
pub open spec fn over_topics(
    f: EdgeFields,
    k: EdgeKind,
    x: Option<Seq<char>>,
    r: Option<Seq<char>>,
    q: Option<Seq<char>>,
    ts: Seq<Option<Seq<char>>>,
) -> Seq<EdgeFields> {
    ts.map_values(|t: Option<Seq<char>>| (destination(f.0, k, x, r, q, t), x, r, q, t, f.5))
}

pub open spec fn over_queues(
    f: EdgeFields,
    k: EdgeKind,
    x: Option<Seq<char>>,
    r: Option<Seq<char>>,
    qs: Seq<Option<Seq<char>>>,
    ts: Seq<Option<Seq<char>>>,
) -> Seq<EdgeFields>
    decreases qs.len(),
{
    if qs.len() == 0 {
        Seq::empty()
    } else {
        over_queues(f, k, x, r, qs.drop_last(), ts) + over_topics(f, k, x, r, qs.last(), ts)
    }
}

pub open spec fn over_keys(
    f: EdgeFields,
    k: EdgeKind,
    x: Option<Seq<char>>,
    rs: Seq<Option<Seq<char>>>,
    qs: Seq<Option<Seq<char>>>,
    ts: Seq<Option<Seq<char>>>,
) -> Seq<EdgeFields>
    decreases rs.len(),
{
    if rs.len() == 0 {
        Seq::empty()
    } else {
        over_keys(f, k, x, rs.drop_last(), qs, ts) + over_queues(f, k, x, rs.last(), qs, ts)
    }
}

pub open spec fn cartesian(
    f: EdgeFields,
    k: EdgeKind,
    xs: Seq<Option<Seq<char>>>,
    rs: Seq<Option<Seq<char>>>,
    qs: Seq<Option<Seq<char>>>,
    ts: Seq<Option<Seq<char>>>,
) -> Seq<EdgeFields>
    decreases xs.len(),
{
    if xs.len() == 0 {
        Seq::empty()
    } else {
        cartesian(f, k, xs.drop_last(), rs, qs, ts) + over_keys(f, k, xs.last(), rs, qs, ts)
    }
}

/// The view of a list of edges' transport fields.
pub open spec fn edges_fields(v: Seq<MessageEdge>) -> Seq<EdgeFields> {
    v.map_values(|e: MessageEdge| fields_of(e))
}

/// All edges of `v` are `e` with other transport fields.
pub open spec fn all_based_on(v: Seq<MessageEdge>, e: MessageEdge) -> bool {
    forall|i: int| 0 <= i < v.len() ==> #[trigger] same_base(v[i], e)
}

pub(crate) fn push_edge(out: &mut Vec<MessageEdge>, r: MessageEdge, Ghost(e): Ghost<MessageEdge>)
    requires
        all_based_on(old(out)@, e),
        same_base(r, e),
    ensures
        final(out)@ == old(out)@.push(r),
        all_based_on(final(out)@, e),
        edges_fields(final(out)@) == edges_fields(old(out)@).push(fields_of(r)),
{
    let ghost before = out@;
    out.push(r);
    assert(edges_fields(out@) =~= edges_fields(before).push(fields_of(r)));
}

fn copy_opt_string(o: &Option<String>) -> (r: Option<String>)
    ensures
        opt_view(r) == opt_view(*o),
{
    copy_opt(o)
}

/// Produces one edge for every combination of resolved transport fields.
fn cartesian_edges(
    e: &MessageEdge,
    xs: &Vec<Option<String>>,
    rs: &Vec<Option<String>>,
    qs: &Vec<Option<String>>,
    ts: &Vec<Option<String>>,
) -> (r: Vec<MessageEdge>)
    ensures
        edges_fields(r@) == cartesian(fields_of(*e), kind_of(*e), opts_view(xs@), opts_view(rs@), opts_view(qs@), opts_view(ts@)),
        all_based_on(r@, *e),
{
    let ghost f = fields_of(*e);
    let ghost k = kind_of(*e);
    let ghost xv = opts_view(xs@);
    let ghost rv = opts_view(rs@);
    let ghost qv = opts_view(qs@);
    let ghost tv = opts_view(ts@);
    let mut out: Vec<MessageEdge> = Vec::new();
    let mut a: usize = 0;
    while a < xs.len()
        invariant
            a <= xs@.len(),
            xv == opts_view(xs@),
            rv == opts_view(rs@),
            qv == opts_view(qs@),
            tv == opts_view(ts@),
            f == fields_of(*e),
            k == kind_of(*e),
            all_based_on(out@, *e),
            edges_fields(out@) == cartesian(f, k, xv.take(a as int), rv, qv, tv),
        decreases xs.len() - a,
    {
        let ghost s0 = edges_fields(out@);
        let mut b: usize = 0;
        while b < rs.len()
            invariant
                a < xs@.len(),
                b <= rs@.len(),
                xv == opts_view(xs@),
                rv == opts_view(rs@),
                qv == opts_view(qs@),
                tv == opts_view(ts@),
                f == fields_of(*e),
                k == kind_of(*e),
                all_based_on(out@, *e),
                edges_fields(out@) == s0 + over_keys(f, k, xv[a as int], rv.take(b as int), qv, tv),
            decreases rs.len() - b,
        {
            let ghost s1 = edges_fields(out@);
            let mut c: usize = 0;
            while c < qs.len()
                invariant
                    a < xs@.len(),
                    b < rs@.len(),
                    c <= qs@.len(),
                    xv == opts_view(xs@),
                    rv == opts_view(rs@),
                    qv == opts_view(qs@),
                    tv == opts_view(ts@),
                    f == fields_of(*e),
                    k == kind_of(*e),
                    all_based_on(out@, *e),
                    edges_fields(out@) == s1 + over_queues(f, k, xv[a as int], rv[b as int], qv.take(c as int), tv),
                decreases qs.len() - c,
            {
                let ghost s2 = edges_fields(out@);
                let mut d: usize = 0;
                while d < ts.len()
                    invariant
                        a < xs@.len(),
                        b < rs@.len(),
                        c < qs@.len(),
                        d <= ts@.len(),
                        xv == opts_view(xs@),
                        rv == opts_view(rs@),
                        qv == opts_view(qs@),
                        tv == opts_view(ts@),
                        f == fields_of(*e),
                        k == kind_of(*e),
                        all_based_on(out@, *e),
                        edges_fields(out@) == s2 + over_topics(f, k, xv[a as int], rv[b as int], qv[c as int], tv.take(d as int)),
                    decreases ts.len() - d,
                {
                    let dest = destination_exec(
                        &e.destination,
                        (e.protocol, e.role, e.destination_kind),
                        &xs[a],
                        &rs[b],
                        &qs[c],
                        &ts[d],
                    );
                    let r = edge_with(
                        e,
                        dest,
                        copy_opt_string(&xs[a]),
                        copy_opt_string(&rs[b]),
                        copy_opt_string(&qs[c]),
                        copy_opt_string(&ts[d]),
                        e.file_path.clone(),
                    );
                    let ghost s3 = edges_fields(out@);
                    push_edge(&mut out, r, Ghost(*e));
                    assert(over_topics(f, k, xv[a as int], rv[b as int], qv[c as int], tv.take(d + 1))
                        =~= over_topics(f, k, xv[a as int], rv[b as int], qv[c as int], tv.take(d as int)).push(fields_of(r)));
                    assert(edges_fields(out@) =~= s2 + over_topics(f, k, xv[a as int], rv[b as int], qv[c as int], tv.take(d + 1)));
                    d = d + 1;
                }
                assert(tv.take(tv.len() as int) =~= tv);
                assert(qv.take(c + 1).drop_last() =~= qv.take(c as int));
                assert(edges_fields(out@) =~= s1 + over_queues(f, k, xv[a as int], rv[b as int], qv.take(c + 1), tv));
                c = c + 1;
            }
            assert(qv.take(qv.len() as int) =~= qv);
            assert(rv.take(b + 1).drop_last() =~= rv.take(b as int));
            assert(edges_fields(out@) =~= s0 + over_keys(f, k, xv[a as int], rv.take(b + 1), qv, tv));
            b = b + 1;
        }
        assert(rv.take(rv.len() as int) =~= rv);
        assert(xv.take(a + 1).drop_last() =~= xv.take(a as int));
        assert(edges_fields(out@) =~= cartesian(f, k, xv.take(a + 1), rv, qv, tv));
        a = a + 1;
    }
    assert(xv.take(xv.len() as int) =~= xv);
    out
}

/// The first Go file from `i` on whose path is `path`.
pub open spec fn go_position(files: Seq<TypedFileRecord>, path: Seq<char>, i: int) -> Option<int>
    decreases files.len() - i,
{
    if i < 0 || i >= files.len() {
        None
    } else if is_go(files[i]) && files[i].file_path@ == path {
        Some(i)
    } else {
        go_position(files, path, i + 1)
    }
}

pub proof fn lemma_go_position(files: Seq<TypedFileRecord>, path: Seq<char>, i: int)
    requires
        0 <= i,
    ensures
        go_position(files, path, i) matches Some(j) ==> i <= j < files.len() && is_go(files[j])
            && files[j].file_path@ == path,
    decreases files.len() - i,
{
    if i < files.len() && !(is_go(files[i]) && files[i].file_path@ == path) {
        lemma_go_position(files, path, i + 1);
    }
}

pub fn go_position_exec(files: &Vec<TypedFileRecord>, path: &[char]) -> (r: Option<usize>)
    ensures
        r matches Some(j) ==> go_position(files@, path@, 0) == Some(j as int) && j < files@.len(),
        r is None ==> go_position(files@, path@, 0) is None,
{
    let mut i: usize = 0;
    while i < files.len()
        invariant
            i <= files@.len(),
            go_position(files@, path@, 0) == go_position(files@, path@, i as int),
        decreases files.len() - i,
    {
        if files[i].language == Language::Go && chars_eq(&text_of(&files[i].file_path), path) {
            return Some(i);
        }
        i = i + 1;
    }
    None
}

/// A file's assignments as `(name, value)` pairs.
pub open spec fn file_pairs(f: TypedFileRecord) -> Seq<(Seq<char>, Seq<char>)> {
    f.assignments@.map_values(|e: (crate::model::AssignmentKey, crate::model::Assignment)| (e.1.variable_name@, e.1.value@))
}

pub fn file_pairs_exec(f: &TypedFileRecord) -> (r: Vec<(String, String)>)
    ensures
        pairs_view(r@) == file_pairs(*f),
{
    let mut r: Vec<(String, String)> = Vec::new();
    let mut i: usize = 0;
    while i < f.assignments.len()
        invariant
            i <= f.assignments@.len(),
            pairs_view(r@) == file_pairs(*f).take(i as int),
        decreases f.assignments.len() - i,
    {
        let a = &f.assignments[i].1;
        let n = a.variable_name.clone();
        let v = a.value.clone();
        let ghost before = pairs_view(r@);
        r.push((n, v));
        assert(pairs_view(r@) =~= before.push((n@, v@)));
        assert(file_pairs(*f)[i as int] == (n@, v@));
        assert(file_pairs(*f).take(i + 1) =~= file_pairs(*f).take(i as int).push((n@, v@)));
        i = i + 1;
    }
    assert(file_pairs(*f).take(file_pairs(*f).len() as int) =~= file_pairs(*f));
    r
}

/// Pairs as a map; a later pair of a name replaces an earlier one.
pub open spec fn pairs_map(p: Seq<(Seq<char>, Seq<char>)>) -> Map<Seq<char>, Seq<char>>
    decreases p.len(),
{
    if p.len() == 0 {
        Map::empty()
    } else {
        pairs_map(p.drop_last()).insert(p.last().0, p.last().1)
    }
}

pub fn pairs_map_exec(p: &Vec<(String, String)>) -> (r: Bindings)
    ensures
        r@ == pairs_map(pairs_view(p@)),
{
    let mut r = Bindings::new();
    let mut i: usize = 0;
    while i < p.len()
        invariant
            i <= p@.len(),
            r@ == pairs_map(pairs_view(p@).take(i as int)),
        decreases p.len() - i,
    {
        r.insert(p[i].0.clone(), p[i].1.clone());
        assert(pairs_view(p@).take(i + 1).drop_last() =~= pairs_view(p@).take(i as int));
        i = i + 1;
    }
    assert(pairs_view(p@).take(p@.len() as int) =~= pairs_view(p@));
    r
}

/// The aliases of the file that defines a callable.
pub open spec fn aliases_for(files: Seq<TypedFileRecord>, c: ParsedCallable) -> Map<Seq<char>, Seq<char>> {
    match go_position(files, c.metadata.file_path@, 0) {
        Some(i) => pairs_map(file_pairs(files[i])),
        None => Map::empty(),
    }
}

pub fn aliases_for_exec(files: &Vec<TypedFileRecord>, c: &ParsedCallable) -> (r: Bindings)
    ensures
        r@ == aliases_for(files@, *c),
{
    match go_position_exec(files, &text_of(&c.metadata.file_path)) {
        Some(i) => pairs_map_exec(&file_pairs_exec(&files[i])),
        None => Bindings::new(),
    }
}

/// The `Service/method` destinations that the values of an RPC receiver
/// name, from `vs[..k]`, each kept once.
pub open spec fn grpc_values(vs: Seq<Option<Seq<char>>>, method: Seq<char>, k: int) -> Seq<Seq<char>>
    decreases k,
{
    if k <= 0 || k > vs.len() {
        Seq::empty()
    } else {
        let p = grpc_values(vs, method, k - 1);
        match vs[k - 1] {
            Some(v) => match client_service_name(v) {
                Some(svc) => {
                    let d = svc + seq!['/'] + method;
                    if p.contains(d) {
                        p
                    } else {
                        p.push(d)
                    }
                },
                None => p,
            },
            None => p,
        }
    }
}

/// The naming fallback for a receiver field that no constructor explains:
/// `s.geoClient` calling `Nearby` gives `GeoService/Nearby`.
pub open spec fn fallback_grpc_destination(receiver: Seq<char>, method: Seq<char>) -> Option<Seq<char>> {
    match strip_suffix(after_last(receiver, '.'), "Client"@) {
        None => None,
        Some(svc) => if svc.len() == 0 {
            None
        } else {
            Some(upper_first(svc) + "Service/"@ + method)
        },
    }
}

pub fn fallback_grpc_destination_exec(receiver: &[char], method: &[char]) -> (r: Option<Vec<char>>)
    ensures
        r matches Some(d) ==> fallback_grpc_destination(receiver@, method@) == Some(d@),
        r is None ==> fallback_grpc_destination(receiver@, method@) is None,
{
    match strip_suffix_exec(&after_last_exec(receiver, '.'), &chars_of("Client")) {
        None => None,
        Some(svc) => if svc.len() == 0 {
            None
        } else {
            let mut d = upper_first_exec(&svc);
            crate::text::append_chars(&mut d, &chars_of("Service/"));
            crate::text::append_chars(&mut d, method);
            assert(d@ =~= upper_first(svc@) + "Service/"@ + method@);
            Some(d)
        },
    }
}

/// The destinations of an edge: its own for a non-RPC edge; for an RPC
/// `receiver/method`, the services the receiver's values construct clients
/// of, or the naming fallback, or the destination as it was.
pub open spec fn grpc_destinations(
    f: EdgeFields,
    k: EdgeKind,
    b: Map<Seq<char>, Seq<char>>,
    al: Map<Seq<char>, Seq<char>>,
    known: Seq<(Seq<char>, Seq<char>)>,
    c: ParsedCallable,
    files: Seq<TypedFileRecord>,
) -> Option<Seq<Seq<char>>> {
    if k.0 != CommunicationProtocol::Grpc {
        Some(seq![f.0])
    } else {
        match split_once(f.0, '/') {
            None => Some(seq![f.0]),
            Some((receiver, method)) => match values_for(Some(receiver), b, al, known, c, files) {
                None => None,
                Some(vs) => {
                    let r = grpc_values(vs, method, vs.len() as int);
                    if r.len() == 0 {
                        Some(
                            seq![
                                match fallback_grpc_destination(receiver, method) {
                                    Some(d) => d,
                                    None => f.0,
                                },
                            ],
                        )
                    } else {
                        Some(r)
                    }
                },
            },
        }
    }
}

fn one_text(t: Vec<char>) -> (r: Vec<Vec<char>>)
    ensures
        crate::text::views(r@) == seq![t@],
{
    let mut r: Vec<Vec<char>> = Vec::new();
    r.push(t);
    assert(crate::text::views(r@) =~= seq![r@[0]@]);
    r
}

pub fn views_contain(v: &Vec<Vec<char>>, t: &[char]) -> (r: bool)
    ensures
        r == crate::text::views(v@).contains(t@),
{
    let mut i: usize = 0;
    while i < v.len()
        invariant
            i <= v@.len(),
            forall|j: int| 0 <= j < i ==> v@[j]@ != t@,
        decreases v.len() - i,
    {
        if chars_eq(&v[i], t) {
            assert(crate::text::views(v@)[i as int] == t@);
            return true;
        }
        i = i + 1;
    }
    assert(!crate::text::views(v@).contains(t@)) by {
        if crate::text::views(v@).contains(t@) {
            let j = choose|j: int| 0 <= j < crate::text::views(v@).len() && crate::text::views(v@)[j] == t@;
            assert(v@[j]@ == t@);
        }
    }
    false
}

/// Resolves an RPC receiver retained by the gRPC extractor; `s.geoClient/Nearby`
/// becomes `Geo/Nearby` by following `geoClient` through `New()`.
fn grpc_destinations_exec(
    e: &MessageEdge,
    b: &Bindings,
    al: &Bindings,
    known: &Vec<(String, String)>,
    c: &ParsedCallable,
    files: &Vec<TypedFileRecord>,
) -> (r: Option<Vec<Vec<char>>>)
    ensures
        r matches Some(ds) ==> grpc_destinations(fields_of(*e), kind_of(*e), b@, al@, pairs_view(known@), *c, files@)
            == Some(crate::text::views(ds@)),
        r is None ==> grpc_destinations(fields_of(*e), kind_of(*e), b@, al@, pairs_view(known@), *c, files@) is None,
{
    let dest = text_of(&e.destination);
    if e.protocol != CommunicationProtocol::Grpc {
        return Some(one_text(dest));
    }
    let (receiver, method) = match split_once_exec(&dest, '/') {
        None => return Some(one_text(dest)),
        Some(p) => p,
    };
    let vs = match values_for_exec(&Some(string_of(&receiver)), b, al, known, c, files) {
        None => return None,
        Some(vs) => vs,
    };
    let ghost vv = opts_view(vs@);
    let mut out: Vec<Vec<char>> = Vec::new();
    let mut i: usize = 0;
    while i < vs.len()
        invariant
            i <= vs@.len(),
            vv == opts_view(vs@),
            crate::text::views(out@) == grpc_values(vv, method@, i as int),
        decreases vs.len() - i,
    {
        if let Some(v) = &vs[i] {
            if let Some(svc) = client_service_name_exec(&text_of(v)) {
                let mut d = svc;
                d.push('/');
                crate::text::append_chars(&mut d, &method);
                assert(d@ =~= client_service_name(v@)->0 + seq!['/'] + method@);
                if !views_contain(&out, &d) {
                    let ghost before = crate::text::views(out@);
                    out.push(d);
                    assert(crate::text::views(out@) =~= before.push(out@[out@.len() - 1]@));
                }
            }
        }
        i = i + 1;
    }
    if out.len() == 0 {
        let d = match fallback_grpc_destination_exec(&receiver, &method) {
            Some(d) => d,
            None => dest,
        };
        Some(one_text(d))
    } else {
        Some(out)
    }
}

/// Each kept set of cartesian fields once for every destination, reported in
/// `path`; for a binding whose queue and routing key are one name, only the
/// sets whose queue and key agree are kept.
pub open spec fn with_destinations(
    ce: Seq<EdgeFields>,
    dests: Seq<Seq<char>>,
    paired: bool,
    path: Seq<char>,
) -> Seq<EdgeFields>
    decreases ce.len(),
{
    if ce.len() == 0 {
        Seq::empty()
    } else {
        let c = ce.last();
        with_destinations(ce.drop_last(), dests, paired, path) + if !paired || c.3 == c.2 {
            dests.map_values(|d: Seq<char>| (d, c.1, c.2, c.3, c.4, path))
        } else {
            Seq::empty()
        }
    }
}

/// The resolved edges of one edge under parameter bindings `b`, reported in
/// `path`; `None` where a composite literal on the way cannot be read.
pub open spec fn resolve_edge_fields(
    f: EdgeFields,
    k: EdgeKind,
    b: Map<Seq<char>, Seq<char>>,
    path: Seq<char>,
    c: ParsedCallable,
    files: Seq<TypedFileRecord>,
    known: Seq<(Seq<char>, Seq<char>)>,
) -> Option<Seq<EdgeFields>> {
    let al = aliases_for(files, c);
    match (
        values_for(f.1, b, al, known, c, files),
        values_for(f.2, b, al, known, c, files),
        values_for(f.3, b, al, known, c, files),
        values_for(f.4, b, al, known, c, files),
        grpc_destinations(f, k, b, al, known, c, files),
    ) {
        (Some(xs), Some(rs), Some(qs), Some(ts), Some(ds)) => Some(
            with_destinations(
                cartesian(f, k, xs, rs, qs, ts),
                ds,
                k.1 == MessageRole::Binding && f.3 == f.2,
                path,
            ),
        ),
        _ => None,
    }
}

fn opt_eq(a: &Option<String>, b: &Option<String>) -> (r: bool)
    ensures
        r == (opt_view(*a) == opt_view(*b)),
{
    match (a, b) {
        (Some(x), Some(y)) => chars_eq(&text_of(x), &text_of(y)),
        (None, None) => true,
        _ => false,
    }
}

/// Resolves the transport fields of an edge with the given parameter
/// bindings, reporting the results in `path`.
pub fn resolve_edge_fields_exec(
    e: &MessageEdge,
    b: &Bindings,
    path: &String,
    c: &ParsedCallable,
    files: &Vec<TypedFileRecord>,
    known: &Vec<(String, String)>,
) -> (r: Option<Vec<MessageEdge>>)
    ensures
        r matches Some(vs) ==> resolve_edge_fields(fields_of(*e), kind_of(*e), b@, path@, *c, files@, pairs_view(known@))
            == Some(edges_fields(vs@)) && all_based_on(vs@, *e),
        r is None ==> resolve_edge_fields(fields_of(*e), kind_of(*e), b@, path@, *c, files@, pairs_view(known@)) is None,
{
    let al = aliases_for_exec(files, c);
    let xs = match values_for_exec(&e.exchange, b, &al, known, c, files) {
        Some(v) => v,
        None => return None,
    };
    let rs = match values_for_exec(&e.routing_key, b, &al, known, c, files) {
        Some(v) => v,
        None => return None,
    };
    let qs = match values_for_exec(&e.queue, b, &al, known, c, files) {
        Some(v) => v,
        None => return None,
    };
    let ts = match values_for_exec(&e.topic, b, &al, known, c, files) {
        Some(v) => v,
        None => return None,
    };
    let ds = match grpc_destinations_exec(e, b, &al, known, c, files) {
        Some(v) => v,
        None => return None,
    };
    let ce = cartesian_edges(e, &xs, &rs, &qs, &ts);
    let paired = e.role == MessageRole::Binding && opt_eq(&e.queue, &e.routing_key);
    let ghost cv = edges_fields(ce@);
    let ghost dv = crate::text::views(ds@);
    let mut out: Vec<MessageEdge> = Vec::new();
    let mut i: usize = 0;
    while i < ce.len()
        invariant
            i <= ce@.len(),
            cv == edges_fields(ce@),
            dv == crate::text::views(ds@),
            all_based_on(ce@, *e),
            all_based_on(out@, *e),
            edges_fields(out@) == with_destinations(cv.take(i as int), dv, paired, path@),
        decreases ce.len() - i,
    {
        let ci = &ce[i];
        let keep = !paired || opt_eq(&ci.queue, &ci.routing_key);
        let ghost s0 = edges_fields(out@);
        assert(cv.take(i + 1).drop_last() =~= cv.take(i as int));
        assert(cv.take(i + 1).last() == fields_of(*ci));
        if keep {
            let mut j: usize = 0;
            while j < ds.len()
                invariant
                    i < ce@.len(),
                    j <= ds@.len(),
                    *ci == ce@[i as int],
                    dv == crate::text::views(ds@),
                    all_based_on(ce@, *e),
                    all_based_on(out@, *e),
                    edges_fields(out@) == s0 + dv.take(j as int).map_values(
                        |d: Seq<char>| (d, fields_of(*ci).1, fields_of(*ci).2, fields_of(*ci).3, fields_of(*ci).4, path@),
                    ),
                decreases ds.len() - j,
            {
                let r = edge_with(
                    ci,
                    string_of(&ds[j]),
                    copy_opt(&ci.exchange),
                    copy_opt(&ci.routing_key),
                    copy_opt(&ci.queue),
                    copy_opt(&ci.topic),
                    path.clone(),
                );
                proof {
                    lemma_same_base_trans(r, *ci, *e);
                }
                let ghost s1 = edges_fields(out@);
                push_edge(&mut out, r, Ghost(*e));
                assert(dv[j as int] == ds@[j as int]@);
                assert(dv.take(j + 1) =~= dv.take(j as int).push(dv[j as int]));
                assert(edges_fields(out@) =~= s0 + dv.take(j + 1).map_values(
                    |d: Seq<char>| (d, fields_of(*ci).1, fields_of(*ci).2, fields_of(*ci).3, fields_of(*ci).4, path@),
                ));
                j = j + 1;
            }
            assert(dv.take(dv.len() as int) =~= dv);
        } else {
            assert(edges_fields(out@) =~= s0 + Seq::<EdgeFields>::empty());
        }
        i = i + 1;
    }
    assert(cv.take(cv.len() as int) =~= cv);
    Some(out)
}

} // verus!
