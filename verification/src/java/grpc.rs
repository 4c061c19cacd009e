//! gRPC in Java code: client calls through generated stubs and server
//! implementations of generated `ImplBase` classes, identified by the
//! shared operation URI `grpc://Service/Operation`.
use vstd::prelude::*;

use crate::go::grpc::{upper_first, upper_first_exec};
use crate::model::{
    copy_arguments, opt_or_empty, opt_or_empty_exec, same_arguments, CallStatement, Endpoint,
    HttpMethod, RestCall,
};
use crate::regexes::{captures_all, captures_view, first_captures, first_captures_exec, group, group_exec, groups_view, regex_captures};
use crate::text::{
    before_first, before_first_exec, chars_of, ends_with, ends_with_exec, lower, lower_exec,
    split_char, split_char_exec, starts_with, starts_with_exec, string_of, text_of, trim,
    trim_exec, views,
};
use crate::bindings::Bindings;
use crate::java::enclosing::{first_of_kind, get_enclosing_node_by_kind, lemma_first_of_kind};
use crate::java::source::{java_nodes_at, java_nodes_at_byte};

verus! {

/// A stub field declaration: `FlightServiceGrpc.FlightServiceBlockingStub stub`.
pub const STUB_FIELD_PATTERN: &'static str = r"(?m)\b(?P<service>[A-Za-z_][A-Za-z0-9_]*)Grpc\.[A-Za-z_][A-Za-z0-9_]*Stub\s+(?P<field>[A-Za-z_][A-Za-z0-9_]*)";

/// A stub field initialisation: `stub = FlightServiceGrpc.newBlockingStub(`.
pub const STUB_INIT_PATTERN: &'static str = r"(?m)\b(?P<field>[A-Za-z_][A-Za-z0-9_]*)\s*=\s*(?P<service>[A-Za-z_][A-Za-z0-9_]*)Grpc\.new(?:Blocking|Future|BlockingV2)?Stub\s*\(";

/// A call on a receiver: `stub.getById(`.
pub const RECEIVER_CALL_PATTERN: &'static str = r"(?P<receiver>[A-Za-z_][A-Za-z0-9_]*)\.(?P<operation>[a-z][A-Za-z0-9_]*)\s*\(";

/// A call on a freshly created stub: `FlightServiceGrpc.newBlockingStub(ch).getById(`.
pub const DIRECT_STUB_CALL_PATTERN: &'static str = r"\b(?P<service>[A-Za-z_][A-Za-z0-9_]*)Grpc\.new(?:Blocking|Future|BlockingV2)?Stub\s*\([^)]*\)\.(?P<operation>[a-z][A-Za-z0-9_]*)\s*\(";

/// A generated implementation base: `extends FlightServiceGrpc.FlightServiceImplBase`.
pub const SERVICE_PATTERN: &'static str = r"extends\s+(?P<service>[A-Za-z_][A-Za-z0-9_]*)Grpc\.[A-Za-z_][A-Za-z0-9_]*ImplBase";

/// A hand-written `BindableService` naming its descriptor.
pub const MANUAL_SERVICE_PATTERN: &'static str = r"(?s)\bimplements\s+[^\{]*\bBindableService\b.*?(?P<service>[A-Za-z_][A-Za-z0-9_]*)Grpc\.getServiceDescriptor\s*\(\)";

/// A method descriptor constant: `METHOD_GET_BY_ID`.
pub const METHOD_CONSTANT_PATTERN: &'static str = r"\bMETHOD_(?P<operation>[A-Z][A-Z0-9_]*)";

/// A method declaration returning `void`.
pub const METHOD_PATTERN: &'static str = r"(?m)\b(?:public|private|protected)\s+(?:static\s+)?void\s+(?P<operation>[a-z][A-Za-z0-9_]*)\s*\(";

/// The operation URI of a gRPC service method.
pub open spec fn grpc_uri(service: Seq<char>, operation: Seq<char>) -> Seq<char> {
    "grpc://"@ + service + seq!['/'] + operation
}

pub fn grpc_uri_exec(service: &[char], operation: &[char]) -> (r: Vec<char>)
    ensures
        r@ == grpc_uri(service@, operation@),
{
    let mut r = chars_of("grpc://");
    let ghost r0 = r@;
    crate::text::append_chars(&mut r, service);
    r.push('/');
    crate::text::append_chars(&mut r, operation);
    assert(r@ =~= r0 + service@ + seq!['/'] + operation@);
    r
}

pub open spec fn camel_tail(words: Seq<Seq<char>>) -> Seq<char>
    decreases words.len(),
{
    if words.len() == 0 {
        Seq::empty()
    } else {
        camel_tail(words.drop_last()) + upper_first(lower(words.last()))
    }
}

/// A constant's name in lower camel case: `GET_BY_ID` → `getById`.
pub open spec fn lower_camel_from_constant(v: Seq<char>) -> Seq<char> {
    let ws = split_char(v, '_');
    lower(ws[0]) + camel_tail(ws.skip(1))
}

pub fn lower_camel_from_constant_exec(v: &[char]) -> (r: Vec<char>)
    ensures
        r@ == lower_camel_from_constant(v@),
{
    let ws = split_char_exec(v, '_');
    let ghost wv = views(ws@);
    proof {
        crate::text::lemma_split_join(v@, '_');
    }
    let mut r = lower_exec(&ws[0]);
    let mut i: usize = 1;
    while i < ws.len()
        invariant
            1 <= i <= ws@.len(),
            wv == views(ws@),
            wv == split_char(v@, '_'),
            r@ == lower(wv[0]) + camel_tail(wv.skip(1).take(i - 1)),
        decreases ws.len() - i,
    {
        let ghost r0 = r@;
        crate::text::append_chars(&mut r, &upper_first_exec(&lower_exec(&ws[i])));
        assert(wv.skip(1).take(i as int).drop_last() =~= wv.skip(1).take(i - 1));
        assert(wv.skip(1).take(i as int).last() == wv[i as int]);
        assert(r@ =~= lower(wv[0]) + camel_tail(wv.skip(1).take(i as int)));
        i = i + 1;
    }
    assert(wv.skip(1).take(ws@.len() - 1) =~= wv.skip(1));
    r
}

/// The stubs a class holds: field name to service, from declarations and
/// then initialisations (a later one wins).
pub open spec fn stubs_from(
    m: Map<Seq<char>, Seq<char>>,
    caps: Seq<Seq<Option<Seq<char>>>>,
    field_group: int,
    service_group: int,
) -> Map<Seq<char>, Seq<char>>
    decreases caps.len(),
{
    if caps.len() == 0 {
        m
    } else {
        let prev = stubs_from(m, caps.drop_last(), field_group, service_group);
        match (group(caps.last(), field_group), group(caps.last(), service_group)) {
            (Some(f), Some(s)) => prev.insert(f, s),
            _ => prev,
        }
    }
}

pub open spec fn grpc_stubs(code: Seq<char>) -> Map<Seq<char>, Seq<char>> {
    stubs_from(
        stubs_from(Map::empty(), regex_captures(STUB_FIELD_PATTERN@, code), 2, 1),
        regex_captures(STUB_INIT_PATTERN@, code),
        1,
        2,
    )
}

fn stubs_from_exec(m: &mut Bindings, caps: &Vec<Vec<Option<String>>>, field_group: usize, service_group: usize)
    ensures
        final(m)@ == stubs_from(old(m)@, captures_view(caps@), field_group as int, service_group as int),
{
    let ghost m0 = m@;
    let ghost cv = captures_view(caps@);
    let mut i: usize = 0;
    while i < caps.len()
        invariant
            i <= caps@.len(),
            cv == captures_view(caps@),
            m@ == stubs_from(m0, cv.take(i as int), field_group as int, service_group as int),
        decreases caps.len() - i,
    {
        assert(cv.take(i + 1).drop_last() =~= cv.take(i as int));
        assert(cv.take(i + 1).last() == groups_view(caps@[i as int]@));
        match (group_exec(&caps[i], field_group), group_exec(&caps[i], service_group)) {
            (Some(f), Some(s)) => m.insert(f, s),
            _ => {},
        }
        i = i + 1;
    }
    assert(cv.take(caps@.len() as int) =~= cv);
}

/// The first call from `k` on whose name starts (or, with `suffix`, ends)
/// with `p`.
pub open spec fn first_call_from(calls: Seq<CallStatement>, k: int, p: Seq<char>, suffix: bool) -> Option<
    int,
>
    decreases calls.len() - k,
{
    if k < 0 || k >= calls.len() {
        None
    } else if (if suffix {
        ends_with(calls[k].function_name@, p)
    } else {
        starts_with(calls[k].function_name@, p)
    }) {
        Some(k)
    } else {
        first_call_from(calls, k + 1, p, suffix)
    }
}

fn first_call_exec(calls: &[CallStatement], p: &[char], suffix: bool) -> (r: Option<usize>)
    ensures
        r matches Some(i) ==> first_call_from(calls@, 0, p@, suffix) == Some(i as int) && i
            < calls@.len(),
        r is None ==> first_call_from(calls@, 0, p@, suffix) is None,
{
    let mut k: usize = 0;
    while k < calls.len()
        invariant
            k <= calls@.len(),
            first_call_from(calls@, 0, p@, suffix) == first_call_from(calls@, k as int, p@, suffix),
        decreases calls.len() - k,
    {
        let f = text_of(&calls[k].function_name);
        let hit = if suffix {
            ends_with_exec(&f, p)
        } else {
            starts_with_exec(&f, p)
        };
        if hit {
            return Some(k);
        }
        k = k + 1;
    }
    None
}

/// The client calls of the code: per receiver call on a stub field, and
/// per call on a freshly created stub, the call statement it belongs to
/// (when one is found) and the operation URI.
pub open spec fn field_call_records(
    caps: Seq<Seq<Option<Seq<char>>>>,
    stubs: Map<Seq<char>, Seq<char>>,
    calls: Seq<CallStatement>,
) -> Seq<(Option<int>, Seq<char>)>
    decreases caps.len(),
{
    if caps.len() == 0 {
        Seq::empty()
    } else {
        let prev = field_call_records(caps.drop_last(), stubs, calls);
        match (group(caps.last(), 1), group(caps.last(), 2)) {
            (Some(receiver), Some(op)) => if stubs.contains_key(receiver) {
                prev.push(
                    (
                        first_call_from(calls, 0, receiver + seq!['.'] + op + seq!['('], false),
                        grpc_uri(stubs[receiver], upper_first(op)),
                    ),
                )
            } else {
                prev
            },
            _ => prev,
        }
    }
}

pub open spec fn direct_call_records(caps: Seq<Seq<Option<Seq<char>>>>, calls: Seq<CallStatement>) -> Seq<
    (Option<int>, Seq<char>),
>
    decreases caps.len(),
{
    if caps.len() == 0 {
        Seq::empty()
    } else {
        let prev = direct_call_records(caps.drop_last(), calls);
        match (group(caps.last(), 1), group(caps.last(), 2)) {
            (Some(service), Some(op)) => prev.push(
                (
                    first_call_from(calls, 0, seq!['.'] + op + seq!['('], true),
                    grpc_uri(service, upper_first(op)),
                ),
            ),
            _ => prev,
        }
    }
}

pub open spec fn client_call_records(code: Seq<char>, calls: Seq<CallStatement>) -> Seq<(Option<int>, Seq<char>)> {
    client_call_records_from(
        regex_captures(STUB_FIELD_PATTERN@, code),
        regex_captures(STUB_INIT_PATTERN@, code),
        regex_captures(RECEIVER_CALL_PATTERN@, code),
        regex_captures(DIRECT_STUB_CALL_PATTERN@, code),
        calls,
    )
}

/// The call records of the matches of the stub-field, stub-initialisation,
/// receiver-call and direct-stub-call patterns.
pub open spec fn client_call_records_from(
    fields: Seq<Seq<Option<Seq<char>>>>,
    inits: Seq<Seq<Option<Seq<char>>>>,
    receivers: Seq<Seq<Option<Seq<char>>>>,
    directs: Seq<Seq<Option<Seq<char>>>>,
    calls: Seq<CallStatement>,
) -> Seq<(Option<int>, Seq<char>)> {
    field_call_records(receivers, stubs_from(stubs_from(Map::empty(), fields, 2, 1), inits, 1, 2), calls)
        + direct_call_records(directs, calls)
}

/// `r` is the RPC call record for the operation URI, made at the call
/// statement with that index (or at none).
pub open spec fn is_grpc_call(
    r: RestCall,
    calls: Seq<CallStatement>,
    idx: Option<int>,
    uri: Seq<char>,
    file_name: Seq<char>,
) -> bool {
    &&& match idx {
        Some(i) => {
            &&& r.function_name@ == opt_or_empty(calls[i].enclosing_function_name)
            &&& r.function_hash@ == opt_or_empty(calls[i].enclosing_function_hash)
            &&& same_arguments(r.call_arguments@, calls[i].arguments@)
        },
        None => {
            &&& r.function_name@.len() == 0
            &&& r.function_hash@.len() == 0
            &&& r.call_arguments@.len() == 0
        },
    }
    &&& r.http_method == HttpMethod::POST
    &&& r.target_uri@ == uri
    &&& r.file_path@ == file_name
}

fn grpc_call(calls: &[CallStatement], idx: Option<usize>, uri: &[char], file_name: &str) -> (r: RestCall)
    requires
        idx matches Some(i) ==> i < calls@.len(),
    ensures
        is_grpc_call(
            r,
            calls@,
            match idx {
                Some(i) => Some(i as int),
                None => None,
            },
            uri@,
            file_name@,
        ),
{
    match idx {
        Some(i) => RestCall {
            function_name: opt_or_empty_exec(&calls[i].enclosing_function_name),
            function_hash: opt_or_empty_exec(&calls[i].enclosing_function_hash),
            call_arguments: copy_arguments(&calls[i].arguments),
            http_method: HttpMethod::POST,
            target_uri: string_of(uri),
            file_path: string_of(&chars_of(file_name)),
        },
        None => RestCall {
            function_name: String::new(),
            function_hash: String::new(),
            call_arguments: Vec::new(),
            http_method: HttpMethod::POST,
            target_uri: string_of(uri),
            file_path: string_of(&chars_of(file_name)),
        },
    }
}

/// The gRPC client calls read from the matches of the stub-field,
/// stub-initialisation, receiver-call and direct-stub-call patterns.
pub fn client_calls_from_captures(
    fields: &Vec<Vec<Option<String>>>,
    inits: &Vec<Vec<Option<String>>>,
    receivers: &Vec<Vec<Option<String>>>,
    directs: &Vec<Vec<Option<String>>>,
    file_name: &str,
    calls: &[CallStatement],
) -> (r: Vec<RestCall>)
    ensures
        ({
            let recs = client_call_records_from(
                captures_view(fields@),
                captures_view(inits@),
                captures_view(receivers@),
                captures_view(directs@),
                calls@,
            );
            &&& r@.len() == recs.len()
            &&& forall|k: int|
                0 <= k < recs.len() ==> #[trigger] is_grpc_call(r@[k], calls@, recs[k].0, recs[k].1, file_name@)
        }),
{
    let mut stubs = Bindings::new();
    stubs_from_exec(&mut stubs, fields, 2, 1);
    stubs_from_exec(&mut stubs, inits, 1, 2);
    let ghost sv = stubs@;
    let mut out: Vec<RestCall> = Vec::new();
    let caps = receivers;
    let ghost cv = captures_view(caps@);
    let mut i: usize = 0;
    while i < caps.len()
        invariant
            i <= caps@.len(),
            cv == captures_view(caps@),
            stubs@ == sv,
            out@.len() == field_call_records(cv.take(i as int), stubs@, calls@).len(),
            forall|k: int|
                0 <= k < out@.len() ==> #[trigger] is_grpc_call(
                    out@[k],
                    calls@,
                    field_call_records(cv.take(i as int), stubs@, calls@)[k].0,
                    field_call_records(cv.take(i as int), stubs@, calls@)[k].1,
                    file_name@,
                ),
        decreases caps.len() - i,
    {
        assert(cv.take(i + 1).drop_last() =~= cv.take(i as int));
        assert(cv.take(i + 1).last() == groups_view(caps@[i as int]@));
        match (group_exec(&caps[i], 1), group_exec(&caps[i], 2)) {
            (Some(receiver), Some(op)) => {
                let rc = text_of(&receiver);
                match stubs.get(&rc) {
                    Some(service) => {
                        let o = text_of(&op);
                        let mut prefix = text_of(&receiver);
                        prefix.push('.');
                        crate::text::append_chars(&mut prefix, &o);
                        prefix.push('(');
                        assert(prefix@ =~= rc@ + seq!['.'] + o@ + seq!['(']);
                        let idx = first_call_exec(calls, &prefix, false);
                        let uri = grpc_uri_exec(&text_of(&service), &upper_first_exec(&o));
                        out.push(grpc_call(calls, idx, &uri, file_name));
                    },
                    None => {},
                }
            },
            _ => {},
        }
        i = i + 1;
    }
    assert(cv.take(caps@.len() as int) =~= cv);
    let ghost first_part = out@;
    let direct = directs;
    let ghost dv = captures_view(direct@);
    let mut j: usize = 0;
    while j < direct.len()
        invariant
            j <= direct@.len(),
            dv == captures_view(direct@),
            cv == captures_view(receivers@),
            first_part.len() == field_call_records(cv, sv, calls@).len(),
            forall|k: int|
                0 <= k < first_part.len() ==> #[trigger] is_grpc_call(
                    first_part[k],
                    calls@,
                    field_call_records(cv, sv, calls@)[k].0,
                    field_call_records(cv, sv, calls@)[k].1,
                    file_name@,
                ),
            out@.len() == first_part.len() + direct_call_records(dv.take(j as int), calls@).len(),
            out@.subrange(0, first_part.len() as int) == first_part,
            forall|k: int|
                0 <= k < direct_call_records(dv.take(j as int), calls@).len() ==> #[trigger] is_grpc_call(
                    out@[first_part.len() + k],
                    calls@,
                    direct_call_records(dv.take(j as int), calls@)[k].0,
                    direct_call_records(dv.take(j as int), calls@)[k].1,
                    file_name@,
                ),
        decreases direct.len() - j,
    {
        assert(dv.take(j + 1).drop_last() =~= dv.take(j as int));
        assert(dv.take(j + 1).last() == groups_view(direct@[j as int]@));
        match (group_exec(&direct[j], 1), group_exec(&direct[j], 2)) {
            (Some(service), Some(op)) => {
                let o = text_of(&op);
                let mut suffix = crate::text::one('.');
                crate::text::append_chars(&mut suffix, &o);
                suffix.push('(');
                assert(suffix@ =~= seq!['.'] + o@ + seq!['(']);
                let idx = first_call_exec(calls, &suffix, true);
                let uri = grpc_uri_exec(&text_of(&service), &upper_first_exec(&o));
                let ghost o0 = out@;
                out.push(grpc_call(calls, idx, &uri, file_name));
                assert(out@.subrange(0, first_part.len() as int) =~= o0.subrange(0, first_part.len() as int));
            },
            _ => {},
        }
        j = j + 1;
    }
    assert(dv.take(direct@.len() as int) =~= dv);
    proof {
        let recs = client_call_records_from(
            captures_view(fields@),
            captures_view(inits@),
            captures_view(receivers@),
            captures_view(directs@),
            calls@,
        );
        let fr = field_call_records(cv, sv, calls@);
        assert forall|k: int| 0 <= k < recs.len() implies #[trigger] is_grpc_call(
            out@[k],
            calls@,
            recs[k].0,
            recs[k].1,
            file_name@,
        ) by {
            if k < fr.len() {
                assert(out@.subrange(0, first_part.len() as int)[k] == out@[k]);
                assert(out@[k] == first_part[k]);
            } else {
                let dr = direct_call_records(dv, calls@);
                let k2 = k - fr.len();
                assert(recs[k] == dr[k2]);
                assert(is_grpc_call(out@[first_part.len() + k2], calls@, dr[k2].0, dr[k2].1, file_name@));
                assert(first_part.len() + k2 == k);
            }
        }
    }
    out
}

/// The gRPC client calls of a Java file: calls on stub fields, then calls
/// on freshly created stubs, each tied to its call statement when one is
/// found.
pub fn extract_client_calls(code: &str, file_name: &str, calls: &[CallStatement]) -> (r: Vec<RestCall>)
    ensures
        ({
            let recs = client_call_records(code@, calls@);
            &&& r@.len() == recs.len()
            &&& forall|k: int|
                0 <= k < recs.len() ==> #[trigger] is_grpc_call(r@[k], calls@, recs[k].0, recs[k].1, file_name@)
        }),
{
    let fields = captures_all(STUB_FIELD_PATTERN, code);
    let inits = captures_all(STUB_INIT_PATTERN, code);
    let receivers = captures_all(RECEIVER_CALL_PATTERN, code);
    let directs = captures_all(DIRECT_STUB_CALL_PATTERN, code);
    client_calls_from_captures(&fields, &inits, &receivers, &directs, file_name, calls)
}

/// The service a Java class implements: from a generated `ImplBase` it
/// extends, or else from the descriptor a hand-written `BindableService`
/// names.
pub open spec fn grpc_server_service(code: Seq<char>) -> Option<Seq<char>> {
    let standard = match first_captures(SERVICE_PATTERN@, code) {
        Some(c) => group(c, 1),
        None => None,
    };
    match standard {
        Some(s) => Some(s),
        None => match first_captures(MANUAL_SERVICE_PATTERN@, code) {
            Some(c) => group(c, 1),
            None => None,
        },
    }
}

pub fn grpc_server_service_exec(code: &str) -> (r: Option<String>)
    ensures
        crate::model::opt_view(r) == grpc_server_service(code@),
{
    let standard = match first_captures_exec(SERVICE_PATTERN, code) {
        Some(c) => group_exec(&c, 1),
        None => None,
    };
    match standard {
        Some(s) => Some(s),
        None => match first_captures_exec(MANUAL_SERVICE_PATTERN, code) {
            Some(c) => group_exec(&c, 1),
            None => None,
        },
    }
}

/// The endpoint a server method implements: its declaration up to the
/// body as name, the hash of its text, POST and the operation URI.
pub open spec fn is_server_endpoint(e: Endpoint, method_text: Seq<char>, uri: Seq<char>, file_name: Seq<char>) -> bool {
    &&& e.function_name@ == trim(before_first(method_text, '{'))
    &&& e.function_hash@ == crate::hashing::text_hash(method_text)
    &&& e.http_method == HttpMethod::POST
    &&& e.parameters@.len() == 0
    &&& e.uri@ == uri
    &&& e.file_path@ == file_name
    &&& e.router_variable is None
}

pub fn server_endpoint(method_text: &str, service: &[char], operation: &[char], file_name: &str) -> (r:
    Endpoint)
    ensures
        is_server_endpoint(r, method_text@, grpc_uri(service@, upper_first(operation@)), file_name@),
{
    let name = trim_exec(&before_first_exec(&chars_of(method_text), '{'));
    Endpoint {
        function_name: string_of(&name),
        function_hash: crate::hashing::hash_text(method_text),
        http_method: HttpMethod::POST,
        parameters: Vec::new(),
        uri: string_of(&grpc_uri_exec(service, &upper_first_exec(operation))),
        file_path: string_of(&chars_of(file_name)),
        router_variable: None,
    }
}

/// The operations a hand-written service declares through `METHOD_…`
/// descriptor constants, in lower camel case.
pub open spec fn manual_operations_from(caps: Seq<Seq<Option<Seq<char>>>>) -> Seq<Seq<char>>
    decreases caps.len(),
{
    if caps.len() == 0 {
        Seq::empty()
    } else {
        let prev = manual_operations_from(caps.drop_last());
        match group(caps.last(), 1) {
            Some(op) => prev.push(lower_camel_from_constant(op)),
            None => prev,
        }
    }
}

/// The `void` methods that implement operations, as the byte where their
/// declaration starts and the operation name: every such method, or only
/// those a descriptor constant names when there are such constants.
pub open spec fn server_methods(
    ms: Seq<crate::regexes::MatchView>,
    manual: Seq<Seq<char>>,
) -> Seq<(int, Seq<char>)>
    decreases ms.len(),
{
    if ms.len() == 0 {
        Seq::empty()
    } else {
        let prev = server_methods(ms.drop_last(), manual);
        match group(ms.last().3, 1) {
            Some(op) => if manual.len() == 0 || manual.contains(op) {
                prev.push((ms.last().2, op))
            } else {
                prev
            },
            None => prev,
        }
    }
}

/// The byte where each operation-implementing method of a gRPC server
/// class starts and the operation's name (see `server_methods`).
pub fn grpc_server_operations(code: &str) -> (r: Vec<(usize, String)>)
    ensures
        r@.map_values(|p: (usize, String)| (p.0 as int, p.1@)) == server_methods(
            crate::regexes::regex_matches(METHOD_PATTERN@, code@),
            manual_operations_from(regex_captures(METHOD_CONSTANT_PATTERN@, code@)),
        ),
{
    let constants = captures_all(METHOD_CONSTANT_PATTERN, code);
    let ghost kv = captures_view(constants@);
    let mut manual: Vec<Vec<char>> = Vec::new();
    let mut i: usize = 0;
    while i < constants.len()
        invariant
            i <= constants@.len(),
            kv == captures_view(constants@),
            views(manual@) == manual_operations_from(kv.take(i as int)),
        decreases constants.len() - i,
    {
        assert(kv.take(i + 1).drop_last() =~= kv.take(i as int));
        assert(kv.take(i + 1).last() == groups_view(constants@[i as int]@));
        match group_exec(&constants[i], 1) {
            Some(op) => {
                let c = lower_camel_from_constant_exec(&text_of(&op));
                manual.push(c);
                assert(views(manual@) =~= views(manual@).drop_last().push(c@));
            },
            None => {},
        }
        i = i + 1;
    }
    assert(kv.take(constants@.len() as int) =~= kv);
    let ghost mv = views(manual@);
    let ms = crate::regexes::find_matches(METHOD_PATTERN, code);
    let ghost msv = crate::regexes::matches_view(ms@);
    let mut out: Vec<(usize, String)> = Vec::new();
    let mut j: usize = 0;
    while j < ms.len()
        invariant
            j <= ms@.len(),
            mv == views(manual@),
            msv == crate::regexes::matches_view(ms@),
            out@.map_values(|p: (usize, String)| (p.0 as int, p.1@)) == server_methods(msv.take(j as int), mv),
        decreases ms.len() - j,
    {
        assert(msv.take(j + 1).drop_last() =~= msv.take(j as int));
        assert(msv.take(j + 1).last() == crate::regexes::match_view(ms@[j as int]));
        match group_exec(&ms[j].groups, 1) {
            Some(op) => {
                let o = text_of(&op);
                if manual.len() == 0 || crate::go::shared::seen_contains(&manual, &o) {
                    let ghost o0 = out@;
                    out.push((ms[j].start_byte, op));
                    assert(out@.map_values(|p: (usize, String)| (p.0 as int, p.1@)) =~= o0.map_values(
                        |p: (usize, String)| (p.0 as int, p.1@),
                    ).push((ms@[j as int].start_byte as int, o@)));
                }
            },
            None => {},
        }
        j = j + 1;
    }
    assert(msv.take(ms@.len() as int) =~= msv);
    out
}

/// The operation methods of a server class, in order, as the text of the
/// method declaration around each one's start and its operation name;
/// those whose start lies in no method declaration give none.
pub open spec fn server_method_texts(code: Seq<char>, ops: Seq<(int, Seq<char>)>) -> Seq<(Seq<char>, Seq<char>)>
    decreases ops.len(),
{
    if ops.len() == 0 {
        Seq::empty()
    } else {
        let prev = server_method_texts(code, ops.drop_last());
        match java_nodes_at(code, ops.last().0) {
            Some(ns) => match first_of_kind(ns, "method_declaration"@) {
                Some(i) => prev.push((ns[i].text@, ops.last().1)),
                None => prev,
            },
            None => prev,
        }
    }
}

/// The operation methods of a Java source's server class (see
/// `server_methods` and `server_method_texts`).
pub open spec fn server_records(code: Seq<char>) -> Seq<(Seq<char>, Seq<char>)> {
    server_method_texts(
        code,
        server_methods(
            crate::regexes::regex_matches(METHOD_PATTERN@, code),
            manual_operations_from(regex_captures(METHOD_CONSTANT_PATTERN@, code)),
        ),
    )
}

/// The endpoints of a gRPC server class in a Java source: none when no
/// service is found; else, for each operation method, POST to
/// `grpc://Service/Operation`, named by its declaration up to the body and
/// hashed over its text.
pub open spec fn server_endpoints_ok(code: Seq<char>, file_name: Seq<char>, r: Seq<Endpoint>) -> bool {
    match grpc_server_service(code) {
        None => r.len() == 0,
        Some(service) => {
            let recs = server_records(code);
            &&& r.len() == recs.len()
            &&& forall|k: int|
                0 <= k < recs.len() ==> #[trigger] is_server_endpoint(
                    r[k],
                    recs[k].0,
                    grpc_uri(service, upper_first(recs[k].1)),
                    file_name,
                )
        },
    }
}

pub fn extract_server_endpoints(code: &str, file_name: &str) -> (r: Vec<Endpoint>)
    ensures
        server_endpoints_ok(code@, file_name@, r@),
{
    let service = match grpc_server_service_exec(code) {
        Some(s) => text_of(&s),
        None => return Vec::new(),
    };
    let ops = grpc_server_operations(code);
    let ghost ov = ops@.map_values(|p: (usize, String)| (p.0 as int, p.1@));
    let mut out: Vec<Endpoint> = Vec::new();
    let mut i: usize = 0;
    while i < ops.len()
        invariant
            i <= ops@.len(),
            ov == ops@.map_values(|p: (usize, String)| (p.0 as int, p.1@)),
            grpc_server_service(code@) == Some(service@),
            out@.len() == server_method_texts(code@, ov.take(i as int)).len(),
            forall|k: int|
                0 <= k < out@.len() ==> #[trigger] is_server_endpoint(
                    out@[k],
                    server_method_texts(code@, ov.take(i as int))[k].0,
                    grpc_uri(service@, upper_first(server_method_texts(code@, ov.take(i as int))[k].1)),
                    file_name@,
                ),
        decreases ops.len() - i,
    {
        assert(ov.take(i + 1).drop_last() =~= ov.take(i as int));
        assert(ov.take(i + 1).last() == (ops@[i as int].0 as int, ops@[i as int].1@));
        let ghost prev = server_method_texts(code@, ov.take(i as int));
        match java_nodes_at_byte(code, ops[i].0) {
            Some(nodes) => {
                proof {
                    lemma_first_of_kind(nodes@, "method_declaration"@);
                }
                match get_enclosing_node_by_kind(nodes.as_slice(), "method_declaration") {
                    Some(k) => {
                        let op = text_of(&ops[i].1);
                        let e = server_endpoint(nodes[k].text.as_str(), &service, &op, file_name);
                        let ghost o0 = out@;
                        out.push(e);
                        assert forall|j: int| 0 <= j < out@.len() implies #[trigger] is_server_endpoint(
                            out@[j],
                            server_method_texts(code@, ov.take(i + 1))[j].0,
                            grpc_uri(service@, upper_first(server_method_texts(code@, ov.take(i + 1))[j].1)),
                            file_name@,
                        ) by {
                            if j < o0.len() {
                                assert(out@[j] == o0[j]);
                            }
                        }
                    },
                    None => {},
                }
            },
            None => {},
        }
        i = i + 1;
    }
    assert(ov.take(ops@.len() as int) =~= ov);
    out
}

/// The gRPC server endpoints and client calls of a Java source.
pub fn extract(code: &str, file_name: &str, calls: &[CallStatement]) -> (r: (Vec<Endpoint>, Vec<RestCall>))
    ensures
        server_endpoints_ok(code@, file_name@, r.0@),
        ({
            let recs = client_call_records(code@, calls@);
            &&& r.1@.len() == recs.len()
            &&& forall|k: int|
                0 <= k < recs.len() ==> #[trigger] is_grpc_call(r.1@[k], calls@, recs[k].0, recs[k].1, file_name@)
        }),
{
    (extract_server_endpoints(code, file_name), extract_client_calls(code, file_name, calls))
}

} // verus!
