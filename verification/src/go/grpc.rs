//! gRPC flows in Go code, read from generated-client construction and
//! server registration call sites.
use vstd::prelude::*;

use crate::bindings::Bindings;
use crate::go::shared::{to_uppercase, unicode_upper};
use crate::model::{
    copy_arguments, opt_or_empty, opt_or_empty_exec, same_arguments, CallStatement,
    CommunicationProtocol, MessageDestinationKind, MessageEdge, MessageRole,
};
use crate::text::{
    after_last, after_last_exec, chars_eq, chars_of, ends_with, ends_with_exec, find, find_exec,
    lower, lower_exec, rfind, rfind_exec, rsplit_once, rsplit_once_exec, slice_chars, starts_with,
    starts_with_exec, string_of, strip_prefix, strip_prefix_exec, strip_suffix, strip_suffix_exec,
    text_of,
};

verus! {

/// The service of a generated client constructor call in the text:
/// `pb.NewProductServiceClient(conn)` gives `ProductService`.
pub open spec fn client_service_name(v: Seq<char>) -> Option<Seq<char>> {
    match rfind(v, "New"@) {
        None => None,
        Some(k) => {
            let rem = v.skip(k + 3);
            match find(rem, "Client("@) {
                None => None,
                Some(e) => if e == 0 {
                    None
                } else {
                    Some(rem.take(e))
                },
            }
        },
    }
}

pub fn client_service_name_exec(v: &[char]) -> (r: Option<Vec<char>>)
    ensures
        r matches Some(s) ==> client_service_name(v@) == Some(s@),
        r is None ==> client_service_name(v@) is None,
{
    let marker = chars_of("New");
    proof {
        reveal_strlit("New");
        crate::text::lemma_rfind(v@, "New"@);
    }
    let k = match rfind_exec(v, &marker) {
        Some(k) => k,
        None => return None,
    };
    let n = v.len();
    let rem = slice_chars(v, k + 3, n);
    assert(rem@ =~= v@.skip(k + 3));
    proof {
        crate::text::lemma_find(rem@, "Client("@);
    }
    match find_exec(&rem, &chars_of("Client(")) {
        None => None,
        Some(e) => if e == 0 {
            None
        } else {
            Some(slice_chars(&rem, 0, e))
        },
    }
}

/// The text with its first character in upper case (Unicode mapping).
pub open spec fn upper_first(s: Seq<char>) -> Seq<char> {
    if s.len() == 0 {
        s
    } else {
        unicode_upper(seq![s[0]]) + s.skip(1)
    }
}

pub fn upper_first_exec(s: &[char]) -> (r: Vec<char>)
    ensures
        r@ == upper_first(s@),
{
    if s.len() == 0 {
        return Vec::new();
    }
    let first = crate::text::one(s[0]);
    let mut r = to_uppercase(&first);
    crate::text::append_chars(&mut r, &slice_chars(s, 1, s.len()));
    assert(r@ =~= unicode_upper(seq![s@[0]]) + s@.skip(1));
    r
}

/// ASCII case-insensitive equality.
pub open spec fn eq_ignore_ascii_case(a: Seq<char>, b: Seq<char>) -> bool {
    lower(a) == lower(b)
}

/// The service a call's receiver stands for: a generated client bound to
/// it, a server field (`s.…`) kept as it is, or a `…Client` field named
/// after its service.
pub open spec fn service_from_receiver(receiver: Seq<char>, scope: Map<Seq<char>, Seq<char>>) -> Option<
    Seq<char>,
> {
    let binding = if scope.contains_key(receiver) {
        scope[receiver]
    } else {
        receiver
    };
    match client_service_name(binding) {
        Some(s) => Some(s),
        None => if starts_with(receiver, "s."@) {
            Some(receiver)
        } else {
            match strip_suffix(after_last(receiver, '.'), "Client"@) {
                Some(name) => if name.len() == 0 || eq_ignore_ascii_case(name, "client"@) {
                    None
                } else {
                    Some(upper_first(name) + "Service"@)
                },
                None => None,
            }
        },
    }
}

pub fn service_from_receiver_exec(receiver: &[char], scope: &Bindings) -> (r: Option<Vec<char>>)
    ensures
        r matches Some(s) ==> service_from_receiver(receiver@, scope@) == Some(s@),
        r is None ==> service_from_receiver(receiver@, scope@) is None,
{
    let binding = match scope.get(receiver) {
        Some(b) => text_of(&b),
        None => slice_chars(receiver, 0, receiver.len()),
    };
    assert(binding@ == if scope@.contains_key(receiver@) {
        scope@[receiver@]
    } else {
        receiver@
    }) by {
        if !scope@.contains_key(receiver@) {
            assert(receiver@.subrange(0, receiver@.len() as int) =~= receiver@);
        }
    }
    match client_service_name_exec(&binding) {
        Some(s) => return Some(s),
        None => {},
    }
    if starts_with_exec(receiver, &chars_of("s.")) {
        let r = slice_chars(receiver, 0, receiver.len());
        assert(r@ =~= receiver@);
        return Some(r);
    }
    match strip_suffix_exec(&after_last_exec(receiver, '.'), &chars_of("Client")) {
        Some(name) => {
            if name.len() == 0 || chars_eq(&lower_exec(&name), &lower_exec(&chars_of("client"))) {
                None
            } else {
                let mut r = upper_first_exec(&name);
                let ghost r0 = r@;
                crate::text::append_chars(&mut r, &chars_of("Service"));
                assert(r@ =~= r0 + "Service"@);
                Some(r)
            }
        },
        None => None,
    }
}

/// `e` is the gRPC edge of the role and destination for the call in the file.
pub open spec fn is_grpc_edge(
    e: MessageEdge,
    role: MessageRole,
    destination: Seq<char>,
    call: CallStatement,
    file_path: Seq<char>,
) -> bool {
    &&& e.protocol == CommunicationProtocol::Grpc
    &&& e.role == role
    &&& e.destination_kind == MessageDestinationKind::GrpcService
    &&& e.destination@ == destination
    &&& e.exchange is None
    &&& e.routing_key is None
    &&& e.queue is None
    &&& e.topic is None
    &&& e.handler is None
    &&& e.function_name@ == opt_or_empty(call.enclosing_function_name)
    &&& e.function_hash@ == opt_or_empty(call.enclosing_function_hash)
    &&& same_arguments(e.call_arguments@, call.arguments@)
    &&& e.file_path@ == file_path
}

fn grpc_edge(role: MessageRole, destination: &[char], call: &CallStatement, file_path: &str) -> (r:
    MessageEdge)
    ensures
        is_grpc_edge(r, role, destination@, *call, file_path@),
{
    MessageEdge {
        protocol: CommunicationProtocol::Grpc,
        role,
        destination_kind: MessageDestinationKind::GrpcService,
        destination: string_of(destination),
        exchange: None,
        routing_key: None,
        queue: None,
        topic: None,
        handler: None,
        function_name: opt_or_empty_exec(&call.enclosing_function_name),
        function_hash: opt_or_empty_exec(&call.enclosing_function_hash),
        call_arguments: copy_arguments(&call.arguments),
        file_path: string_of(&chars_of(file_path)),
    }
}

/// Some value in scope is a generated client construction.
pub open spec fn scope_has_client(scope: Map<Seq<char>, Seq<char>>) -> bool {
    exists|k: Seq<char>| scope.contains_key(k) && #[trigger] client_service_name(scope[k]) is Some
}

fn scope_has_client_exec(scope: &Bindings) -> (r: bool)
    ensures
        r == scope_has_client(scope@),
{
    let n = scope.len();
    let ghost keys = scope.keys();
    let mut i: usize = 0;
    while i < n
        invariant
            n == keys.len(),
            keys == scope.keys(),
            forall|k: Seq<char>| scope@.contains_key(k) <==> keys.contains(k),
            i <= n,
            forall|j: int| 0 <= j < i ==> #[trigger] client_service_name(scope@[keys[j]]) is None,
        decreases n - i,
    {
        let v = scope.value_at(i);
        if client_service_name_exec(&text_of(&v)).is_some() {
            assert(keys.contains(keys[i as int]));
            assert(client_service_name(scope@[keys[i as int]]) is Some);
            return true;
        }
        i = i + 1;
    }
    assert forall|k: Seq<char>| scope@.contains_key(k) implies #[trigger] client_service_name(scope@[k]) is None by {
        assert(keys.contains(k));
        let j = choose|j: int| 0 <= j < keys.len() && keys[j] == k;
        assert(client_service_name(scope@[keys[j]]) is None);
    }
    false
}

/// What a call does in gRPC: registers a server (`RegisterXServer`), or
/// invokes method `m` of a generated client (`service/m`).
pub open spec fn grpc_edge_target(
    call: CallStatement,
    scope: Map<Seq<char>, Seq<char>>,
    is_grpc_file: bool,
) -> Option<(MessageRole, Seq<char>)> {
    let f = call.function_name@;
    let last = after_last(f, '.');
    match strip_prefix(last, "Register"@) {
        Some(rest) if strip_suffix(rest, "Server"@) matches Some(svc) && svc.len() > 0 => Some(
            (MessageRole::Consumer, strip_suffix(rest, "Server"@).unwrap()),
        ),
        _ => if starts_with(last, "New"@) && ends_with(last, "Client"@) {
            None
        } else {
            match rsplit_once(f, '.') {
                None => None,
                Some((receiver, method)) => {
                    let name = after_last(receiver, '.');
                    if !is_grpc_file && !scope_has_client(scope) && (!ends_with(name, "Client"@)
                        || eq_ignore_ascii_case(name, "client"@)) {
                        None
                    } else {
                        match service_from_receiver(receiver, scope) {
                            Some(svc) => Some((MessageRole::Producer, svc + seq!['/'] + method)),
                            None => None,
                        }
                    }
                },
            }
        },
    }
}

/// The gRPC edges of a Go call: a server registration is a consumer of the
/// service, a call on a generated client a producer of `service/method`.
pub fn identify_grpc_message_edges(
    call: &CallStatement,
    file_path: &str,
    scope: &Bindings,
    is_grpc_file: bool,
) -> (r: Vec<MessageEdge>)
    ensures
        match grpc_edge_target(*call, scope@, is_grpc_file) {
            Some((role, dest)) => r@.len() == 1 && is_grpc_edge(r@[0], role, dest, *call, file_path@),
            None => r@.len() == 0,
        },
{
    let f = text_of(&call.function_name);
    let last = after_last_exec(&f, '.');
    let mut out: Vec<MessageEdge> = Vec::new();
    match strip_prefix_exec(&last, &chars_of("Register")) {
        Some(rest) => match strip_suffix_exec(&rest, &chars_of("Server")) {
            Some(svc) => {
                if svc.len() > 0 {
                    out.push(grpc_edge(MessageRole::Consumer, &svc, call, file_path));
                    return out;
                }
            },
            None => {},
        },
        None => {},
    }
    if starts_with_exec(&last, &chars_of("New")) && ends_with_exec(&last, &chars_of("Client")) {
        return out;
    }
    let (receiver, method) = match rsplit_once_exec(&f, '.') {
        Some(p) => p,
        None => return out,
    };
    let name = after_last_exec(&receiver, '.');
    if !is_grpc_file && !scope_has_client_exec(scope) && (!ends_with_exec(&name, &chars_of("Client"))
        || chars_eq(&lower_exec(&name), &lower_exec(&chars_of("client")))) {
        return out;
    }
    match service_from_receiver_exec(&receiver, scope) {
        Some(svc) => {
            let mut dest = svc;
            let ghost s0 = dest@;
            dest.push('/');
            crate::text::append_chars(&mut dest, &method);
            assert(dest@ =~= s0 + seq!['/'] + method@);
            out.push(grpc_edge(MessageRole::Producer, &dest, call, file_path));
        },
        None => {},
    }
    out
}

} // verus!
