//! RabbitMQ producers, consumers and queue declarations in Java code
//! (Spring AMQP templates and listeners, the RabbitMQ client, message
//! handler contracts).
use vstd::prelude::*;

use crate::java::annotations::parens_ok;
use crate::java::kafka::{handler_signature, handler_signature_exec};
use crate::java::strings::{
    annotation_values, clean_java_value, clean_java_value_exec, method_name, method_name_exec,
    split_annotation_values,
};
use crate::model::{
    copy_arguments, opt_or_empty, opt_or_empty_exec, opt_view, same_arguments, CallStatement,
    CommunicationProtocol, MessageDestinationKind, MessageEdge, MessageRole,
};
use crate::sorting::texts;
use crate::text::{
    chars_eq, chars_of, concat, ends_with, ends_with_exec, find, find_char_exec, find_exec, one,
    rfind, rfind_char_exec, slice_chars, split_once, split_once_exec, starts_with,
    starts_with_exec, string_of, text_of, trim, trim_exec, is_ascii_upper, is_ascii_upper_exec,
};

verus! {

/// Recognises RabbitMQ message flows in Java files.
#[derive(Default, Debug, Clone, Copy)]
pub struct RabbitMqIdentificationStrategy;

/// What a RabbitMQ call declares: role, destination kind, destination,
/// exchange, routing key and queue.
pub struct RabbitFields {
    pub role: MessageRole,
    pub kind: MessageDestinationKind,
    pub destination: Seq<char>,
    pub exchange: Option<Seq<char>>,
    pub routing_key: Option<Seq<char>>,
    pub queue: Option<Seq<char>>,
}

pub open spec fn event_suffixes() -> Seq<Seq<char>> {
    seq!["Created"@, "Updated"@, "Deleted"@, "Reserved"@, "Cancelled"@, "Rejected"@]
}

/// An upper-case name ending like an integration event (`OrderCreated`).
pub open spec fn looks_like_event_constructor(m: Seq<char>) -> bool {
    m.len() > 0 && is_ascii_upper(m[0]) && exists|k: int|
        0 <= k < event_suffixes().len() && ends_with(m, #[trigger] event_suffixes()[k])
}

pub fn looks_like_integration_event_constructor(method: &[char]) -> (r: bool)
    ensures
        r == looks_like_event_constructor(method@),
{
    if method.len() == 0 || !is_ascii_upper_exec(method[0]) {
        return false;
    }
    let mut s: Vec<Vec<char>> = Vec::new();
    s.push(chars_of("Created"));
    s.push(chars_of("Updated"));
    s.push(chars_of("Deleted"));
    s.push(chars_of("Reserved"));
    s.push(chars_of("Cancelled"));
    s.push(chars_of("Rejected"));
    let ghost sv = s@.map_values(|v: Vec<char>| v@);
    assert(sv =~= event_suffixes());
    let mut k: usize = 0;
    while k < s.len()
        invariant
            k <= s@.len(),
            sv == s@.map_values(|v: Vec<char>| v@),
            sv == event_suffixes(),
            method@.len() > 0,
            is_ascii_upper(method@[0]),
            forall|j: int| 0 <= j < k ==> !ends_with(method@, #[trigger] sv[j]),
        decreases s.len() - k,
    {
        if ends_with_exec(method, &s[k]) {
            assert(ends_with(method@, event_suffixes()[k as int]));
            return true;
        }
        k = k + 1;
    }
    false
}

/// The queue, or exchange and routing key, a RabbitMQ client call names.
pub open spec fn rabbit_call(call: CallStatement) -> Option<RabbitFields> {
    let m = method_name(call.function_name@);
    let n = call.arguments.len();
    let arg = |i: int| clean_java_value(call.arguments[i].value@);
    if m == "convertAndSend"@ || m == "convertSendAndReceive"@ {
        if n == 0 {
            None
        } else if n <= 2 {
            Some(RabbitFields { role: MessageRole::Producer, kind: MessageDestinationKind::Queue, destination: arg(0), exchange: None, routing_key: None, queue: Some(arg(0)) })
        } else {
            Some(RabbitFields { role: MessageRole::Producer, kind: MessageDestinationKind::ExchangeRoutingKey, destination: arg(0) + seq![':'] + arg(1), exchange: Some(arg(0)), routing_key: Some(arg(1)), queue: None })
        }
    } else if m == "basicPublish"@ {
        if n < 2 {
            None
        } else if arg(0).len() > 0 {
            Some(RabbitFields { role: MessageRole::Producer, kind: MessageDestinationKind::ExchangeRoutingKey, destination: arg(0) + seq![':'] + arg(1), exchange: Some(arg(0)), routing_key: Some(arg(1)), queue: None })
        } else {
            Some(RabbitFields { role: MessageRole::Producer, kind: MessageDestinationKind::Queue, destination: arg(1), exchange: None, routing_key: Some(arg(1)), queue: Some(arg(1)) })
        }
    } else if m == "basicConsume"@ {
        if n == 0 {
            None
        } else {
            Some(RabbitFields { role: MessageRole::Consumer, kind: MessageDestinationKind::Queue, destination: arg(0), exchange: None, routing_key: None, queue: Some(arg(0)) })
        }
    } else if m == "sendMessage"@ {
        if n == 0 {
            None
        } else {
            Some(RabbitFields { role: MessageRole::Producer, kind: MessageDestinationKind::Queue, destination: arg(0), exchange: None, routing_key: None, queue: Some(arg(0)) })
        }
    } else if m == "Queue"@ {
        if n == 0 {
            None
        } else {
            Some(RabbitFields { role: MessageRole::QueueDeclaration, kind: MessageDestinationKind::Queue, destination: arg(0), exchange: None, routing_key: None, queue: Some(arg(0)) })
        }
    } else if looks_like_event_constructor(m) {
        Some(RabbitFields { role: MessageRole::Producer, kind: MessageDestinationKind::Queue, destination: m, exchange: None, routing_key: None, queue: Some(m) })
    } else {
        None
    }
}

/// `e` is the RabbitMQ edge with fields `f` recorded at `call`.
pub open spec fn is_rabbit_edge(e: MessageEdge, f: RabbitFields, call: CallStatement, file_path: Seq<char>) -> bool {
    &&& e.protocol == CommunicationProtocol::RabbitMq
    &&& e.role == f.role
    &&& e.destination_kind == f.kind
    &&& e.destination@ == f.destination
    &&& opt_view(e.exchange) == f.exchange
    &&& opt_view(e.routing_key) == f.routing_key
    &&& opt_view(e.queue) == f.queue
    &&& e.topic is None
    &&& e.handler is None
    &&& e.function_name@ == opt_or_empty(call.enclosing_function_name)
    &&& e.function_hash@ == opt_or_empty(call.enclosing_function_hash)
    &&& same_arguments(e.call_arguments@, call.arguments@)
    &&& e.file_path@ == file_path
}

fn opt_string(o: &Option<Vec<char>>) -> (r: Option<String>)
    ensures
        opt_view(r) == (match o {
            Some(v) => Some(v@),
            None => None::<Seq<char>>,
        }),
{
    match o {
        Some(v) => Some(string_of(v)),
        None => None,
    }
}

fn rabbit_edge(
    role: MessageRole,
    kind: MessageDestinationKind,
    destination: &[char],
    exchange: Option<Vec<char>>,
    routing_key: Option<Vec<char>>,
    queue: Option<Vec<char>>,
    call: &CallStatement,
    file_path: &str,
) -> (r: MessageEdge)
    ensures
        is_rabbit_edge(r, RabbitFields {
            role,
            kind,
            destination: destination@,
            exchange: match exchange { Some(v) => Some(v@), None => None },
            routing_key: match routing_key { Some(v) => Some(v@), None => None },
            queue: match queue { Some(v) => Some(v@), None => None },
        }, *call, file_path@),
{
    MessageEdge {
        protocol: CommunicationProtocol::RabbitMq,
        role,
        destination_kind: kind,
        destination: string_of(destination),
        exchange: opt_string(&exchange),
        routing_key: opt_string(&routing_key),
        queue: opt_string(&queue),
        topic: None,
        handler: None,
        function_name: opt_or_empty_exec(&call.enclosing_function_name),
        function_hash: opt_or_empty_exec(&call.enclosing_function_hash),
        call_arguments: copy_arguments(&call.arguments),
        file_path: string_of(&chars_of(file_path)),
    }
}

fn is_method(m: &[char], name: &str) -> (r: bool)
    ensures
        r == (m@ == name@),
{
    chars_eq(m, &chars_of(name))
}

fn arg_clean(call: &CallStatement, i: usize) -> (r: Vec<char>)
    requires
        i < call.arguments.len(),
    ensures
        r@ == clean_java_value(call.arguments[i as int].value@),
{
    clean_java_value_exec(&text_of(&call.arguments[i].value))
}

fn copy_chars(v: &Vec<char>) -> (r: Vec<char>)
    ensures
        r@ == v@,
{
    slice_chars(v, 0, v.len())
}

/// The RabbitMQ edge of one call statement.
pub fn identify_call(call: &CallStatement, file_path: &str) -> (r: Option<MessageEdge>)
    ensures
        r matches Some(e) ==> rabbit_call(*call) matches Some(f) && is_rabbit_edge(e, f, *call, file_path@),
        r is None ==> rabbit_call(*call) is None,
{
    let m = method_name_exec(&text_of(&call.function_name));
    let n = call.arguments.len();
    if is_method(&m, "convertAndSend") || is_method(&m, "convertSendAndReceive") {
        if n == 0 {
            None
        } else if n <= 2 {
            let q = arg_clean(call, 0);
            Some(rabbit_edge(MessageRole::Producer, MessageDestinationKind::Queue, &q, None, None, Some(copy_chars(&q)), call, file_path))
        } else {
            let ex = arg_clean(call, 0);
            let rk = arg_clean(call, 1);
            let mut d = concat(&ex, &one(':'));
            crate::text::append_chars(&mut d, &rk);
            Some(rabbit_edge(MessageRole::Producer, MessageDestinationKind::ExchangeRoutingKey, &d, Some(ex), Some(rk), None, call, file_path))
        }
    } else if is_method(&m, "basicPublish") {
        if n < 2 {
            None
        } else {
            let ex = arg_clean(call, 0);
            let rk = arg_clean(call, 1);
            if ex.len() > 0 {
                let mut d = concat(&ex, &one(':'));
                crate::text::append_chars(&mut d, &rk);
                Some(rabbit_edge(MessageRole::Producer, MessageDestinationKind::ExchangeRoutingKey, &d, Some(ex), Some(rk), None, call, file_path))
            } else {
                Some(rabbit_edge(MessageRole::Producer, MessageDestinationKind::Queue, &rk, None, Some(copy_chars(&rk)), Some(copy_chars(&rk)), call, file_path))
            }
        }
    } else if is_method(&m, "basicConsume") {
        if n == 0 {
            None
        } else {
            let q = arg_clean(call, 0);
            Some(rabbit_edge(MessageRole::Consumer, MessageDestinationKind::Queue, &q, None, None, Some(copy_chars(&q)), call, file_path))
        }
    } else if is_method(&m, "sendMessage") {
        if n == 0 {
            None
        } else {
            let q = arg_clean(call, 0);
            Some(rabbit_edge(MessageRole::Producer, MessageDestinationKind::Queue, &q, None, None, Some(copy_chars(&q)), call, file_path))
        }
    } else if is_method(&m, "Queue") {
        if n == 0 {
            None
        } else {
            let q = arg_clean(call, 0);
            Some(rabbit_edge(MessageRole::QueueDeclaration, MessageDestinationKind::Queue, &q, None, None, Some(copy_chars(&q)), call, file_path))
        }
    } else if looks_like_integration_event_constructor(&m) {
        Some(rabbit_edge(MessageRole::Producer, MessageDestinationKind::Queue, &m, None, None, Some(copy_chars(&m)), call, file_path))
    } else {
        None
    }
}

/// The RabbitMQ edges of the calls, in call order.
pub open spec fn rabbit_edges_spec(calls: Seq<CallStatement>) -> Seq<(RabbitFields, CallStatement)>
    decreases calls.len(),
{
    if calls.len() == 0 {
        Seq::empty()
    } else {
        let rest = rabbit_edges_spec(calls.drop_last());
        match rabbit_call(calls.last()) {
            Some(f) => rest.push((f, calls.last())),
            None => rest,
        }
    }
}

impl RabbitMqIdentificationStrategy {
    pub fn new() -> (r: Self) {
        RabbitMqIdentificationStrategy
    }

    /// The RabbitMQ edges of a file's call statements.
    pub fn identify_from_calls(&self, calls: &[CallStatement], file_path: &str) -> (r: Vec<MessageEdge>)
        ensures
            r.len() == rabbit_edges_spec(calls@).len(),
            forall|k: int|
                0 <= k < r.len() ==> {
                    let t = #[trigger] rabbit_edges_spec(calls@)[k];
                    is_rabbit_edge(r@[k], t.0, t.1, file_path@)
                },
    {
        let mut r: Vec<MessageEdge> = Vec::new();
        let mut i: usize = 0;
        while i < calls.len()
            invariant
                i <= calls@.len(),
                r.len() == rabbit_edges_spec(calls@.take(i as int)).len(),
                forall|k: int|
                    0 <= k < r.len() ==> {
                        let t = #[trigger] rabbit_edges_spec(calls@.take(i as int))[k];
                        is_rabbit_edge(r@[k], t.0, t.1, file_path@)
                    },
            decreases calls.len() - i,
        {
            assert(calls@.take(i + 1).drop_last() =~= calls@.take(i as int));
            assert(calls@.take(i + 1).last() == calls@[i as int]);
            match identify_call(&calls[i], file_path) {
                Some(e) => {
                    r.push(e);
                },
                None => {},
            }
            i = i + 1;
        }
        assert(calls@.take(calls@.len() as int) =~= calls@);
        r
    }
}

/// The queues a `@RabbitListener(...)` annotation names, cleaned.
pub open spec fn listener_queues(annotation: Seq<char>) -> Seq<Seq<char>> {
    match (find(annotation, seq!['(']), rfind(annotation, seq![')'])) {
        (Some(s), Some(e)) => {
            let inside = trim(annotation.subrange(s + 1, e));
            if inside.len() == 0 {
                Seq::empty()
            } else {
                match split_once(inside, '=') {
                    Some((name, value)) => if trim(name) == "queues"@ || trim(name) == "value"@ {
                        crate::java::kafka::cleaned_nonempty(annotation_values(trim(value)))
                    } else {
                        Seq::empty()
                    },
                    None => crate::java::kafka::cleaned_nonempty(annotation_values(inside)),
                }
            }
        },
        _ => Seq::empty(),
    }
}

pub fn extract_rabbit_listener_queues(annotation: &str) -> (r: Vec<String>)
    requires
        parens_ok(annotation@),
    ensures
        texts(r@) == listener_queues(annotation@),
{
    let a = chars_of(annotation);
    proof {
        crate::text::lemma_find(a@, seq!['(']);
        crate::text::lemma_rfind(a@, seq![')']);
    }
    let s = match find_char_exec(&a, '(') {
        Some(s) => s,
        None => return Vec::new(),
    };
    let e = match rfind_char_exec(&a, ')') {
        Some(e) => e,
        None => return Vec::new(),
    };
    let inside = trim_exec(&slice_chars(&a, s + 1, e));
    if inside.len() == 0 {
        return Vec::new();
    }
    let values = match split_once_exec(&inside, '=') {
        Some((name, value)) => {
            let name = trim_exec(&name);
            if chars_eq(&name, &chars_of("queues")) || chars_eq(&name, &chars_of("value")) {
                split_annotation_values(&trim_exec(&value))
            } else {
                return Vec::new();
            }
        },
        None => split_annotation_values(&inside),
    };
    crate::java::kafka::cleaned_nonempty_exec(&values)
}

/// The message contract of a `MessageHandler<Contract>` interface.
pub open spec fn handler_contract(interface: Seq<char>) -> Option<Seq<char>> {
    match find(interface, "MessageHandler<"@) {
        Some(k) => {
            let start = k + "MessageHandler<"@.len();
            match find(interface.skip(start), seq!['>']) {
                Some(e) => Some(trim(interface.subrange(start, start + e))),
                None => None,
            }
        },
        None => None,
    }
}

pub fn extract_message_handler_contract(interface_text: &str) -> (r: Option<String>)
    ensures
        r matches Some(c) ==> handler_contract(interface_text@) == Some(c@),
        r is None ==> handler_contract(interface_text@) is None,
{
    let t = chars_of(interface_text);
    let prefix = chars_of("MessageHandler<");
    proof {
        crate::text::lemma_find(t@, prefix@);
    }
    let k = match find_exec(&t, &prefix) {
        Some(k) => k,
        None => return None,
    };
    let n = t.len();
    assert(k + prefix@.len() <= n);
    let start = k + prefix.len();
    let rest = slice_chars(&t, start, t.len());
    assert(rest@ =~= t@.skip(start as int));
    proof {
        crate::text::lemma_find(rest@, seq!['>']);
    }
    match find_char_exec(&rest, '>') {
        Some(e) => Some(string_of(&trim_exec(&slice_chars(&t, start, start + e)))),
        None => None,
    }
}

} // verus!
