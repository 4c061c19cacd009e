//! All message flows of one Go call: RabbitMQ channel calls, the RabbitMQ
//! configuration builder, and Kafka.
use vstd::prelude::*;

use crate::bindings::Bindings;
use crate::go::identify::{bind_scope_exec, call_bindings};
use crate::go::kafka::{is_kafka_edge, kafka_call_role, kafka_call_topics};
use crate::go::message_edges::{
    are_rabbit_edges, builder_shapes, call_method, identify_configuration_builder_edges,
    identify_message_edge, message_call_safe, message_edge_shape, EdgeShape,
};
use crate::model::{CallStatement, Import, MessageEdge, Scope, TypedFileRecord};
use crate::text::{after_last_exec, chars_eq, chars_of, contains, contains_exec, lower, lower_exec, text_of};

verus! {

/// Some import's module, in lower case, contains one of the two markers.
pub open spec fn imports_mention(imports: Seq<Import>, a: Seq<char>, b: Seq<char>) -> bool {
    exists|i: int|
        0 <= i < imports.len() && (contains(lower(#[trigger] imports[i].orig_module@), a) || contains(
            lower(imports[i].orig_module@),
            b,
        ))
}

fn imports_mention_exec(imports: &Vec<Import>, a: &str, b: &str) -> (r: bool)
    ensures
        r == imports_mention(imports@, a@, b@),
{
    let mut i: usize = 0;
    while i < imports.len()
        invariant
            i <= imports@.len(),
            forall|j: int|
                0 <= j < i ==> !(contains(lower(#[trigger] imports@[j].orig_module@), a@) || contains(
                    lower(imports@[j].orig_module@),
                    b@,
                )),
        decreases imports.len() - i,
    {
        let m = lower_exec(&text_of(&imports[i].orig_module));
        if contains_exec(&m, &chars_of(a)) || contains_exec(&m, &chars_of(b)) {
            return true;
        }
        i = i + 1;
    }
    false
}

/// The file imports a RabbitMQ client (`rabbitmq`, `amqp`).
pub open spec fn is_rabbitmq_file(imports: Seq<Import>) -> bool {
    imports_mention(imports, "rabbitmq"@, "amqp"@)
}

/// The channel recogniser applies: it is not gated by imports, or the file
/// imports RabbitMQ, or the method is not one that other transports share.
pub open spec fn rabbit_applies(file: TypedFileRecord, call: CallStatement, gated: bool) -> bool {
    let m = call_method(call);
    !gated || is_rabbitmq_file(file.imports@) || !(m == "Publish"@ || m == "PublishWithContext"@ || m
        == "Consume"@)
}

/// The configuration-builder recogniser applies.
pub open spec fn builder_applies(file: TypedFileRecord, call: CallStatement) -> bool {
    is_rabbitmq_file(file.imports@) || contains(
        lower(call.function_name@),
        "rabbitmqproducer.publishmessage"@,
    )
}

/// The names a call's message edges are evaluated with.
pub open spec fn message_scope(file: TypedFileRecord, call: CallStatement) -> Map<Seq<char>, Seq<char>> {
    call_bindings(file.assignments@, call, None)
}

/// The RabbitMQ edge shapes of a call, in the order they are reported.
pub open spec fn rabbit_shapes(file: TypedFileRecord, call: CallStatement, gated: bool) -> Seq<EdgeShape> {
    let channel = if rabbit_applies(file, call, gated) {
        match message_edge_shape(call, message_scope(file, call)) {
            Some(sh) => seq![sh],
            None => Seq::empty(),
        }
    } else {
        Seq::empty()
    };
    let builder = if builder_applies(file, call) {
        builder_shapes(call)
    } else {
        Seq::empty()
    };
    channel + builder
}

/// How many message edges a call gives.
pub open spec fn edge_count(file: TypedFileRecord, call: CallStatement, gated: bool) -> int {
    (rabbit_shapes(file, call, gated).len() + kafka_call_topics(call).len()) as int
}

/// `r` are the message edges of a call: its RabbitMQ edges by shape, then
/// its Kafka edges by topic.
pub open spec fn call_edges_ok(r: Seq<MessageEdge>, file: TypedFileRecord, call: CallStatement, gated: bool) -> bool {
    let rs = rabbit_shapes(file, call, gated);
    let ks = kafka_call_topics(call);
    &&& r.len() == rs.len() + ks.len()
    &&& are_rabbit_edges(r.subrange(0, rs.len() as int), rs, call, file.file_path@)
    &&& forall|k: int|
        0 <= k < ks.len() ==> #[trigger] is_kafka_edge(r[rs.len() + k], kafka_call_role(call), ks[k], call, file.file_path@)
}

/// The message edges of a Go call: RabbitMQ edges first (channel call, then
/// configuration builder), then Kafka edges.  With `gated`, the channel
/// methods that other transports share (`Publish`, `PublishWithContext`,
/// `Consume`) are read only in files that import RabbitMQ.
pub fn identify_message_edges(file: &TypedFileRecord, call: &CallStatement, gated: bool) -> (r: Vec<MessageEdge>)
    requires
        rabbit_applies(*file, *call, gated) ==> message_call_safe(*call, message_scope(*file, *call)),
    ensures
        call_edges_ok(r@, *file, *call, gated),
{
    let mut scope = Bindings::new();
    bind_scope_exec(&mut scope, &file.assignments, &Scope::Global);
    let s = match &call.enclosing_function_name {
        Some(n) => Scope::Function(n.clone()),
        None => Scope::Global,
    };
    bind_scope_exec(&mut scope, &file.assignments, &s);
    let rabbit_file = imports_mention_exec(&file.imports, "rabbitmq", "amqp");
    let m = after_last_exec(&text_of(&call.function_name), '.');
    let shared_method = chars_eq(&m, &chars_of("Publish")) || chars_eq(&m, &chars_of("PublishWithContext"))
        || chars_eq(&m, &chars_of("Consume"));
    let path = file.file_path.as_str();
    let mut edges: Vec<MessageEdge> = Vec::new();
    if !gated || rabbit_file || !shared_method {
        match identify_message_edge(call, path, &scope) {
            Some(e) => edges.push(e),
            None => {},
        }
    }
    let library_producer = contains_exec(
        &lower_exec(&text_of(&call.function_name)),
        &chars_of("rabbitmqproducer.publishmessage"),
    );
    if rabbit_file || library_producer {
        let mut b = identify_configuration_builder_edges(call, path);
        edges.append(&mut b);
    }
    let ghost after_rabbit = edges@;
    let mut k = crate::go::kafka::identify_message_edges(call, path);
    edges.append(&mut k);
    proof {
        let rs = rabbit_shapes(*file, *call, gated);
        assert(edges@.subrange(0, rs.len() as int) =~= after_rabbit);
    }
    edges
}

} // verus!
