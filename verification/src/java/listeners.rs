//! Message consumers declared on Java methods and classes: `@KafkaListener`
//! and `@RabbitListener` methods, and classes implementing
//! `MessageHandler<Contract>`.  The syntax-tree query that finds those
//! methods and classes hands their texts over as plain records.
use vstd::prelude::*;

use crate::bindings::Bindings;
use crate::hashing::{hash_text, text_hash};
use crate::java::annotations::parens_ok;
use crate::java::kafka::{
    handler_signature, handler_signature_exec, is_listener_edge, listener_annotation_topics,
    listener_edges, value_placeholders, placeholders_from, KafkaIdentificationStrategy,
};
use crate::java::rabbitmq::{
    extract_message_handler_contract, extract_rabbit_listener_queues, handler_contract,
    listener_queues, RabbitMqIdentificationStrategy,
};
use crate::model::{opt_view, CommunicationProtocol, MessageDestinationKind, MessageEdge, MessageRole};
use crate::regexes::regex_captures;
use crate::sorting::texts;
use crate::text::{chars_of, starts_with, starts_with_exec, string_of, text_of};

verus! {

/// A method a listener query matched: its annotations, return type, name,
/// parameter list and whole declaration text.
pub struct ListenerMethod {
    pub annotations: Vec<String>,
    pub return_type: String,
    pub method_name: String,
    pub method_params: String,
    pub method_text: String,
}

/// A class a message-handler query matched: its name, whole declaration
/// text and the texts of the interfaces it implements.
pub struct HandlerClass {
    pub class_name: String,
    pub class_text: String,
    pub interfaces: Vec<String>,
}

/// Every annotation of every method has its parentheses in order.
pub open spec fn annotations_ok(methods: Seq<ListenerMethod>) -> bool {
    forall|m: int, i: int|
        0 <= m < methods.len() && 0 <= i < methods[m].annotations@.len() ==> parens_ok(
            #[trigger] methods[m].annotations@[i]@,
        )
}

pub open spec fn annotation_texts(m: ListenerMethod) -> Seq<Seq<char>> {
    m.annotations@.map_values(|a: String| a@)
}

/// The topics the listener methods consume, each with the index of its
/// method, in order.
pub open spec fn kafka_listener_records(
    methods: Seq<ListenerMethod>,
    placeholders: Map<Seq<char>, Seq<char>>,
) -> Seq<(Seq<char>, int)>
    decreases methods.len(),
{
    if methods.len() == 0 {
        Seq::empty()
    } else {
        let i = methods.len() - 1;
        kafka_listener_records(methods.drop_last(), placeholders) + listener_annotation_topics(
            annotation_texts(methods.last()),
            placeholders,
        ).map_values(|t: Seq<char>| (t, i))
    }
}

pub open spec fn method_signature(m: ListenerMethod) -> Seq<char> {
    handler_signature(m.return_type@, m.method_name@, m.method_params@)
}

impl KafkaIdentificationStrategy {
    /// The consumer edges of the `@KafkaListener` methods of a file, topics
    /// with `${...}` placeholders resolved through the file's `@Value`
    /// fields.
    pub fn identify_from_annotations(&self, code: &str, methods: &[ListenerMethod], file_path: &str) -> (r:
        Vec<MessageEdge>)
        requires
            annotations_ok(methods@),
        ensures
            ({
                let ph = placeholders_from(regex_captures(crate::java::kafka::VALUE_ANNOTATION_PATTERN@, code@));
                let recs = kafka_listener_records(methods@, ph);
                &&& r@.len() == recs.len()
                &&& forall|k: int|
                    0 <= k < recs.len() ==> #[trigger] is_listener_edge(
                        r@[k],
                        recs[k].0,
                        methods@[recs[k].1].method_name@,
                        method_signature(methods@[recs[k].1]),
                        text_hash(methods@[recs[k].1].method_text@),
                        file_path@,
                    )
            }),
    {
        let placeholders = value_placeholders(code);
        let ghost ph = placeholders@;
        let mut out: Vec<MessageEdge> = Vec::new();
        let mut i: usize = 0;
        while i < methods.len()
            invariant
                i <= methods@.len(),
                annotations_ok(methods@),
                ph == placeholders@,
                ph == placeholders_from(regex_captures(crate::java::kafka::VALUE_ANNOTATION_PATTERN@, code@)),
                out@.len() == kafka_listener_records(methods@.take(i as int), ph).len(),
                forall|k: int|
                    0 <= k < out@.len() ==> #[trigger] is_listener_edge(
                        out@[k],
                        kafka_listener_records(methods@.take(i as int), ph)[k].0,
                        methods@[kafka_listener_records(methods@.take(i as int), ph)[k].1].method_name@,
                        method_signature(methods@[kafka_listener_records(methods@.take(i as int), ph)[k].1]),
                        text_hash(methods@[kafka_listener_records(methods@.take(i as int), ph)[k].1].method_text@),
                        file_path@,
                    ),
            decreases methods.len() - i,
        {
            let m = &methods[i];
            assert forall|j: int| 0 <= j < m.annotations@.len() implies parens_ok(#[trigger] m.annotations@[j]@) by {
                assert(parens_ok(methods@[i as int].annotations@[j]@));
            }
            let hash = hash_text(m.method_text.as_str());
            let mut edges = listener_edges(
                m.annotations.as_slice(),
                m.return_type.as_str(),
                m.method_name.as_str(),
                m.method_params.as_str(),
                hash.as_str(),
                &placeholders,
                file_path,
            );
            let ghost before = out@;
            let ghost prev = kafka_listener_records(methods@.take(i as int), ph);
            let ghost added = listener_annotation_topics(annotation_texts(methods@[i as int]), ph);
            assert(m.annotations@.map_values(|a: String| a@) == annotation_texts(methods@[i as int]));
            let ghost new_edges = edges@;
            out.append(&mut edges);
            proof {
                assert(methods@.take(i + 1).drop_last() =~= methods@.take(i as int));
                assert(methods@.take(i + 1).last() == methods@[i as int]);
                let recs = kafka_listener_records(methods@.take(i + 1), ph);
                assert(recs == prev + added.map_values(|t: Seq<char>| (t, i as int)));
                assert forall|k: int| 0 <= k < out@.len() implies #[trigger] is_listener_edge(
                    out@[k],
                    recs[k].0,
                    methods@[recs[k].1].method_name@,
                    method_signature(methods@[recs[k].1]),
                    text_hash(methods@[recs[k].1].method_text@),
                    file_path@,
                ) by {
                    if k < before.len() {
                        assert(out@[k] == before[k]);
                        assert(recs[k] == prev[k]);
                    } else {
                        let k2 = k - before.len();
                        assert(out@[k] == new_edges[k2]);
                        assert(recs[k] == (added[k2], i as int));
                        assert(is_listener_edge(
                            new_edges[k2],
                            added[k2],
                            m.method_name@,
                            handler_signature(m.return_type@, m.method_name@, m.method_params@),
                            hash@,
                            file_path@,
                        ));
                    }
                }
            }
            i = i + 1;
        }
        assert(methods@.take(methods@.len() as int) =~= methods@);
        out
    }
}

/// The queues of the `@RabbitListener` annotations among `annots`, in order.
pub open spec fn rabbit_annotation_queues(annots: Seq<Seq<char>>) -> Seq<Seq<char>>
    decreases annots.len(),
{
    if annots.len() == 0 {
        Seq::empty()
    } else {
        let rest = rabbit_annotation_queues(annots.drop_last());
        if starts_with(annots.last(), "@RabbitListener"@) {
            rest + listener_queues(annots.last())
        } else {
            rest
        }
    }
}

/// The queues the listener methods consume, each with the index of its
/// method, in order.
pub open spec fn rabbit_listener_records(methods: Seq<ListenerMethod>) -> Seq<(Seq<char>, int)>
    decreases methods.len(),
{
    if methods.len() == 0 {
        Seq::empty()
    } else {
        let i = methods.len() - 1;
        rabbit_listener_records(methods.drop_last()) + rabbit_annotation_queues(
            annotation_texts(methods.last()),
        ).map_values(|q: Seq<char>| (q, i))
    }
}

/// `e` is the consumer edge of a handler for a queue.
pub open spec fn is_queue_consumer_edge(
    e: MessageEdge,
    queue: Seq<char>,
    handler: Seq<char>,
    signature: Seq<char>,
    hash: Seq<char>,
    file_path: Seq<char>,
) -> bool {
    &&& e.protocol == CommunicationProtocol::RabbitMq
    &&& e.role == MessageRole::Consumer
    &&& e.destination_kind == MessageDestinationKind::Queue
    &&& e.destination@ == queue
    &&& e.exchange is None
    &&& e.routing_key is None
    &&& opt_view(e.queue) == Some(queue)
    &&& e.topic is None
    &&& opt_view(e.handler) == Some(handler)
    &&& e.function_name@ == signature
    &&& e.function_hash@ == hash
    &&& e.call_arguments.len() == 0
    &&& e.file_path@ == file_path
}

fn queue_consumer_edge(queue: &[char], handler: &[char], signature: &[char], hash: &[char], file_path: &str) -> (r:
    MessageEdge)
    ensures
        is_queue_consumer_edge(r, queue@, handler@, signature@, hash@, file_path@),
{
    MessageEdge {
        protocol: CommunicationProtocol::RabbitMq,
        role: MessageRole::Consumer,
        destination_kind: MessageDestinationKind::Queue,
        destination: string_of(queue),
        exchange: None,
        routing_key: None,
        queue: Some(string_of(queue)),
        topic: None,
        handler: Some(string_of(handler)),
        function_name: string_of(signature),
        function_hash: string_of(hash),
        call_arguments: Vec::new(),
        file_path: string_of(&chars_of(file_path)),
    }
}

/// The texts of the handler classes' contracts, each with the index of its
/// class, in order.
pub open spec fn contract_records_of(interfaces: Seq<Seq<char>>, i: int) -> Seq<(Seq<char>, int)>
    decreases interfaces.len(),
{
    if interfaces.len() == 0 {
        Seq::empty()
    } else {
        let rest = contract_records_of(interfaces.drop_last(), i);
        match handler_contract(interfaces.last()) {
            Some(c) => rest.push((c, i)),
            None => rest,
        }
    }
}

pub open spec fn handler_records(classes: Seq<HandlerClass>) -> Seq<(Seq<char>, int)>
    decreases classes.len(),
{
    if classes.len() == 0 {
        Seq::empty()
    } else {
        handler_records(classes.drop_last()) + contract_records_of(
            classes.last().interfaces@.map_values(|s: String| s@),
            classes.len() - 1,
        )
    }
}

impl RabbitMqIdentificationStrategy {
    /// The consumer edges of the `@RabbitListener` methods of a file.
    pub fn identify_from_annotations(&self, methods: &[ListenerMethod], file_path: &str) -> (r: Vec<
        MessageEdge,
    >)
        requires
            annotations_ok(methods@),
        ensures
            ({
                let recs = rabbit_listener_records(methods@);
                &&& r@.len() == recs.len()
                &&& forall|k: int|
                    0 <= k < recs.len() ==> #[trigger] is_queue_consumer_edge(
                        r@[k],
                        recs[k].0,
                        methods@[recs[k].1].method_name@,
                        method_signature(methods@[recs[k].1]),
                        text_hash(methods@[recs[k].1].method_text@),
                        file_path@,
                    )
            }),
    {
        let mut out: Vec<MessageEdge> = Vec::new();
        let mut i: usize = 0;
        while i < methods.len()
            invariant
                i <= methods@.len(),
                annotations_ok(methods@),
                out@.len() == rabbit_listener_records(methods@.take(i as int)).len(),
                forall|k: int|
                    0 <= k < out@.len() ==> #[trigger] is_queue_consumer_edge(
                        out@[k],
                        rabbit_listener_records(methods@.take(i as int))[k].0,
                        methods@[rabbit_listener_records(methods@.take(i as int))[k].1].method_name@,
                        method_signature(methods@[rabbit_listener_records(methods@.take(i as int))[k].1]),
                        text_hash(methods@[rabbit_listener_records(methods@.take(i as int))[k].1].method_text@),
                        file_path@,
                    ),
            decreases methods.len() - i,
        {
            let m = &methods[i];
            assert(methods@.take(i + 1).drop_last() =~= methods@.take(i as int));
            assert(methods@.take(i + 1).last() == methods@[i as int]);
            let ghost av = annotation_texts(methods@[i as int]);
            let ghost prev = rabbit_listener_records(methods@.take(i as int));
            let name = text_of(&m.method_name);
            let signature = handler_signature_exec(
                &text_of(&m.return_type),
                &name,
                &text_of(&m.method_params),
            );
            let hash = text_of(&hash_text(m.method_text.as_str()));
            let ghost base = out@;
            let mut a: usize = 0;
            while a < m.annotations.len()
                invariant
                    a <= m.annotations@.len(),
                    i < methods@.len(),
                    *m == methods@[i as int],
                    av == annotation_texts(methods@[i as int]),
                    annotations_ok(methods@),
                    base.len() == prev.len(),
                    out@.subrange(0, base.len() as int) == base,
                    out@.len() == base.len() + rabbit_annotation_queues(av.take(a as int)).len(),
                    forall|k: int|
                        0 <= k < rabbit_annotation_queues(av.take(a as int)).len() ==> #[trigger] is_queue_consumer_edge(
                            out@[base.len() + k],
                            rabbit_annotation_queues(av.take(a as int))[k],
                            name@,
                            signature@,
                            hash@,
                            file_path@,
                        ),
                decreases m.annotations.len() - a,
            {
                assert(av.take(a + 1).drop_last() =~= av.take(a as int));
                assert(av.take(a + 1).last() == m.annotations@[a as int]@);
                let text = text_of(&m.annotations[a]);
                if starts_with_exec(&text, &chars_of("@RabbitListener")) {
                    assert(parens_ok(methods@[i as int].annotations@[a as int]@));
                    let queues = extract_rabbit_listener_queues(m.annotations[a].as_str());
                    let ghost before_q = rabbit_annotation_queues(av.take(a as int));
                    let mut q: usize = 0;
                    while q < queues.len()
                        invariant
                            q <= queues@.len(),
                            texts(queues@) == listener_queues(av[a as int]),
                            out@.subrange(0, base.len() as int) == base,
                            out@.len() == base.len() + before_q.len() + q,
                            forall|k: int|
                                0 <= k < before_q.len() + q ==> #[trigger] is_queue_consumer_edge(
                                    out@[base.len() + k],
                                    (before_q + listener_queues(av[a as int]))[k],
                                    name@,
                                    signature@,
                                    hash@,
                                    file_path@,
                                ),
                        decreases queues.len() - q,
                    {
                        let e = queue_consumer_edge(&text_of(&queues[q]), &name, &signature, &hash, file_path);
                        let ghost o0 = out@;
                        out.push(e);
                        proof {
                            assert(out@.subrange(0, base.len() as int) =~= o0.subrange(0, base.len() as int));
                            assert(texts(queues@)[q as int] == queues@[q as int]@);
                            assert forall|k: int| 0 <= k < before_q.len() + q + 1 implies #[trigger] is_queue_consumer_edge(
                                out@[base.len() + k],
                                (before_q + listener_queues(av[a as int]))[k],
                                name@,
                                signature@,
                                hash@,
                                file_path@,
                            ) by {
                                if k < before_q.len() + q {
                                    assert(out@[base.len() + k] == o0[base.len() + k]);
                                }
                            }
                        }
                        q = q + 1;
                    }
                    assert(rabbit_annotation_queues(av.take(a + 1)) =~= before_q + listener_queues(av[a as int]));
                }
                a = a + 1;
            }
            assert(av.take(m.annotations@.len() as int) =~= av);
            proof {
                let recs = rabbit_listener_records(methods@.take(i + 1));
                let added = rabbit_annotation_queues(av);
                assert(recs == prev + added.map_values(|x: Seq<char>| (x, i as int)));
                assert forall|k: int| 0 <= k < out@.len() implies #[trigger] is_queue_consumer_edge(
                    out@[k],
                    recs[k].0,
                    methods@[recs[k].1].method_name@,
                    method_signature(methods@[recs[k].1]),
                    text_hash(methods@[recs[k].1].method_text@),
                    file_path@,
                ) by {
                    if k < base.len() {
                        assert(out@.subrange(0, base.len() as int)[k] == out@[k]);
                        assert(recs[k] == prev[k]);
                    } else {
                        let k2 = k - base.len();
                        assert(recs[k] == (added[k2], i as int));
                        assert(is_queue_consumer_edge(out@[base.len() + k2], added[k2], name@, signature@, hash@, file_path@));
                    }
                }
            }
            i = i + 1;
        }
        assert(methods@.take(methods@.len() as int) =~= methods@);
        out
    }

    /// The consumer edges of the classes implementing
    /// `MessageHandler<Contract>`: one per contract, named after the class.
    pub fn identify_from_message_handlers(&self, classes: &[HandlerClass], file_path: &str) -> (r: Vec<
        MessageEdge,
    >)
        ensures
            ({
                let recs = handler_records(classes@);
                &&& r@.len() == recs.len()
                &&& forall|k: int|
                    0 <= k < recs.len() ==> #[trigger] is_queue_consumer_edge(
                        r@[k],
                        recs[k].0,
                        classes@[recs[k].1].class_name@,
                        classes@[recs[k].1].class_name@,
                        text_hash(classes@[recs[k].1].class_text@),
                        file_path@,
                    )
            }),
    {
        let mut out: Vec<MessageEdge> = Vec::new();
        let mut i: usize = 0;
        while i < classes.len()
            invariant
                i <= classes@.len(),
                out@.len() == handler_records(classes@.take(i as int)).len(),
                forall|k: int|
                    0 <= k < out@.len() ==> #[trigger] is_queue_consumer_edge(
                        out@[k],
                        handler_records(classes@.take(i as int))[k].0,
                        classes@[handler_records(classes@.take(i as int))[k].1].class_name@,
                        classes@[handler_records(classes@.take(i as int))[k].1].class_name@,
                        text_hash(classes@[handler_records(classes@.take(i as int))[k].1].class_text@),
                        file_path@,
                    ),
            decreases classes.len() - i,
        {
            let c = &classes[i];
            assert(classes@.take(i + 1).drop_last() =~= classes@.take(i as int));
            assert(classes@.take(i + 1).last() == classes@[i as int]);
            let ghost iv = c.interfaces@.map_values(|s: String| s@);
            let ghost prev = handler_records(classes@.take(i as int));
            let name = text_of(&c.class_name);
            let hash = text_of(&hash_text(c.class_text.as_str()));
            let ghost base = out@;
            let mut j: usize = 0;
            while j < c.interfaces.len()
                invariant
                    j <= c.interfaces@.len(),
                    i < classes@.len(),
                    *c == classes@[i as int],
                    iv == c.interfaces@.map_values(|s: String| s@),
                    base.len() == prev.len(),
                    out@.subrange(0, base.len() as int) == base,
                    out@.len() == base.len() + contract_records_of(iv.take(j as int), i as int).len(),
                    forall|k: int|
                        0 <= k < contract_records_of(iv.take(j as int), i as int).len() ==> #[trigger] is_queue_consumer_edge(
                            out@[base.len() + k],
                            contract_records_of(iv.take(j as int), i as int)[k].0,
                            name@,
                            name@,
                            hash@,
                            file_path@,
                        ),
                    forall|k: int|
                        0 <= k < contract_records_of(iv.take(j as int), i as int).len() ==> #[trigger] contract_records_of(
                            iv.take(j as int),
                            i as int,
                        )[k].1 == i,
                decreases c.interfaces.len() - j,
            {
                assert(iv.take(j + 1).drop_last() =~= iv.take(j as int));
                assert(iv.take(j + 1).last() == c.interfaces@[j as int]@);
                match extract_message_handler_contract(c.interfaces[j].as_str()) {
                    Some(contract) => {
                        let e = queue_consumer_edge(&text_of(&contract), &name, &name, &hash, file_path);
                        let ghost o0 = out@;
                        out.push(e);
                        proof {
                            assert(out@.subrange(0, base.len() as int) =~= o0.subrange(0, base.len() as int));
                            let before_c = contract_records_of(iv.take(j as int), i as int);
                            assert forall|k: int| 0 <= k < before_c.len() + 1 implies #[trigger] is_queue_consumer_edge(
                                out@[base.len() + k],
                                before_c.push((contract@, i as int))[k].0,
                                name@,
                                name@,
                                hash@,
                                file_path@,
                            ) by {
                                if k < before_c.len() {
                                    assert(out@[base.len() + k] == o0[base.len() + k]);
                                }
                            }
                        }
                    },
                    None => {},
                }
                j = j + 1;
            }
            assert(iv.take(c.interfaces@.len() as int) =~= iv);
            proof {
                let recs = handler_records(classes@.take(i + 1));
                let added = contract_records_of(iv, i as int);
                assert(recs == prev + added);
                assert forall|k: int| 0 <= k < out@.len() implies #[trigger] is_queue_consumer_edge(
                    out@[k],
                    recs[k].0,
                    classes@[recs[k].1].class_name@,
                    classes@[recs[k].1].class_name@,
                    text_hash(classes@[recs[k].1].class_text@),
                    file_path@,
                ) by {
                    if k < base.len() {
                        assert(out@.subrange(0, base.len() as int)[k] == out@[k]);
                        assert(recs[k] == prev[k]);
                    } else {
                        let k2 = k - base.len();
                        assert(recs[k] == added[k2]);
                        assert(added[k2].1 == i);
                        assert(is_queue_consumer_edge(out@[base.len() + k2], added[k2].0, name@, name@, hash@, file_path@));
                    }
                }
            }
            i = i + 1;
        }
        assert(classes@.take(classes@.len() as int) =~= classes@);
        out
    }
}

} // verus!
