//! Kafka producers, consumers and topic declarations in Java code (Spring
//! Kafka, the Apache client, Kafka Streams).
use vstd::prelude::*;

use crate::bindings::Bindings;
use crate::java::annotations::parens_ok;
use crate::java::strings::{
    annotation_values, clean_java_value, clean_java_value_exec, method_name, method_name_exec,
    placeholder_key, placeholder_key_exec, resolve_placeholder_alias,
    resolve_placeholder_alias_exec, split_annotation_values, split_top_level, split_top_level_exec,
};
use crate::model::{
    copy_arguments, opt_or_empty, opt_or_empty_exec, opt_view, same_arguments, Argument,
    CallStatement, CommunicationProtocol, MessageDestinationKind, MessageEdge, MessageRole,
};
use crate::regexes::{captures_all, captures_view, group, group_exec, regex_captures};
use crate::sorting::texts;
use crate::text::{
    chars_eq, chars_of, contains, contains_exec, find, find_char_exec, rfind, rfind_char_exec,
    slice_chars, split_once, split_once_exec, starts_with, starts_with_exec, string_of, text_of,
    trim, trim_exec,
};

verus! {

pub const VALUE_ANNOTATION_PATTERN: &'static str = r#"@Value\s*\(\s*"(?P<placeholder>\$\{[^"]+\})"\s*\)\s+(?:(?:private|public|protected|final)\s+)*(?:[\w<>?,\s]+\s+)?(?P<name>[A-Za-z_][A-Za-z0-9_]*)"#;

pub const STREAM_OUTPUT_PATTERN: &'static str = r"\.to\s*\(\s*([A-Za-z_][A-Za-z0-9_\.]*)\s*\)";

/// The label of producer edges recovered from Kafka Streams `.to(...)` calls.
pub const STREAM_OUTPUT_LABEL: &'static str = "Kafka Streams .to";

/// Recognises Kafka message flows in Java files.
#[derive(Default, Debug, Clone, Copy)]
pub struct KafkaIdentificationStrategy;

/// The placeholder aliases that `@Value("${key}")` field matches declare,
/// later declarations of a name replacing earlier ones.
pub open spec fn placeholders_from(c: Seq<Seq<Option<Seq<char>>>>) -> Map<Seq<char>, Seq<char>>
    decreases c.len(),
{
    if c.len() == 0 {
        Map::empty()
    } else {
        let m = placeholders_from(c.drop_last());
        match (group(c.last(), 2), group(c.last(), 1)) {
            (Some(name), Some(placeholder)) => m.insert(name, placeholder_key(placeholder)),
            _ => m,
        }
    }
}

/// The placeholder aliases of a list of `@Value` matches.
pub fn placeholders_from_captures(c: &Vec<Vec<Option<String>>>) -> (r: Bindings)
    ensures
        r@ == placeholders_from(captures_view(c@)),
{
    let ghost cv = captures_view(c@);
    let mut r = Bindings::new();
    let mut i: usize = 0;
    while i < c.len()
        invariant
            i <= c@.len(),
            cv == captures_view(c@),
            r@ == placeholders_from(cv.take(i as int)),
        decreases c.len() - i,
    {
        assert(cv.take(i + 1).drop_last() =~= cv.take(i as int));
        assert(cv[i as int] == c@[i as int]@.map_values(|g: Option<String>| opt_view(g)));
        let name = group_exec(&c[i], 2);
        let placeholder = group_exec(&c[i], 1);
        match (name, placeholder) {
            (Some(n), Some(p)) => {
                let key = placeholder_key_exec(&text_of(&p));
                r.insert(n, string_of(&key));
            },
            _ => {},
        }
        i = i + 1;
    }
    assert(cv.take(c@.len() as int) =~= cv);
    r
}

/// The placeholder aliases that `@Value("${key}")` fields of `code` declare.
pub fn value_placeholders(code: &str) -> (r: Bindings)
    ensures
        r@ == placeholders_from(regex_captures(VALUE_ANNOTATION_PATTERN@, code@)),
{
    let c = captures_all(VALUE_ANNOTATION_PATTERN, code);
    placeholders_from_captures(&c)
}

/// Whether the code mentions one of the markers.
pub open spec fn contains_any_marker(code: Seq<char>, markers: Seq<Seq<char>>) -> bool {
    exists|k: int| 0 <= k < markers.len() && contains(code, #[trigger] markers[k])
}

pub open spec fn kafka_file_markers() -> Seq<Seq<char>> {
    seq![
        "KafkaTemplate"@, "KafkaProducer"@, "KafkaConsumer"@, "ProducerRecord"@,
        "StreamsBuilder"@, "KStream"@, "org.springframework.kafka"@, "org.apache.kafka"@
    ]
}

pub open spec fn kafka_stream_markers() -> Seq<Seq<char>> {
    seq!["StreamsBuilder"@, "KStream"@]
}

pub fn contains_any_marker_exec(code: &[char], markers: &Vec<Vec<char>>) -> (r: bool)
    ensures
        r == contains_any_marker(code@, markers@.map_values(|m: Vec<char>| m@)),
{
    let ghost mv = markers@.map_values(|m: Vec<char>| m@);
    let mut k: usize = 0;
    while k < markers.len()
        invariant
            k <= markers@.len(),
            mv == markers@.map_values(|m: Vec<char>| m@),
            forall|j: int| 0 <= j < k ==> !contains(code@, #[trigger] mv[j]),
        decreases markers.len() - k,
    {
        if contains_exec(code, &markers[k]) {
            assert(contains(code@, mv[k as int]));
            return true;
        }
        k = k + 1;
    }
    false
}

fn file_markers() -> (r: Vec<Vec<char>>)
    ensures
        r@.map_values(|m: Vec<char>| m@) == kafka_file_markers(),
{
    let mut r: Vec<Vec<char>> = Vec::new();
    r.push(chars_of("KafkaTemplate"));
    r.push(chars_of("KafkaProducer"));
    r.push(chars_of("KafkaConsumer"));
    r.push(chars_of("ProducerRecord"));
    r.push(chars_of("StreamsBuilder"));
    r.push(chars_of("KStream"));
    r.push(chars_of("org.springframework.kafka"));
    r.push(chars_of("org.apache.kafka"));
    assert(r@.map_values(|m: Vec<char>| m@) =~= kafka_file_markers());
    r
}

fn stream_markers() -> (r: Vec<Vec<char>>)
    ensures
        r@.map_values(|m: Vec<char>| m@) == kafka_stream_markers(),
{
    let mut r: Vec<Vec<char>> = Vec::new();
    r.push(chars_of("StreamsBuilder"));
    r.push(chars_of("KStream"));
    assert(r@.map_values(|m: Vec<char>| m@) =~= kafka_stream_markers());
    r
}

/// The cleaned non-empty values, in order.
pub open spec fn cleaned_nonempty(vs: Seq<Seq<char>>) -> Seq<Seq<char>>
    decreases vs.len(),
{
    if vs.len() == 0 {
        Seq::empty()
    } else {
        let rest = cleaned_nonempty(vs.drop_last());
        let c = clean_java_value(vs.last());
        if c.len() > 0 {
            rest.push(c)
        } else {
            rest
        }
    }
}

pub fn cleaned_nonempty_exec(vs: &Vec<String>) -> (r: Vec<String>)
    ensures
        texts(r@) == cleaned_nonempty(texts(vs@)),
{
    let ghost tv = texts(vs@);
    let mut r: Vec<String> = Vec::new();
    let mut i: usize = 0;
    while i < vs.len()
        invariant
            i <= vs@.len(),
            tv == texts(vs@),
            texts(r@) == cleaned_nonempty(tv.take(i as int)),
        decreases vs.len() - i,
    {
        assert(tv.take(i + 1).drop_last() =~= tv.take(i as int));
        let c = clean_java_value_exec(&text_of(&vs[i]));
        if c.len() > 0 {
            r.push(string_of(&c));
            assert(texts(r@) =~= cleaned_nonempty(tv.take(i as int)).push(c@));
        }
        i = i + 1;
    }
    assert(tv.take(vs@.len() as int) =~= tv);
    r
}

/// The first top-level argument `name = value` whose name is one of `keys`.
pub open spec fn named_argument(parts: Seq<Seq<char>>, keys: Seq<Seq<char>>) -> Option<Seq<char>>
    decreases parts.len(),
{
    if parts.len() == 0 {
        None
    } else {
        match split_once(parts[0], '=') {
            Some((name, value)) if keys.contains(trim(name)) => Some(value),
            _ => named_argument(parts.drop_first(), keys),
        }
    }
}

/// The values of the first argument named by one of `keys`; a single
/// unnamed argument counts as named.
pub open spec fn named_annotation_values(inside: Seq<char>, keys: Seq<Seq<char>>) -> Seq<Seq<char>> {
    let parts = split_top_level(inside);
    match named_argument(parts, keys) {
        Some(value) => annotation_values(value),
        None => if parts.len() == 1 && !inside.contains('=') {
            annotation_values(inside)
        } else {
            Seq::empty()
        },
    }
}

pub open spec fn listener_keys() -> Seq<Seq<char>> {
    seq!["topics"@, "topic"@, "value"@]
}

fn is_listener_key(name: &[char]) -> (r: bool)
    ensures
        r == listener_keys().contains(name@),
{
    let r = chars_eq(name, &chars_of("topics")) || chars_eq(name, &chars_of("topic")) || chars_eq(
        name,
        &chars_of("value"),
    );
    proof {
        if r {
            if name@ == "topics"@ {
                assert(listener_keys()[0] == name@);
            } else if name@ == "topic"@ {
                assert(listener_keys()[1] == name@);
            } else {
                assert(listener_keys()[2] == name@);
            }
        } else {
            assert forall|k: int| 0 <= k < 3 implies listener_keys()[k] != name@ by {}
        }
    }
    r
}

fn named_listener_values(inside: &[char]) -> (r: Vec<String>)
    ensures
        texts(r@) == named_annotation_values(inside@, listener_keys()),
{
    let parts = split_top_level_exec(inside);
    let ghost pv = texts(parts@);
    assert(pv.skip(0) =~= pv);
    let mut i: usize = 0;
    while i < parts.len()
        invariant
            i <= parts@.len(),
            pv == texts(parts@),
            pv == split_top_level(inside@),
            named_argument(pv, listener_keys()) == named_argument(pv.skip(i as int), listener_keys()),
        decreases parts.len() - i,
    {
        assert(pv.skip(i as int).drop_first() =~= pv.skip(i + 1));
        assert(pv.skip(i as int)[0] == parts@[i as int]@);
        match split_once_exec(&text_of(&parts[i]), '=') {
            Some((name, value)) => {
                if is_listener_key(&trim_exec(&name)) {
                    return split_annotation_values(&value);
                }
            },
            None => {},
        }
        i = i + 1;
    }
    assert(pv.skip(i as int) =~= Seq::<Seq<char>>::empty());
    if parts.len() == 1 && !crate::text::contains_char_exec(inside, '=') {
        split_annotation_values(inside)
    } else {
        Vec::new()
    }
}

/// The topics a `@KafkaListener(...)` annotation names, cleaned.
pub open spec fn listener_topics(annotation: Seq<char>) -> Seq<Seq<char>> {
    match (find(annotation, seq!['(']), rfind(annotation, seq![')'])) {
        (Some(s), Some(e)) => {
            let inside = trim(annotation.subrange(s + 1, e));
            if inside.len() == 0 {
                Seq::empty()
            } else {
                cleaned_nonempty(named_annotation_values(inside, listener_keys()))
            }
        },
        _ => Seq::empty(),
    }
}

pub fn extract_kafka_listener_topics(annotation: &str) -> (r: Vec<String>)
    requires
        parens_ok(annotation@),
    ensures
        texts(r@) == listener_topics(annotation@),
{
    let a = chars_of(annotation);
    proof {
        crate::text::lemma_find(a@, seq!['(']);
        crate::text::lemma_rfind(a@, seq![')']);
    }
    let s = match find_char_exec(&a, '(') {
        Some(s) => s,
        None => return Vec::new(),
    };
    let e = match rfind_char_exec(&a, ')') {
        Some(e) => e,
        None => return Vec::new(),
    };
    let inside = trim_exec(&slice_chars(&a, s + 1, e));
    if inside.len() == 0 {
        return Vec::new();
    }
    cleaned_nonempty_exec(&named_listener_values(&inside))
}

/// The topics of a `subscribe` argument such as `Arrays.asList("a", "b")`,
/// or the argument itself when it has no argument list.
pub open spec fn topics_argument(raw: Seq<char>) -> Seq<Seq<char>> {
    match (find(raw, seq!['(']), rfind(raw, seq![')'])) {
        (Some(s), Some(e)) => cleaned_nonempty(split_top_level(raw.subrange(s + 1, e))),
        _ => seq![raw],
    }
}

pub fn split_topics_argument(raw: &[char]) -> (r: Vec<String>)
    requires
        parens_ok(raw@),
    ensures
        texts(r@) == topics_argument(raw@),
{
    proof {
        crate::text::lemma_find(raw@, seq!['(']);
        crate::text::lemma_rfind(raw@, seq![')']);
    }
    let s = find_char_exec(raw, '(');
    let e = rfind_char_exec(raw, ')');
    match (s, e) {
        (Some(s), Some(e)) => cleaned_nonempty_exec(&split_top_level_exec(&slice_chars(raw, s + 1, e))),
        _ => {
            let mut r: Vec<String> = Vec::new();
            r.push(string_of(raw));
            assert(texts(r@) =~= seq![raw@]);
            r
        },
    }
}

/// The topic a call's first argument names, placeholders resolved.
pub open spec fn first_topic(call: CallStatement, placeholders: Map<Seq<char>, Seq<char>>) -> Seq<char> {
    resolve_placeholder_alias(clean_java_value(call.arguments[0].value@), placeholders)
}

/// The role and topic of a Kafka client call, if it is one.
pub open spec fn kafka_call(
    call: CallStatement,
    placeholders: Map<Seq<char>, Seq<char>>,
    kafka_file: bool,
    streams_file: bool,
) -> Option<(MessageRole, Seq<char>)> {
    let m = method_name(call.function_name@);
    if call.arguments.len() == 0 {
        None
    } else if m == "send"@ && kafka_file {
        Some((MessageRole::Producer, first_topic(call, placeholders)))
    } else if m == "ProducerRecord"@ && kafka_file {
        Some((MessageRole::Producer, first_topic(call, placeholders)))
    } else if m == "subscribe"@ && kafka_file {
        let raw = clean_java_value(call.arguments[0].value@);
        let topics = topics_argument(raw);
        Some((
            MessageRole::Consumer,
            resolve_placeholder_alias(if topics.len() > 0 { topics[0] } else { raw }, placeholders),
        ))
    } else if m == "receive"@ && kafka_file {
        Some((MessageRole::Consumer, first_topic(call, placeholders)))
    } else if m == "stream"@ && streams_file {
        Some((MessageRole::Consumer, first_topic(call, placeholders)))
    } else if m == "to"@ && streams_file {
        Some((MessageRole::Producer, first_topic(call, placeholders)))
    } else if m == "name"@ && (starts_with(call.function_name@, "TopicBuilder.name("@)
        || kafka_file) {
        Some((MessageRole::TopicDeclaration, first_topic(call, placeholders)))
    } else if m == "NewTopic"@ && kafka_file {
        Some((MessageRole::TopicDeclaration, first_topic(call, placeholders)))
    } else {
        None
    }
}

/// The argument of a `subscribe` call never puts a `)` before its `(`.
pub open spec fn call_ok(call: CallStatement) -> bool {
    call.arguments.len() > 0 ==> parens_ok(clean_java_value(call.arguments[0].value@))
}

/// `e` is the Kafka topic edge for `topic` in `role` recorded at `call`.
pub open spec fn is_call_edge(
    e: MessageEdge,
    role: MessageRole,
    topic: Seq<char>,
    call: CallStatement,
    file_path: Seq<char>,
) -> bool {
    &&& e.protocol == CommunicationProtocol::Kafka
    &&& e.role == role
    &&& e.destination_kind == MessageDestinationKind::Topic
    &&& e.destination@ == topic
    &&& e.exchange is None
    &&& e.routing_key is None
    &&& e.queue is None
    &&& opt_view(e.topic) == Some(topic)
    &&& e.handler is None
    &&& e.function_name@ == opt_or_empty(call.enclosing_function_name)
    &&& e.function_hash@ == opt_or_empty(call.enclosing_function_hash)
    &&& same_arguments(e.call_arguments@, call.arguments@)
    &&& e.file_path@ == file_path
}

fn call_edge(role: MessageRole, topic: &[char], call: &CallStatement, file_path: &str) -> (r:
    MessageEdge)
    ensures
        is_call_edge(r, role, topic@, *call, file_path@),
{
    MessageEdge {
        protocol: CommunicationProtocol::Kafka,
        role,
        destination_kind: MessageDestinationKind::Topic,
        destination: string_of(topic),
        exchange: None,
        routing_key: None,
        queue: None,
        topic: Some(string_of(topic)),
        handler: None,
        function_name: opt_or_empty_exec(&call.enclosing_function_name),
        function_hash: opt_or_empty_exec(&call.enclosing_function_hash),
        call_arguments: copy_arguments(&call.arguments),
        file_path: string_of(&chars_of(file_path)),
    }
}

fn is_method(m: &[char], name: &str) -> (r: bool)
    ensures
        r == (m@ == name@),
{
    chars_eq(m, &chars_of(name))
}

/// The Kafka edge of one call statement.
pub fn identify_call(
    call: &CallStatement,
    file_path: &str,
    placeholders: &Bindings,
    kafka_file: bool,
    streams_file: bool,
) -> (r: Option<MessageEdge>)
    requires
        call_ok(*call),
    ensures
        r matches Some(e) ==> kafka_call(*call, placeholders@, kafka_file, streams_file) matches Some((role, topic)) && is_call_edge(e, role, topic, *call, file_path@),
        r is None ==> kafka_call(*call, placeholders@, kafka_file, streams_file) is None,
{
    if call.arguments.len() == 0 {
        return None;
    }
    let m = method_name_exec(&text_of(&call.function_name));
    let arg0 = text_of(&call.arguments[0].value);
    let first = resolve_placeholder_alias_exec(&clean_java_value_exec(&arg0), placeholders);
    if is_method(&m, "send") && kafka_file {
        Some(call_edge(MessageRole::Producer, &first, call, file_path))
    } else if is_method(&m, "ProducerRecord") && kafka_file {
        Some(call_edge(MessageRole::Producer, &first, call, file_path))
    } else if is_method(&m, "subscribe") && kafka_file {
        let raw = clean_java_value_exec(&arg0);
        let topics = split_topics_argument(&raw);
        let chosen = if topics.len() > 0 {
            text_of(&topics[0])
        } else {
            raw
        };
        let topic = resolve_placeholder_alias_exec(&chosen, placeholders);
        Some(call_edge(MessageRole::Consumer, &topic, call, file_path))
    } else if is_method(&m, "receive") && kafka_file {
        Some(call_edge(MessageRole::Consumer, &first, call, file_path))
    } else if is_method(&m, "stream") && streams_file {
        Some(call_edge(MessageRole::Consumer, &first, call, file_path))
    } else if is_method(&m, "to") && streams_file {
        Some(call_edge(MessageRole::Producer, &first, call, file_path))
    } else if is_method(&m, "name") && (starts_with_exec(
        &text_of(&call.function_name),
        &chars_of("TopicBuilder.name("),
    ) || kafka_file) {
        Some(call_edge(MessageRole::TopicDeclaration, &first, call, file_path))
    } else if is_method(&m, "NewTopic") && kafka_file {
        Some(call_edge(MessageRole::TopicDeclaration, &first, call, file_path))
    } else {
        None
    }
}

/// The Kafka edges of the calls, in call order.
pub open spec fn call_edges_spec(
    calls: Seq<CallStatement>,
    placeholders: Map<Seq<char>, Seq<char>>,
    kafka_file: bool,
    streams_file: bool,
) -> Seq<(MessageRole, Seq<char>, CallStatement)>
    decreases calls.len(),
{
    if calls.len() == 0 {
        Seq::empty()
    } else {
        let rest = call_edges_spec(calls.drop_last(), placeholders, kafka_file, streams_file);
        match kafka_call(calls.last(), placeholders, kafka_file, streams_file) {
            Some((role, topic)) => rest.push((role, topic, calls.last())),
            None => rest,
        }
    }
}

/// The Kafka edges of the calls given the placeholder aliases of the file
/// and whether it uses Kafka and Kafka Streams at all.
pub fn identify_calls(
    calls: &[CallStatement],
    file_path: &str,
    placeholders: &Bindings,
    kafka_file: bool,
    streams_file: bool,
) -> (r: Vec<MessageEdge>)
    requires
        forall|i: int| 0 <= i < calls@.len() ==> call_ok(#[trigger] calls@[i]),
    ensures
        r.len() == call_edges_spec(calls@, placeholders@, kafka_file, streams_file).len(),
        forall|k: int|
            0 <= k < r.len() ==> {
                let t = #[trigger] call_edges_spec(calls@, placeholders@, kafka_file, streams_file)[k];
                is_call_edge(r@[k], t.0, t.1, t.2, file_path@)
            },
{
    let mut r: Vec<MessageEdge> = Vec::new();
    let mut i: usize = 0;
    while i < calls.len()
        invariant
            i <= calls@.len(),
            forall|j: int| 0 <= j < calls@.len() ==> call_ok(#[trigger] calls@[j]),
            r.len() == call_edges_spec(calls@.take(i as int), placeholders@, kafka_file, streams_file).len(),
            forall|k: int|
                0 <= k < r.len() ==> {
                    let t = #[trigger] call_edges_spec(calls@.take(i as int), placeholders@, kafka_file, streams_file)[k];
                    is_call_edge(r@[k], t.0, t.1, t.2, file_path@)
                },
        decreases calls.len() - i,
    {
        assert(calls@.take(i + 1).drop_last() =~= calls@.take(i as int));
        assert(calls@.take(i + 1).last() == calls@[i as int]);
        match identify_call(&calls[i], file_path, placeholders, kafka_file, streams_file) {
            Some(e) => {
                r.push(e);
            },
            None => {},
        }
        i = i + 1;
    }
    assert(calls@.take(calls@.len() as int) =~= calls@);
    r
}

/// Whether some call already records a `.to(topic)` invocation.
pub open spec fn output_captured(calls: Seq<CallStatement>, topic: Seq<char>) -> bool {
    exists|i: int|
        0 <= i < calls.len() && method_name(#[trigger] calls[i].function_name@) == "to"@
            && calls[i].arguments.len() > 0 && clean_java_value(calls[i].arguments[0].value@)
            == topic
}

/// The topics of `.to(topic)` matches that no call statement records, in
/// match order.
pub open spec fn stream_outputs(caps: Seq<Seq<Option<Seq<char>>>>, calls: Seq<CallStatement>) -> Seq<Seq<char>>
    decreases caps.len(),
{
    if caps.len() == 0 {
        Seq::empty()
    } else {
        let rest = stream_outputs(caps.drop_last(), calls);
        match group(caps.last(), 1) {
            Some(topic) => if output_captured(calls, topic) {
                rest
            } else {
                rest.push(topic)
            },
            None => rest,
        }
    }
}

fn output_captured_exec(calls: &[CallStatement], topic: &[char]) -> (r: bool)
    ensures
        r == output_captured(calls@, topic@),
{
    let mut i: usize = 0;
    while i < calls.len()
        invariant
            i <= calls@.len(),
            forall|j: int|
                0 <= j < i ==> !(method_name(#[trigger] calls@[j].function_name@) == "to"@
                    && calls@[j].arguments.len() > 0 && clean_java_value(
                    calls@[j].arguments[0].value@,
                ) == topic@),
        decreases calls.len() - i,
    {
        let m = method_name_exec(&text_of(&calls[i].function_name));
        if is_method(&m, "to") && calls[i].arguments.len() > 0 && chars_eq(
            &clean_java_value_exec(&text_of(&calls[i].arguments[0].value)),
            topic,
        ) {
            return true;
        }
        i = i + 1;
    }
    false
}

/// `e` is a producer edge recovered from a Kafka Streams `.to(topic)` chain.
pub open spec fn is_stream_output_edge(e: MessageEdge, topic: Seq<char>, file_path: Seq<char>) -> bool {
    &&& e.protocol == CommunicationProtocol::Kafka
    &&& e.role == MessageRole::Producer
    &&& e.destination_kind == MessageDestinationKind::Topic
    &&& e.destination@ == topic
    &&& e.exchange is None
    &&& e.routing_key is None
    &&& e.queue is None
    &&& opt_view(e.topic) == Some(topic)
    &&& e.handler is None
    &&& e.function_name@ == STREAM_OUTPUT_LABEL@
    &&& e.function_hash@ == Seq::<char>::empty()
    &&& e.call_arguments.len() == 0
    &&& e.file_path@ == file_path
}

/// The producer edges of `.to(topic)` matches that no call statement
/// records, placeholders resolved.
pub fn stream_output_edges(
    caps: &Vec<Vec<Option<String>>>,
    calls: &[CallStatement],
    placeholders: &Bindings,
    file_path: &str,
) -> (r: Vec<MessageEdge>)
    ensures
        r.len() == stream_outputs(captures_view(caps@), calls@).len(),
        forall|k: int|
            0 <= k < r.len() ==> is_stream_output_edge(
                #[trigger] r@[k],
                resolve_placeholder_alias(stream_outputs(captures_view(caps@), calls@)[k], placeholders@),
                file_path@,
            ),
{
    let ghost cv = captures_view(caps@);
    let mut r: Vec<MessageEdge> = Vec::new();
    let mut i: usize = 0;
    while i < caps.len()
        invariant
            i <= caps@.len(),
            cv == captures_view(caps@),
            r.len() == stream_outputs(cv.take(i as int), calls@).len(),
            forall|k: int|
                0 <= k < r.len() ==> is_stream_output_edge(
                    #[trigger] r@[k],
                    resolve_placeholder_alias(stream_outputs(cv.take(i as int), calls@)[k], placeholders@),
                    file_path@,
                ),
        decreases caps.len() - i,
    {
        assert(cv.take(i + 1).drop_last() =~= cv.take(i as int));
        assert(cv[i as int] == caps@[i as int]@.map_values(|g: Option<String>| opt_view(g)));
        match group_exec(&caps[i], 1) {
            Some(topic) => {
                let t = text_of(&topic);
                if !output_captured_exec(calls, &t) {
                    let resolved = resolve_placeholder_alias_exec(&t, placeholders);
                    r.push(MessageEdge {
                        protocol: CommunicationProtocol::Kafka,
                        role: MessageRole::Producer,
                        destination_kind: MessageDestinationKind::Topic,
                        destination: string_of(&resolved),
                        exchange: None,
                        routing_key: None,
                        queue: None,
                        topic: Some(string_of(&resolved)),
                        handler: None,
                        function_name: string_of(&chars_of(STREAM_OUTPUT_LABEL)),
                        function_hash: String::new(),
                        call_arguments: Vec::new(),
                        file_path: string_of(&chars_of(file_path)),
                    });
                }
            },
            None => {},
        }
        i = i + 1;
    }
    assert(cv.take(caps@.len() as int) =~= cv);
    r
}

/// The text a listener edge records as its function: return type, name and
/// whitespace-normalised parameter list.
pub open spec fn handler_signature(return_type: Seq<char>, name: Seq<char>, params: Seq<char>) -> Seq<char> {
    trim(return_type + seq![' '] + name + crate::text::normalize_whitespace(params))
}

pub fn handler_signature_exec(return_type: &[char], name: &[char], params: &[char]) -> (r: Vec<char>)
    ensures
        r@ == handler_signature(return_type@, name@, params@),
{
    let mut s = crate::text::concat(return_type, &crate::text::one(' '));
    crate::text::append_chars(&mut s, name);
    crate::text::append_chars(&mut s, &crate::text::normalize_whitespace_exec(params));
    assert(s@ =~= return_type@ + seq![' '] + name@ + crate::text::normalize_whitespace(params@));
    trim_exec(&s)
}

/// The topics of the `@KafkaListener` annotations among `annots`, in order,
/// placeholders resolved.
pub open spec fn listener_annotation_topics(annots: Seq<Seq<char>>, placeholders: Map<Seq<char>, Seq<char>>) -> Seq<Seq<char>>
    decreases annots.len(),
{
    if annots.len() == 0 {
        Seq::empty()
    } else {
        let rest = listener_annotation_topics(annots.drop_last(), placeholders);
        if starts_with(annots.last(), "@KafkaListener"@) {
            rest + listener_topics(annots.last()).map_values(|t: Seq<char>| resolve_placeholder_alias(t, placeholders))
        } else {
            rest
        }
    }
}

/// `e` is the consumer edge of a listener method for `topic`.
pub open spec fn is_listener_edge(
    e: MessageEdge,
    topic: Seq<char>,
    handler: Seq<char>,
    signature: Seq<char>,
    hash: Seq<char>,
    file_path: Seq<char>,
) -> bool {
    &&& e.protocol == CommunicationProtocol::Kafka
    &&& e.role == MessageRole::Consumer
    &&& e.destination_kind == MessageDestinationKind::Topic
    &&& e.destination@ == topic
    &&& e.exchange is None
    &&& e.routing_key is None
    &&& e.queue is None
    &&& opt_view(e.topic) == Some(topic)
    &&& opt_view(e.handler) == Some(handler)
    &&& e.function_name@ == signature
    &&& e.function_hash@ == hash
    &&& e.call_arguments.len() == 0
    &&& e.file_path@ == file_path
}

/// The consumer edges that the `@KafkaListener` annotations of one method
/// declare.
pub fn listener_edges(
    annotations: &[String],
    return_type: &str,
    method: &str,
    params: &str,
    function_hash: &str,
    placeholders: &Bindings,
    file_path: &str,
) -> (r: Vec<MessageEdge>)
    requires
        forall|i: int| 0 <= i < annotations@.len() ==> parens_ok(#[trigger] annotations@[i]@),
    ensures
        r.len() == listener_annotation_topics(annotations@.map_values(|a: String| a@), placeholders@).len(),
        forall|k: int|
            0 <= k < r.len() ==> is_listener_edge(
                #[trigger] r@[k],
                listener_annotation_topics(annotations@.map_values(|a: String| a@), placeholders@)[k],
                method@,
                handler_signature(return_type@, method@, params@),
                function_hash@,
                file_path@,
            ),
{
    let ghost av = annotations@.map_values(|a: String| a@);
    let signature = handler_signature_exec(&chars_of(return_type), &chars_of(method), &chars_of(params));
    let mut r: Vec<MessageEdge> = Vec::new();
    let mut i: usize = 0;
    while i < annotations.len()
        invariant
            i <= annotations@.len(),
            av == annotations@.map_values(|a: String| a@),
            signature@ == handler_signature(return_type@, method@, params@),
            forall|j: int| 0 <= j < annotations@.len() ==> parens_ok(#[trigger] annotations@[j]@),
            r.len() == listener_annotation_topics(av.take(i as int), placeholders@).len(),
            forall|k: int|
                0 <= k < r.len() ==> is_listener_edge(
                    #[trigger] r@[k],
                    listener_annotation_topics(av.take(i as int), placeholders@)[k],
                    method@,
                    signature@,
                    function_hash@,
                    file_path@,
                ),
        decreases annotations.len() - i,
    {
        assert(av.take(i + 1).drop_last() =~= av.take(i as int));
        assert(av[i as int] == annotations@[i as int]@);
        let a = text_of(&annotations[i]);
        if starts_with_exec(&a, &chars_of("@KafkaListener")) {
            let topics = extract_kafka_listener_topics(annotations[i].as_str());
            let ghost before = listener_annotation_topics(av.take(i as int), placeholders@);
            let ghost added = listener_topics(av[i as int]).map_values(|t: Seq<char>| resolve_placeholder_alias(t, placeholders@));
            let ghost base = r.len();
            let mut j: usize = 0;
            while j < topics.len()
                invariant
                    j <= topics@.len(),
                    base == before.len(),
                    texts(topics@) == listener_topics(av[i as int]),
                    added == listener_topics(av[i as int]).map_values(|t: Seq<char>| resolve_placeholder_alias(t, placeholders@)),
                    r.len() == base + j,
                    forall|k: int|
                        0 <= k < r.len() ==> is_listener_edge(
                            #[trigger] r@[k],
                            (before + added)[k],
                            method@,
                            signature@,
                            function_hash@,
                            file_path@,
                        ),
                decreases topics.len() - j,
            {
                let topic = resolve_placeholder_alias_exec(&text_of(&topics[j]), placeholders);
                assert(added[j as int] == resolve_placeholder_alias(topics@[j as int]@, placeholders@));
                r.push(MessageEdge {
                    protocol: CommunicationProtocol::Kafka,
                    role: MessageRole::Consumer,
                    destination_kind: MessageDestinationKind::Topic,
                    destination: string_of(&topic),
                    exchange: None,
                    routing_key: None,
                    queue: None,
                    topic: Some(string_of(&topic)),
                    handler: Some(string_of(&chars_of(method))),
                    function_name: string_of(&signature),
                    function_hash: string_of(&chars_of(function_hash)),
                    call_arguments: Vec::new(),
                    file_path: string_of(&chars_of(file_path)),
                });
                j = j + 1;
            }
        }
        i = i + 1;
    }
    assert(av.take(annotations@.len() as int) =~= av);
    r
}

impl KafkaIdentificationStrategy {
    pub fn new() -> (r: Self) {
        KafkaIdentificationStrategy
    }

    /// The Kafka edges of a file's call statements.
    pub fn identify_from_calls(&self, calls: &[CallStatement], code: &str, file_path: &str) -> (r:
        Vec<MessageEdge>)
        requires
            forall|i: int| 0 <= i < calls@.len() ==> call_ok(#[trigger] calls@[i]),
        ensures
            ({
                let p = placeholders_from(regex_captures(VALUE_ANNOTATION_PATTERN@, code@));
                let kafka = contains_any_marker(code@, kafka_file_markers());
                let streams = contains_any_marker(code@, kafka_stream_markers());
                &&& r.len() == call_edges_spec(calls@, p, kafka, streams).len()
                &&& forall|k: int|
                    0 <= k < r.len() ==> {
                        let t = #[trigger] call_edges_spec(calls@, p, kafka, streams)[k];
                        is_call_edge(r@[k], t.0, t.1, t.2, file_path@)
                    }
            }),
    {
        let placeholders = value_placeholders(code);
        let text = chars_of(code);
        let kafka_file = contains_any_marker_exec(&text, &file_markers());
        let streams_file = contains_any_marker_exec(&text, &stream_markers());
        identify_calls(calls, file_path, &placeholders, kafka_file, streams_file)
    }

    /// Producer edges of Kafka Streams `.to(topic)` chains that the call
    /// extractor did not record, in a file that uses Kafka Streams.
    pub fn identify_stream_chain_outputs(&self, calls: &[CallStatement], code: &str, file_path: &str) -> (r: Vec<MessageEdge>)
        ensures
            !contains_any_marker(code@, kafka_stream_markers()) ==> r.len() == 0,
            contains_any_marker(code@, kafka_stream_markers()) ==> {
                let caps = regex_captures(STREAM_OUTPUT_PATTERN@, code@);
                let p = placeholders_from(regex_captures(VALUE_ANNOTATION_PATTERN@, code@));
                &&& r.len() == stream_outputs(caps, calls@).len()
                &&& forall|k: int|
                    0 <= k < r.len() ==> is_stream_output_edge(
                        #[trigger] r@[k],
                        resolve_placeholder_alias(stream_outputs(caps, calls@)[k], p),
                        file_path@,
                    )
            },
    {
        if !contains_any_marker_exec(&chars_of(code), &stream_markers()) {
            return Vec::new();
        }
        let caps = captures_all(STREAM_OUTPUT_PATTERN, code);
        let placeholders = value_placeholders(code);
        stream_output_edges(&caps, calls, &placeholders, file_path)
    }
}

/// The cleaned values keep every value that is not empty once cleaned, and
/// hold nothing else.
pub proof fn lemma_cleaned_nonempty_members(vs: Seq<Seq<char>>)
    ensures
        cleaned_nonempty(vs).len() <= vs.len(),
        forall|i: int|
            0 <= i < vs.len() && clean_java_value(#[trigger] vs[i]).len() > 0 ==> cleaned_nonempty(vs).contains(
                clean_java_value(vs[i]),
            ),
        forall|k: int|
            0 <= k < cleaned_nonempty(vs).len() ==> exists|i: int|
                0 <= i < vs.len() && #[trigger] cleaned_nonempty(vs)[k] == clean_java_value(vs[i])
                    && cleaned_nonempty(vs)[k].len() > 0,
    decreases vs.len(),
{
    if vs.len() > 0 {
        let d = vs.drop_last();
        lemma_cleaned_nonempty_members(d);
        let r = cleaned_nonempty(d);
        let c = clean_java_value(vs.last());
        assert forall|i: int|
            0 <= i < vs.len() && clean_java_value(#[trigger] vs[i]).len() > 0 implies cleaned_nonempty(vs).contains(
                clean_java_value(vs[i]),
            ) by {
            if i < d.len() {
                assert(d[i] == vs[i]);
                assert(r.contains(clean_java_value(d[i])));
                let j = choose|j: int| 0 <= j < r.len() && r[j] == clean_java_value(d[i]);
                if c.len() > 0 {
                    assert(cleaned_nonempty(vs)[j] == r[j]);
                }
            } else {
                assert(cleaned_nonempty(vs) == r.push(c));
                assert(cleaned_nonempty(vs)[r.len() as int] == c);
            }
        }
        assert forall|k: int| 0 <= k < cleaned_nonempty(vs).len() implies exists|i: int|
            0 <= i < vs.len() && #[trigger] cleaned_nonempty(vs)[k] == clean_java_value(vs[i])
                && cleaned_nonempty(vs)[k].len() > 0 by {
            if k < r.len() {
                assert(cleaned_nonempty(vs)[k] == r[k]);
                let i = choose|i: int| 0 <= i < d.len() && #[trigger] r[k] == clean_java_value(d[i]) && r[k].len() > 0;
                assert(d[i] == vs[i]);
            } else {
                assert(cleaned_nonempty(vs)[k] == c);
                assert(vs[vs.len() - 1] == vs.last());
            }
        }
    }
}

/// A `@KafkaListener` consumes every topic its topics argument lists: each
/// listed value that is not empty once cleaned of quotes and whitespace is
/// a topic, and every topic is such a value.
pub proof fn lemma_listener_topics_all_listed(a: Seq<char>, s: int, e: int)
    requires
        find(a, seq!['(']) == Some(s),
        rfind(a, seq![')']) == Some(e),
        s < e,
        trim(a.subrange(s + 1, e)).len() > 0,
    ensures
        ({
            let vs = named_annotation_values(trim(a.subrange(s + 1, e)), listener_keys());
            &&& listener_topics(a).len() <= vs.len()
            &&& forall|i: int|
                0 <= i < vs.len() && clean_java_value(#[trigger] vs[i]).len() > 0 ==> listener_topics(a).contains(
                    clean_java_value(vs[i]),
                )
            &&& forall|k: int|
                0 <= k < listener_topics(a).len() ==> exists|i: int|
                    0 <= i < vs.len() && #[trigger] listener_topics(a)[k] == clean_java_value(vs[i])
                        && listener_topics(a)[k].len() > 0
        }),
{
    lemma_cleaned_nonempty_members(named_annotation_values(trim(a.subrange(s + 1, e)), listener_keys()));
}

} // verus!
