//! Spring Cloud Stream bindings declared in configuration files
//! (`spring.cloud.stream.bindings.<name>.destination`).
use vstd::prelude::*;

use crate::model::{CommunicationProtocol, MessageDestinationKind, MessageEdge, MessageRole};
use crate::text::{
    chars_of, contains, contains_exec, lines, lines_exec, one, split_once, split_once_exec,
    starts_with, string_of, strip_prefix, strip_prefix_exec, strip_suffix, strip_suffix_exec, trim,
    trim_exec, trim_str, trim_str_exec, views,
};

verus! {

/// A configuration value without surrounding whitespace and quotes.
pub open spec fn clean_config_value(raw: Seq<char>) -> Seq<char> {
    trim(trim_str(trim_str(trim(raw), seq!['"']), seq!['\'']))
}

pub fn clean_config_value_exec(raw: &[char]) -> (r: Vec<char>)
    ensures
        r@ == clean_config_value(raw@),
{
    trim_exec(&trim_str_exec(&trim_str_exec(&trim_exec(raw), &one('"')), &one('\'')))
}

/// The key and value of a `key: value` or `key = value` line.
pub open spec fn config_entry(t: Seq<char>) -> Option<(Seq<char>, Seq<char>)> {
    match split_once(t, ':') {
        Some(p) => Some(p),
        None => split_once(t, '='),
    }
}

/// What a configuration line binds: the binding's name, its role (`-out-`
/// producer, `-in-` consumer) and its topic.
pub open spec fn binding_of_line(line: Seq<char>) -> Option<(Seq<char>, MessageRole, Seq<char>)> {
    let t = trim(line);
    if t.len() == 0 || starts_with(t, seq!['#']) {
        None
    } else {
        match config_entry(t) {
            None => None,
            Some((key, value)) => match strip_prefix(trim(key), "spring.cloud.stream.bindings."@) {
                None => None,
                Some(rest) => match strip_suffix(rest, ".destination"@) {
                    None => None,
                    Some(binding) => {
                        let topic = clean_config_value(value);
                        if contains(binding, "-out-"@) && topic.len() > 0 {
                            Some((binding, MessageRole::Producer, topic))
                        } else if !contains(binding, "-out-"@) && contains(binding, "-in-"@)
                            && topic.len() > 0 {
                            Some((binding, MessageRole::Consumer, topic))
                        } else {
                            None
                        }
                    },
                },
            },
        }
    }
}

/// `e` is the Kafka edge a binding of the role to the topic declares.
pub open spec fn is_binding_edge(
    e: MessageEdge,
    binding: Seq<char>,
    role: MessageRole,
    topic: Seq<char>,
    file_path: Seq<char>,
) -> bool {
    &&& e.protocol == CommunicationProtocol::Kafka
    &&& e.role == role
    &&& e.destination_kind == MessageDestinationKind::Topic
    &&& e.destination@ == topic
    &&& e.exchange is None
    &&& e.routing_key is None
    &&& e.queue is None
    &&& crate::model::opt_view(e.topic) == Some(topic)
    &&& crate::model::opt_view(e.handler) == Some(binding)
    &&& e.function_name@ == binding
    &&& e.function_hash@.len() == 0
    &&& e.call_arguments@.len() == 0
    &&& e.file_path@ == file_path
}

/// The message edge a configuration line declares, if any.
pub fn spring_cloud_stream_binding_edge(line: &[char], file_path: &str) -> (r: Option<MessageEdge>)
    ensures
        match binding_of_line(line@) {
            Some((b, role, topic)) => r matches Some(e) && is_binding_edge(e, b, role, topic, file_path@),
            None => r is None,
        },
{
    let t = trim_exec(line);
    if t.len() == 0 || t[0] == '#' {
        proof {
            if t@.len() > 0 {
                assert(starts_with(t@, seq!['#'])) by {
                    assert(t@.subrange(0, 1) =~= seq!['#']);
                }
            }
        }
        return None;
    }
    assert(!starts_with(t@, seq!['#'])) by {
        if starts_with(t@, seq!['#']) {
            assert(t@.subrange(0, 1)[0] == '#');
        }
    }
    let (key, value) = match split_once_exec(&t, ':') {
        Some(p) => p,
        None => match split_once_exec(&t, '=') {
            Some(p) => p,
            None => return None,
        },
    };
    let rest = match strip_prefix_exec(&trim_exec(&key), &chars_of("spring.cloud.stream.bindings.")) {
        Some(r) => r,
        None => return None,
    };
    let binding = match strip_suffix_exec(&rest, &chars_of(".destination")) {
        Some(b) => b,
        None => return None,
    };
    let role = if contains_exec(&binding, &chars_of("-out-")) {
        MessageRole::Producer
    } else if contains_exec(&binding, &chars_of("-in-")) {
        MessageRole::Consumer
    } else {
        return None;
    };
    let topic = clean_config_value_exec(&value);
    if topic.len() == 0 {
        return None;
    }
    Some(
        MessageEdge {
            protocol: CommunicationProtocol::Kafka,
            role,
            destination_kind: MessageDestinationKind::Topic,
            destination: string_of(&topic),
            exchange: None,
            routing_key: None,
            queue: None,
            topic: Some(string_of(&topic)),
            handler: Some(string_of(&binding)),
            function_name: string_of(&binding),
            function_hash: String::new(),
            call_arguments: Vec::new(),
            file_path: string_of(&chars_of(file_path)),
        },
    )
}

/// The bindings declared by the lines of a configuration text, in order.
pub open spec fn bindings_of(ls: Seq<Seq<char>>) -> Seq<(Seq<char>, MessageRole, Seq<char>)>
    decreases ls.len(),
{
    if ls.len() == 0 {
        Seq::empty()
    } else {
        match binding_of_line(ls.last()) {
            Some(b) => bindings_of(ls.drop_last()).push(b),
            None => bindings_of(ls.drop_last()),
        }
    }
}

/// The Kafka edges a configuration file declares through Spring Cloud
/// Stream bindings, one per binding line, in order; nothing when it
/// declares none.
pub fn extract_syntactic(text: &str, file_path: &str) -> (r: Option<Vec<MessageEdge>>)
    ensures
        ({
            let bs = bindings_of(lines(text@));
            &&& r is None <==> bs.len() == 0
            &&& r matches Some(es) ==> es@.len() == bs.len() && forall|k: int|
                0 <= k < bs.len() ==> #[trigger] is_binding_edge(
                    es@[k],
                    bs[k].0,
                    bs[k].1,
                    bs[k].2,
                    file_path@,
                )
        }),
{
    let ls = lines_exec(&chars_of(text));
    let ghost lv = views(ls@);
    let mut edges: Vec<MessageEdge> = Vec::new();
    let mut i: usize = 0;
    while i < ls.len()
        invariant
            i <= ls@.len(),
            lv == views(ls@),
            lv == lines(text@),
            edges@.len() == bindings_of(lv.take(i as int)).len(),
            forall|k: int|
                0 <= k < edges@.len() ==> #[trigger] is_binding_edge(
                    edges@[k],
                    bindings_of(lv.take(i as int))[k].0,
                    bindings_of(lv.take(i as int))[k].1,
                    bindings_of(lv.take(i as int))[k].2,
                    file_path@,
                ),
        decreases ls.len() - i,
    {
        assert(lv.take(i + 1).drop_last() =~= lv.take(i as int));
        assert(lv.take(i + 1).last() == ls@[i as int]@);
        match spring_cloud_stream_binding_edge(&ls[i], file_path) {
            Some(e) => edges.push(e),
            None => {},
        }
        i = i + 1;
    }
    assert(lv.take(ls@.len() as int) =~= lv);
    if edges.len() == 0 {
        None
    } else {
        Some(edges)
    }
}

} // verus!
