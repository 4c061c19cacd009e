//! Kafka producers and consumers recognised at Go call sites (segmentio,
//! confluent, sarama and franz-go clients).
use vstd::prelude::*;

use crate::model::{
    copy_arguments, opt_or_empty, opt_or_empty_exec, same_arguments, Argument, CallStatement,
    CommunicationProtocol, MessageDestinationKind, MessageEdge, MessageRole,
};
use crate::sorting::{sort_dedup, sort_dedup_spec, texts};
use crate::text::{
    after_last, after_last_exec, chars_eq, chars_of, concat, find, find_exec, slice_chars,
    string_of, text_of, trim, trim_exec, trim_start, trim_start_exec, trim_start_str,
    trim_start_str_exec, trim_str, trim_str_exec, one,
};

verus! {

/// The position of the delimiter `d` that closes a literal whose contents
/// start at `k`; inside `"` literals a backslash escapes the next character.
pub open spec fn literal_close(s: Seq<char>, k: nat, d: char) -> Option<nat>
    decreases s.len() + 2 - k,
{
    if k >= s.len() {
        None
    } else if d == '"' && s[k as int] == '\\' {
        literal_close(s, k + 2, d)
    } else if s[k as int] == d {
        Some(k)
    } else {
        literal_close(s, k + 1, d)
    }
}

pub proof fn lemma_literal_close(s: Seq<char>, k: nat, d: char)
    ensures
        literal_close(s, k, d) matches Some(j) ==> k <= j < s.len() && s[j as int] == d,
    decreases s.len() + 2 - k,
{
    if k < s.len() {
        if d == '"' && s[k as int] == '\\' {
            lemma_literal_close(s, k + 2, d);
        } else if s[k as int] != d {
            lemma_literal_close(s, k + 1, d);
        }
    }
}

/// The contents of the `"..."` and `` `...` `` literals of `s` from `i` on, in
/// order; empty literals are kept only when `keep_empty` holds.  A literal
/// that is never closed ends the scan.
pub open spec fn literals_from(s: Seq<char>, i: nat, keep_empty: bool) -> Seq<Seq<char>>
    decreases s.len() - i,
{
    if i >= s.len() {
        Seq::empty()
    } else if s[i as int] != '"' && s[i as int] != '`' {
        literals_from(s, i + 1, keep_empty)
    } else {
        match literal_close(s, i + 1, s[i as int]) {
            Some(j) => {
                proof {
                    lemma_literal_close(s, i + 1, s[i as int]);
                }
                let v = s.subrange(i + 1 as int, j as int);
                (if keep_empty || v.len() > 0 {
                    seq![v]
                } else {
                    Seq::empty()
                }) + literals_from(s, j + 1, keep_empty)
            },
            None => Seq::empty(),
        }
    }
}

/// The string literals of a Go expression.
pub open spec fn string_literals(s: Seq<char>, keep_empty: bool) -> Seq<Seq<char>> {
    literals_from(s, 0, keep_empty)
}

/// The delimiter that closes the literal whose contents start at `k`.
fn literal_close_exec(s: &[char], start: usize, d: char) -> (r: Option<usize>)
    ensures
        r matches Some(j) ==> literal_close(s@, start as nat, d) == Some(j as nat),
        r is None ==> literal_close(s@, start as nat, d) is None,
{
    let mut k = start;
    while k < s.len()
        invariant
            literal_close(s@, k as nat, d) == literal_close(s@, start as nat, d),
        decreases s.len() - k,
    {
        if d == '"' && s[k] == '\\' {
            if s.len() - k < 2 {
                assert(literal_close(s@, (k + 2) as nat, d) is None);
                return None;
            }
            k = k + 2;
        } else if s[k] == d {
            return Some(k);
        } else {
            k = k + 1;
        }
    }
    None
}

/// The contents of the string literals of `s`, in order.
pub fn string_literals_exec(s: &[char], keep_empty: bool) -> (r: Vec<String>)
    ensures
        texts(r@) == string_literals(s@, keep_empty),
{
    let mut values: Vec<String> = Vec::new();
    let mut i: usize = 0;
    while i < s.len()
        invariant
            i <= s.len(),
            string_literals(s@, keep_empty) == texts(values@) + literals_from(
                s@,
                i as nat,
                keep_empty,
            ),
        decreases s.len() - i,
    {
        let d = s[i];
        if d != '"' && d != '`' {
            i = i + 1;
        } else {
            match literal_close_exec(s, i + 1, d) {
                Some(j) => {
                    proof {
                        lemma_literal_close(s@, (i + 1) as nat, d);
                    }
                    let v = slice_chars(s, i + 1, j);
                    let ghost before = texts(values@);
                    if keep_empty || v.len() > 0 {
                        values.push(string_of(&v));
                        assert(texts(values@) =~= before + seq![v@]);
                    } else {
                        assert(texts(values@) =~= before + Seq::<Seq<char>>::empty());
                    }
                    i = j + 1;
                },
                None => {
                    assert(texts(values@) + Seq::<Seq<char>>::empty() =~= texts(values@));
                    return values;
                },
            }
        }
    }
    assert(texts(values@) + Seq::<Seq<char>>::empty() =~= texts(values@));
    values
}

/// Where the value starting at `i` ends: at the first top-level `,` or at
/// the closing bracket of an enclosing group.
pub open spec fn field_end(v: Seq<char>, i: nat, nesting: nat) -> nat
    decreases v.len() - i,
{
    if i >= v.len() {
        v.len()
    } else if v[i as int] == '(' || v[i as int] == '{' || v[i as int] == '[' {
        field_end(v, i + 1, nesting + 1)
    } else if v[i as int] == ')' || v[i as int] == '}' || v[i as int] == ']' {
        if nesting == 0 {
            i
        } else {
            field_end(v, i + 1, (nesting - 1) as nat)
        }
    } else if v[i as int] == ',' && nesting == 0 {
        i
    } else {
        field_end(v, i + 1, nesting)
    }
}

pub proof fn lemma_field_end(v: Seq<char>, i: nat, nesting: nat)
    ensures
        field_end(v, i, nesting) <= v.len(),
    decreases v.len() - i,
{
    if i < v.len() {
        lemma_field_end(v, i + 1, nesting + 1);
        lemma_field_end(v, i + 1, nesting);
        if nesting > 0 {
            lemma_field_end(v, i + 1, (nesting - 1) as nat);
        }
    }
}

/// The trimmed value written after the first `field:` in `raw`.
pub open spec fn field_value(raw: Seq<char>, field: Seq<char>) -> Option<Seq<char>> {
    match find(raw, field + seq![':']) {
        Some(k) => {
            let v = trim_start(raw.skip(k + field.len() + 1));
            Some(trim(v.take(field_end(v, 0, 0) as int)))
        },
        None => None,
    }
}

pub fn field_value_exec(raw: &[char], field: &[char]) -> (r: Option<Vec<char>>)
    ensures
        r matches Some(v) ==> field_value(raw@, field@) == Some(v@),
        r is None ==> field_value(raw@, field@) is None,
{
    let pattern = concat(field, &one(':'));
    assert(pattern@ == field@ + seq![':']);
    proof {
        crate::text::lemma_find(raw@, pattern@);
    }
    let k = match find_exec(raw, &pattern) {
        Some(k) => k,
        None => return None,
    };
    let n = raw.len();
    let value = trim_start_exec(&slice_chars(raw, k + pattern.len(), n));
    assert(raw@.subrange((k + field.len() + 1) as int, raw@.len() as int) =~= raw@.skip(
        k + field@.len() + 1,
    ));
    let i = field_end_exec(&value);
    proof {
        lemma_field_end(value@, 0, 0);
    }
    Some(trim_exec(&slice_chars(&value, 0, i)))
}

/// Where the value that `v` starts with ends.
fn field_end_exec(v: &[char]) -> (r: usize)
    ensures
        r == field_end(v@, 0, 0),
{
    let mut nesting: usize = 0;
    let mut i: usize = 0;
    while i < v.len()
        invariant
            i <= v.len(),
            nesting <= i,
            field_end(v@, 0, 0) == field_end(v@, i as nat, nesting as nat),
        decreases v.len() - i,
    {
        let c = v[i];
        if c == '(' || c == '{' || c == '[' {
            nesting = nesting + 1;
        } else if c == ')' || c == '}' || c == ']' {
            if nesting == 0 {
                return i;
            }
            nesting = nesting - 1;
        } else if c == ',' && nesting == 0 {
            return i;
        }
        i = i + 1;
    }
    i
}

/// `raw` without surrounding whitespace, a leading `&` run and surrounding
/// quote and backtick runs.
pub open spec fn clean_topic(raw: Seq<char>) -> Seq<char> {
    trim_str(trim_str(trim_start_str(trim(raw), seq!['&']), seq!['"']), seq!['`'])
}

pub fn clean_topic_exec(raw: &[char]) -> (r: Vec<char>)
    ensures
        r@ == clean_topic(raw@),
{
    let t = trim_exec(raw);
    let t = trim_start_str_exec(&t, &one('&'));
    let t = trim_str_exec(&t, &one('"'));
    trim_str_exec(&t, &one('`'))
}

/// Whether `s` holds a brace or a square bracket.
pub open spec fn has_bracket(s: Seq<char>) -> bool {
    s.contains('{') || s.contains('}') || s.contains('[') || s.contains(']')
}

/// The topic candidates of `raw`, before sorting: the literals of the
/// `field` value, else the literals of `raw`, else `raw` itself cleaned when
/// it is a plain non-empty name.
pub open spec fn topic_candidates(raw: Seq<char>, field: Seq<char>) -> Seq<Seq<char>> {
    let from_field = match field_value(raw, field) {
        Some(v) => string_literals(v, false),
        None => Seq::empty(),
    };
    if from_field.len() > 0 {
        from_field
    } else if string_literals(raw, false).len() > 0 {
        string_literals(raw, false)
    } else {
        let candidate = clean_topic(raw);
        if candidate.len() > 0 && !has_bracket(candidate) {
            seq![candidate]
        } else {
            Seq::empty()
        }
    }
}

/// The topics named by a Kafka record or configuration expression, sorted
/// and without duplicates.
pub open spec fn topics_spec(raw: Seq<char>, field: Seq<char>) -> Seq<Seq<char>> {
    sort_dedup_spec(topic_candidates(raw, field))
}

/// Topics named in `raw`: the literals of its `field` value, else its
/// literals, else the cleaned expression itself; sorted and de-duplicated.
pub fn topics_from_field_or_literals(raw: &str, field: &str) -> (r: Vec<String>)
    ensures
        texts(r@) == topics_spec(raw@, field@),
        crate::sorting::strictly_sorted(texts(r@)),
        texts(r@).to_set() == topic_candidates(raw@, field@).to_set(),
{
    let raw = chars_of(raw);
    let field = chars_of(field);
    let mut topics = match field_value_exec(&raw, &field) {
        Some(v) => string_literals_exec(&v, false),
        None => Vec::new(),
    };
    if topics.len() == 0 {
        topics = string_literals_exec(&raw, false);
    }
    if topics.len() == 0 {
        let candidate = clean_topic_exec(&raw);
        if candidate.len() > 0 && !crate::text::contains_char_exec(&candidate, '{')
            && !crate::text::contains_char_exec(&candidate, '}')
            && !crate::text::contains_char_exec(&candidate, '[')
            && !crate::text::contains_char_exec(&candidate, ']') {
            topics.push(string_of(&candidate));
            assert(texts(topics@) =~= seq![candidate@]);
        }
    }
    assert(texts(topics@) == topic_candidates(raw@, field@));
    sort_dedup(topics)
}

/// The topics of a Kafka record: the literals of its `Topic` field.
pub fn topics_from_record(raw: &str) -> (r: Vec<String>)
    ensures
        texts(r@) == topics_spec(raw@, "Topic"@),
{
    topics_from_field_or_literals(raw, "Topic")
}

/// `e` is the Kafka edge for `topic` in `role` recorded at `call` in `file_path`.
pub open spec fn is_kafka_edge(
    e: MessageEdge,
    role: MessageRole,
    topic: Seq<char>,
    call: CallStatement,
    file_path: Seq<char>,
) -> bool {
    &&& e.protocol == CommunicationProtocol::Kafka
    &&& e.role == role
    &&& e.destination_kind == MessageDestinationKind::Topic
    &&& e.destination@ == topic
    &&& e.exchange is None
    &&& e.routing_key is None
    &&& e.queue is None
    &&& crate::model::opt_view(e.topic) == Some(topic)
    &&& e.handler is None
    &&& e.function_name@ == opt_or_empty(call.enclosing_function_name)
    &&& e.function_hash@ == opt_or_empty(call.enclosing_function_hash)
    &&& same_arguments(e.call_arguments@, call.arguments@)
    &&& e.file_path@ == file_path
}

fn edge(role: MessageRole, topic: String, call: &CallStatement, file_path: &str) -> (r:
    MessageEdge)
    ensures
        is_kafka_edge(r, role, topic@, *call, file_path@),
{
    MessageEdge {
        protocol: CommunicationProtocol::Kafka,
        role,
        destination_kind: MessageDestinationKind::Topic,
        destination: topic.clone(),
        exchange: None,
        routing_key: None,
        queue: None,
        topic: Some(topic),
        handler: None,
        function_name: opt_or_empty_exec(&call.enclosing_function_name),
        function_hash: opt_or_empty_exec(&call.enclosing_function_hash),
        call_arguments: copy_arguments(&call.arguments),
        file_path: string_of(&chars_of(file_path)),
    }
}

/// The topics of every argument, in argument order.
pub open spec fn argument_topics(args: Seq<Argument>) -> Seq<Seq<char>>
    decreases args.len(),
{
    if args.len() == 0 {
        Seq::empty()
    } else {
        argument_topics(args.drop_last()) + topics_spec(args.last().value@, "Topic"@)
    }
}

pub open spec fn is_producer_method(m: Seq<char>) -> bool {
    m == "WriteMessages"@ || m == "Produce"@ || m == "ProduceSync"@ || m == "SendMessage"@
}

pub open spec fn is_consumer_method(m: Seq<char>) -> bool {
    m == "Subscribe"@ || m == "SubscribeTopics"@ || m == "ConsumePartition"@
}

/// The role a Kafka client call plays, and which arguments name its topics:
/// `None` for every argument, `Some(i)` for the `i`-th only.
pub open spec fn kafka_call_kind(call: CallStatement) -> Option<(MessageRole, Option<nat>)> {
    let m = after_last(call.function_name@, '.');
    if is_producer_method(m) || m == "NewWriter"@ {
        Some((MessageRole::Producer, None))
    } else if is_consumer_method(m) || m == "SeedTopics"@ {
        Some((MessageRole::Consumer, Some(0)))
    } else if m == "NewReader"@ {
        Some((MessageRole::Consumer, None))
    } else if m == "Consume"@ && call.arguments.len() > 1 {
        Some((MessageRole::Consumer, Some(1)))
    } else {
        None
    }
}

/// The role of a Kafka client call (`Producer` when it plays none).
pub open spec fn kafka_call_role(call: CallStatement) -> MessageRole {
    match kafka_call_kind(call) {
        Some((role, _)) => role,
        None => MessageRole::Producer,
    }
}

/// The topics a Kafka client call names.
pub open spec fn kafka_call_topics(call: CallStatement) -> Seq<Seq<char>> {
    match kafka_call_kind(call) {
        Some((_, None)) => argument_topics(call.arguments@),
        Some((_, Some(i))) => if i < call.arguments.len() {
            topics_spec(call.arguments[i as int].value@, "Topic"@)
        } else {
            Seq::empty()
        },
        None => Seq::empty(),
    }
}

fn push_edges(
    edges: &mut Vec<MessageEdge>,
    role: MessageRole,
    topics: Vec<String>,
    call: &CallStatement,
    file_path: &str,
)
    ensures
        final(edges).len() == old(edges).len() + topics.len(),
        forall|k: int| 0 <= k < old(edges).len() ==> final(edges)@[k] == old(edges)@[k],
        forall|k: int|
            0 <= k < topics.len() ==> is_kafka_edge(
                #[trigger] final(edges)@[old(edges).len() + k],
                role,
                topics@[k]@,
                *call,
                file_path@,
            ),
{
    let mut j: usize = 0;
    while j < topics.len()
        invariant
            j <= topics.len(),
            edges.len() == old(edges).len() + j,
            forall|k: int| 0 <= k < old(edges).len() ==> edges@[k] == old(edges)@[k],
            forall|k: int|
                0 <= k < j ==> is_kafka_edge(
                    #[trigger] edges@[old(edges).len() + k],
                    role,
                    topics@[k]@,
                    *call,
                    file_path@,
                ),
        decreases topics.len() - j,
    {
        edges.push(edge(role, topics[j].clone(), call, file_path));
        j = j + 1;
    }
}

/// The Kafka edges a Go call statement declares: producers for record
/// writes and writer configurations, consumers for subscriptions, reader
/// configurations, consumer-group `Consume` and franz-go `SeedTopics`.
pub fn identify_message_edges(call: &CallStatement, file_path: &str) -> (r: Vec<MessageEdge>)
    ensures
        r.len() == kafka_call_topics(*call).len(),
        forall|k: int|
            0 <= k < r.len() ==> #[trigger] is_kafka_edge(
                r@[k],
                kafka_call_role(*call),
                kafka_call_topics(*call)[k],
                *call,
                file_path@,
            ),
{
    let m = after_last_exec(&text_of(&call.function_name), '.');
    let producer = chars_eq(&m, &chars_of("WriteMessages")) || chars_eq(&m, &chars_of("Produce"))
        || chars_eq(&m, &chars_of("ProduceSync")) || chars_eq(&m, &chars_of("SendMessage"))
        || chars_eq(&m, &chars_of("NewWriter"));
    let consumer_first = chars_eq(&m, &chars_of("Subscribe")) || chars_eq(
        &m,
        &chars_of("SubscribeTopics"),
    ) || chars_eq(&m, &chars_of("ConsumePartition")) || chars_eq(&m, &chars_of("SeedTopics"));
    let reader = chars_eq(&m, &chars_of("NewReader"));
    let group = chars_eq(&m, &chars_of("Consume")) && call.arguments.len() > 1;
    let mut edges: Vec<MessageEdge> = Vec::new();
    if producer || (!consumer_first && reader) {
        let role = if producer {
            MessageRole::Producer
        } else {
            MessageRole::Consumer
        };
        let mut i: usize = 0;
        while i < call.arguments.len()
            invariant
                i <= call.arguments.len(),
                kafka_call_kind(*call) == Some((role, None::<nat>)),
                edges.len() == argument_topics(call.arguments@.take(i as int)).len(),
                forall|k: int|
                    0 <= k < edges.len() ==> #[trigger] is_kafka_edge(
                        edges@[k],
                        role,
                        argument_topics(call.arguments@.take(i as int))[k],
                        *call,
                        file_path@,
                    ),
            decreases call.arguments.len() - i,
        {
            let topics = topics_from_field_or_literals(call.arguments[i].value.as_str(), "Topic");
            let ghost before = argument_topics(call.arguments@.take(i as int));
            let ghost old_len = edges.len();
            push_edges(&mut edges, role, topics, call, file_path);
            assert(call.arguments@.take(i + 1).drop_last() =~= call.arguments@.take(i as int));
            assert(argument_topics(call.arguments@.take(i + 1)) == before + texts(topics@));
            assert forall|k: int| 0 <= k < edges.len() implies #[trigger] is_kafka_edge(
                edges@[k],
                role,
                argument_topics(call.arguments@.take(i + 1))[k],
                *call,
                file_path@,
            ) by {
                if k >= old_len {
                    assert(edges@[old_len + (k - old_len)] == edges@[k]);
                }
            }
            i = i + 1;
        }
        assert(call.arguments@.take(call.arguments.len() as int) =~= call.arguments@);
    } else if consumer_first || group {
        let index: usize = if consumer_first {
            0
        } else {
            1
        };
        if index < call.arguments.len() {
            let topics = topics_from_field_or_literals(
                call.arguments[index].value.as_str(),
                "Topic",
            );
            let ghost t = topics@;
            push_edges(&mut edges, MessageRole::Consumer, topics, call, file_path);
            assert forall|k: int| 0 <= k < edges.len() implies #[trigger] is_kafka_edge(
                edges@[k],
                kafka_call_role(*call),
                kafka_call_topics(*call)[k],
                *call,
                file_path@,
            ) by {
                assert(edges@[0 + k] == edges@[k]);
                assert(texts(t)[k] == t[k]@);
            }
        }
    }
    edges
}

} // verus!
