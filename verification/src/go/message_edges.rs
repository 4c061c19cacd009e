//! RabbitMQ message flows in Go code: `amqp` channel calls (publish, bind,
//! consume, declare) and a messaging library's fluent configuration
//! builder.
use vstd::prelude::*;

use crate::bindings::Bindings;
use crate::go::shared::{eval_text, evaluate_expression_text, is_quoted_literal, EVALUATION_DEPTH};
use crate::model::{
    copy_arguments, opt_or_empty, opt_or_empty_exec, same_arguments, CallStatement,
    CommunicationProtocol, MessageDestinationKind, MessageEdge, MessageRole,
};
use crate::text::{
    after_last, after_last_exec, before_first, before_first_exec, chars_eq, chars_of, contains,
    contains_exec, find_from, find_from_exec, is_ascii_upper, is_space, lower, lower_char, lower_exec,
    slice_chars, string_of, text_of, trim, trim_end_str, trim_end_str_exec, trim_exec,
    trim_start_str, trim_start_str_exec, views,
};

verus! {

/// A message edge as plain values: role, destination kind, destination,
/// exchange, routing key and queue.
pub type EdgeShape = (
    MessageRole,
    MessageDestinationKind,
    Seq<char>,
    Option<Seq<char>>,
    Option<Seq<char>>,
    Option<Seq<char>>,
);

/// `None` for the empty text.
pub open spec fn non_empty(s: Seq<char>) -> Option<Seq<char>> {
    if s.len() == 0 {
        None
    } else {
        Some(s)
    }
}

fn non_empty_exec(s: &[char]) -> (r: Option<String>)
    ensures
        crate::model::opt_view(r) == non_empty(s@),
{
    if s.len() == 0 {
        None
    } else {
        Some(string_of(s))
    }
}

/// A lone quote mark, which has no inside to take.
pub open spec fn lone_quote(t: Seq<char>) -> bool {
    t.len() == 1 && (t[0] == '"' || t[0] == '`')
}

/// The resolved text, trimmed of whitespace and trailing commas.
pub open spec fn cleaned_key(raw: Seq<char>, scope: Map<Seq<char>, Seq<char>>) -> Seq<char> {
    trim_end_str(trim(eval_text(raw, scope, Seq::empty(), EVALUATION_DEPTH as nat)), seq![','])
}

/// An argument resolved in scope, with one pair of surrounding quotes
/// removed.
pub open spec fn clean_arg(raw: Seq<char>, scope: Map<Seq<char>, Seq<char>>) -> Seq<char> {
    let t = cleaned_key(raw, scope);
    if is_quoted_literal(t) {
        t.subrange(1, t.len() - 1)
    } else {
        t
    }
}

/// Argument `i`, when present, does not resolve to a lone quote mark.
pub open spec fn arg_cleanable(call: CallStatement, scope: Map<Seq<char>, Seq<char>>, i: int) -> bool {
    i >= call.arguments@.len() || !lone_quote(cleaned_key(call.arguments@[i].value@, scope))
}

fn clean_arg_exec(raw: &str, scope: &Bindings) -> (r: Vec<char>)
    requires
        !lone_quote(cleaned_key(raw@, scope@)),
    ensures
        r@ == clean_arg(raw@, scope@),
{
    let resolved = evaluate_expression_text(raw, scope);
    let t = trim_end_str_exec(&trim_exec(&text_of(&resolved)), &crate::text::one(','));
    let n = t.len();
    if n > 0 && ((t[0] == '"' && t[n - 1] == '"') || (t[0] == '`' && t[n - 1] == '`')) {
        slice_chars(&t, 1, n - 1)
    } else {
        t
    }
}

/// The method a call's name ends with (after its last `.`).
pub open spec fn call_method(call: CallStatement) -> Seq<char> {
    after_last(call.function_name@, '.')
}

/// The arguments a recogniser reads resolve to something other than a
/// lone quote mark (on which taking the inside of the quotes would fail).
pub open spec fn message_call_safe(call: CallStatement, scope: Map<Seq<char>, Seq<char>>) -> bool {
    let m = call_method(call);
    if m == "PublishWithContext"@ {
        arg_cleanable(call, scope, 1) && arg_cleanable(call, scope, 2)
    } else if m == "Publish"@ {
        arg_cleanable(call, scope, 0) && arg_cleanable(call, scope, 1)
    } else if m == "QueueBind"@ {
        arg_cleanable(call, scope, 0) && arg_cleanable(call, scope, 1) && arg_cleanable(call, scope, 2)
    } else if m == "Consume"@ || m == "QueueDeclare"@ {
        arg_cleanable(call, scope, 0)
    } else {
        true
    }
}

fn arg_cleanable_exec(call: &CallStatement, scope: &Bindings, i: usize) -> (r: bool)
    ensures
        r == arg_cleanable(*call, scope@, i as int),
{
    if i >= call.arguments.len() {
        return true;
    }
    let resolved = evaluate_expression_text(call.arguments[i].value.as_str(), scope);
    let t = trim_end_str_exec(&trim_exec(&text_of(&resolved)), &crate::text::one(','));
    !(t.len() == 1 && (t[0] == '"' || t[0] == '`'))
}

/// Whether `identify_message_edge` may be called on the call in this scope.
pub fn message_call_safe_exec(call: &CallStatement, scope: &Bindings) -> (r: bool)
    ensures
        r == message_call_safe(*call, scope@),
{
    let m = after_last_exec(&text_of(&call.function_name), '.');
    if chars_eq(&m, &chars_of("PublishWithContext")) {
        arg_cleanable_exec(call, scope, 1) && arg_cleanable_exec(call, scope, 2)
    } else if chars_eq(&m, &chars_of("Publish")) {
        arg_cleanable_exec(call, scope, 0) && arg_cleanable_exec(call, scope, 1)
    } else if chars_eq(&m, &chars_of("QueueBind")) {
        arg_cleanable_exec(call, scope, 0) && arg_cleanable_exec(call, scope, 1) && arg_cleanable_exec(
            call,
            scope,
            2,
        )
    } else if chars_eq(&m, &chars_of("Consume")) || chars_eq(&m, &chars_of("QueueDeclare")) {
        arg_cleanable_exec(call, scope, 0)
    } else {
        true
    }
}

/// A producer edge for an exchange and routing key: to the queue named by
/// the routing key when there is no exchange, else to `exchange:key` (or
/// the exchange alone); nothing when both are empty.
pub open spec fn publish_shape(exchange: Seq<char>, routing_key: Seq<char>) -> Option<EdgeShape> {
    if exchange.len() == 0 && routing_key.len() == 0 {
        None
    } else {
        let kind = if exchange.len() == 0 {
            MessageDestinationKind::Queue
        } else {
            MessageDestinationKind::ExchangeRoutingKey
        };
        let dest = if exchange.len() == 0 {
            routing_key
        } else if routing_key.len() == 0 {
            exchange
        } else {
            exchange + seq![':'] + routing_key
        };
        Some(
            (
                MessageRole::Producer,
                kind,
                dest,
                non_empty(exchange),
                non_empty(routing_key),
                non_empty(routing_key),
            ),
        )
    }
}

/// A binding edge for a queue, routing key and exchange.
pub open spec fn binding_shape(queue: Seq<char>, routing_key: Seq<char>, exchange: Seq<char>) -> Option<
    EdgeShape,
> {
    if exchange.len() == 0 && routing_key.len() == 0 && queue.len() == 0 {
        None
    } else {
        let kind = if exchange.len() == 0 {
            MessageDestinationKind::Queue
        } else {
            MessageDestinationKind::ExchangeRoutingKey
        };
        let dest = if exchange.len() == 0 {
            queue
        } else if routing_key.len() == 0 {
            exchange
        } else {
            exchange + seq![':'] + routing_key
        };
        Some(
            (
                MessageRole::Binding,
                kind,
                dest,
                non_empty(exchange),
                non_empty(routing_key),
                non_empty(queue),
            ),
        )
    }
}

/// A queue edge of the role, unless the queue is empty.
pub open spec fn queue_shape(role: MessageRole, queue: Seq<char>) -> Option<EdgeShape> {
    if queue.len() == 0 {
        None
    } else {
        Some((role, MessageDestinationKind::Queue, queue, None, None, Some(queue)))
    }
}

/// The RabbitMQ edge a channel call declares, by the method it calls.
pub open spec fn message_edge_shape(call: CallStatement, scope: Map<Seq<char>, Seq<char>>) -> Option<
    EdgeShape,
> {
    let m = call_method(call);
    let n = call.arguments@.len();
    let arg = |i: int| clean_arg(call.arguments@[i].value@, scope);
    if m == "PublishWithContext"@ {
        if n < 3 {
            None
        } else {
            publish_shape(arg(1), arg(2))
        }
    } else if m == "Publish"@ {
        if n < 2 {
            None
        } else {
            publish_shape(arg(0), arg(1))
        }
    } else if m == "QueueBind"@ {
        if n < 3 {
            None
        } else {
            binding_shape(arg(0), arg(1), arg(2))
        }
    } else if m == "Consume"@ {
        if n < 1 {
            None
        } else {
            queue_shape(MessageRole::Consumer, arg(0))
        }
    } else if m == "QueueDeclare"@ {
        if n < 1 {
            None
        } else {
            queue_shape(MessageRole::QueueDeclaration, arg(0))
        }
    } else {
        None
    }
}

/// `e` is the RabbitMQ edge of that shape for the call in the file.
pub open spec fn is_rabbit_edge(e: MessageEdge, shape: EdgeShape, call: CallStatement, file_path: Seq<
    char,
>) -> bool {
    &&& e.protocol == CommunicationProtocol::RabbitMq
    &&& e.role == shape.0
    &&& e.destination_kind == shape.1
    &&& e.destination@ == shape.2
    &&& crate::model::opt_view(e.exchange) == shape.3
    &&& crate::model::opt_view(e.routing_key) == shape.4
    &&& crate::model::opt_view(e.queue) == shape.5
    &&& e.topic is None
    &&& e.handler is None
    &&& e.function_name@ == opt_or_empty(call.enclosing_function_name)
    &&& e.function_hash@ == opt_or_empty(call.enclosing_function_hash)
    &&& same_arguments(e.call_arguments@, call.arguments@)
    &&& e.file_path@ == file_path
}

fn build_edge(
    call: &CallStatement,
    file_path: &str,
    role: MessageRole,
    kind: MessageDestinationKind,
    destination: &[char],
    exchange: Option<String>,
    routing_key: Option<String>,
    queue: Option<String>,
) -> (r: MessageEdge)
    ensures
        is_rabbit_edge(
            r,
            (
                role,
                kind,
                destination@,
                crate::model::opt_view(exchange),
                crate::model::opt_view(routing_key),
                crate::model::opt_view(queue),
            ),
            *call,
            file_path@,
        ),
{
    MessageEdge {
        protocol: CommunicationProtocol::RabbitMq,
        role,
        destination_kind: kind,
        destination: string_of(destination),
        exchange,
        routing_key,
        queue,
        topic: None,
        handler: None,
        function_name: opt_or_empty_exec(&call.enclosing_function_name),
        function_hash: opt_or_empty_exec(&call.enclosing_function_hash),
        call_arguments: copy_arguments(&call.arguments),
        file_path: string_of(&chars_of(file_path)),
    }
}

fn join_colon(a: &[char], b: &[char]) -> (r: Vec<char>)
    ensures
        r@ == a@ + seq![':'] + b@,
{
    let mut r = slice_chars(a, 0, a.len());
    r.push(':');
    crate::text::append_chars(&mut r, b);
    assert(r@ =~= a@ + seq![':'] + b@);
    r
}

fn publish_edge(call: &CallStatement, file_path: &str, exchange: &[char], routing_key: &[char]) -> (r:
    Option<MessageEdge>)
    ensures
        match publish_shape(exchange@, routing_key@) {
            Some(sh) => r matches Some(e) && is_rabbit_edge(e, sh, *call, file_path@),
            None => r is None,
        },
{
    if exchange.len() == 0 && routing_key.len() == 0 {
        return None;
    }
    let kind = if exchange.len() == 0 {
        MessageDestinationKind::Queue
    } else {
        MessageDestinationKind::ExchangeRoutingKey
    };
    let dest = if exchange.len() == 0 {
        let d = slice_chars(routing_key, 0, routing_key.len());
        assert(d@ =~= routing_key@);
        d
    } else if routing_key.len() == 0 {
        let d = slice_chars(exchange, 0, exchange.len());
        assert(d@ =~= exchange@);
        d
    } else {
        join_colon(exchange, routing_key)
    };
    Some(
        build_edge(
            call,
            file_path,
            MessageRole::Producer,
            kind,
            &dest,
            non_empty_exec(exchange),
            non_empty_exec(routing_key),
            non_empty_exec(routing_key),
        ),
    )
}

fn binding_edge(
    call: &CallStatement,
    file_path: &str,
    queue: &[char],
    routing_key: &[char],
    exchange: &[char],
) -> (r: Option<MessageEdge>)
    ensures
        match binding_shape(queue@, routing_key@, exchange@) {
            Some(sh) => r matches Some(e) && is_rabbit_edge(e, sh, *call, file_path@),
            None => r is None,
        },
{
    if exchange.len() == 0 && routing_key.len() == 0 && queue.len() == 0 {
        return None;
    }
    let kind = if exchange.len() == 0 {
        MessageDestinationKind::Queue
    } else {
        MessageDestinationKind::ExchangeRoutingKey
    };
    let dest = if exchange.len() == 0 {
        let d = slice_chars(queue, 0, queue.len());
        assert(d@ =~= queue@);
        d
    } else if routing_key.len() == 0 {
        let d = slice_chars(exchange, 0, exchange.len());
        assert(d@ =~= exchange@);
        d
    } else {
        join_colon(exchange, routing_key)
    };
    Some(
        build_edge(
            call,
            file_path,
            MessageRole::Binding,
            kind,
            &dest,
            non_empty_exec(exchange),
            non_empty_exec(routing_key),
            non_empty_exec(queue),
        ),
    )
}

fn queue_edge(call: &CallStatement, file_path: &str, role: MessageRole, queue: &[char]) -> (r: Option<
    MessageEdge,
>)
    ensures
        match queue_shape(role, queue@) {
            Some(sh) => r matches Some(e) && is_rabbit_edge(e, sh, *call, file_path@),
            None => r is None,
        },
{
    if queue.len() == 0 {
        return None;
    }
    Some(
        build_edge(
            call,
            file_path,
            role,
            MessageDestinationKind::Queue,
            queue,
            None,
            None,
            Some(string_of(queue)),
        ),
    )
}

/// The RabbitMQ edge a channel call declares (`PublishWithContext`,
/// `Publish`, `QueueBind`, `Consume`, `QueueDeclare`), its arguments
/// resolved in scope.
pub fn identify_message_edge(call: &CallStatement, file_path: &str, scope: &Bindings) -> (r: Option<
    MessageEdge,
>)
    requires
        message_call_safe(*call, scope@),
    ensures
        match message_edge_shape(*call, scope@) {
            Some(sh) => r matches Some(e) && is_rabbit_edge(e, sh, *call, file_path@),
            None => r is None,
        },
{
    let m = after_last_exec(&text_of(&call.function_name), '.');
    let n = call.arguments.len();
    if chars_eq(&m, &chars_of("PublishWithContext")) {
        if n < 3 {
            return None;
        }
        let ex = clean_arg_exec(call.arguments[1].value.as_str(), scope);
        let rk = clean_arg_exec(call.arguments[2].value.as_str(), scope);
        publish_edge(call, file_path, &ex, &rk)
    } else if chars_eq(&m, &chars_of("Publish")) {
        if n < 2 {
            return None;
        }
        let ex = clean_arg_exec(call.arguments[0].value.as_str(), scope);
        let rk = clean_arg_exec(call.arguments[1].value.as_str(), scope);
        publish_edge(call, file_path, &ex, &rk)
    } else if chars_eq(&m, &chars_of("QueueBind")) {
        if n < 3 {
            return None;
        }
        let q = clean_arg_exec(call.arguments[0].value.as_str(), scope);
        let rk = clean_arg_exec(call.arguments[1].value.as_str(), scope);
        let ex = clean_arg_exec(call.arguments[2].value.as_str(), scope);
        binding_edge(call, file_path, &q, &rk, &ex)
    } else if chars_eq(&m, &chars_of("Consume")) {
        if n < 1 {
            return None;
        }
        let q = clean_arg_exec(call.arguments[0].value.as_str(), scope);
        queue_edge(call, file_path, MessageRole::Consumer, &q)
    } else if chars_eq(&m, &chars_of("QueueDeclare")) {
        if n < 1 {
            return None;
        }
        let q = clean_arg_exec(call.arguments[0].value.as_str(), scope);
        queue_edge(call, file_path, MessageRole::QueueDeclaration, &q)
    } else {
        None
    }
}

/// One character of a snake-case name: an upper-case letter becomes `_`
/// (except at the start) and its lower-case form.
pub open spec fn snake_piece(c: char, first: bool) -> Seq<char> {
    if is_ascii_upper(c) {
        if first {
            seq![lower_char(c)]
        } else {
            seq!['_', lower_char(c)]
        }
    } else {
        seq![c]
    }
}

pub open spec fn snake(s: Seq<char>) -> Seq<char>
    decreases s.len(),
{
    if s.len() == 0 {
        Seq::empty()
    } else {
        snake(s.drop_last()) + snake_piece(s.last(), s.len() == 1)
    }
}

/// A Go type name in PascalCase as the snake-case destination name the
/// messaging library derives from it (`OrderCreated` → `order_created`).
pub open spec fn pascal_to_snake(s: Seq<char>) -> Option<Seq<char>> {
    if s.len() == 0 {
        None
    } else {
        Some(snake(s))
    }
}

pub fn pascal_to_snake_exec(s: &[char]) -> (r: Option<Vec<char>>)
    ensures
        r matches Some(v) ==> pascal_to_snake(s@) == Some(v@),
        r is None ==> pascal_to_snake(s@) is None,
{
    if s.len() == 0 {
        return None;
    }
    let mut r: Vec<char> = Vec::new();
    let mut i: usize = 0;
    while i < s.len()
        invariant
            i <= s@.len(),
            r@ == snake(s@.take(i as int)),
        decreases s.len() - i,
    {
        let c = s[i];
        let ghost r0 = r@;
        if crate::text::is_ascii_upper_exec(c) {
            if i > 0 {
                r.push('_');
            }
            r.push(crate::text::lower_char_exec(c));
        } else {
            r.push(c);
        }
        assert(s@.take(i + 1).drop_last() =~= s@.take(i as int));
        assert(r@ =~= r0 + snake_piece(c, i == 0));
        i = i + 1;
    }
    assert(s@.take(s@.len() as int) =~= s@);
    Some(r)
}

/// A character that ends a name's qualifier: whitespace or `(`.
pub open spec fn name_separator(c: char) -> bool {
    is_space(c) || c == '('
}

pub open spec fn last_separator_below(s: Seq<char>, n: int) -> int
    decreases n,
{
    if n <= 0 {
        -1
    } else if name_separator(s[n - 1]) {
        n - 1
    } else {
        last_separator_below(s, n - 1)
    }
}

/// The destination name of an event struct literal such as
/// `&events.OrderCreated{...}`: its type name in snake case.
pub open spec fn fluent_message_name(raw: Seq<char>) -> Option<Seq<char>> {
    let a = trim(before_first(trim_start_str(trim(raw), seq!['&']), '{'));
    let b = a.skip(last_separator_below(a, a.len() as int) + 1);
    let t = trim(after_last(b, '.'));
    if t.len() == 0 {
        None
    } else {
        pascal_to_snake(t)
    }
}

pub proof fn lemma_last_separator_below(s: Seq<char>, n: int)
    requires
        0 <= n <= s.len(),
    ensures
        -1 <= last_separator_below(s, n) < n,
    decreases n,
{
    if n > 0 && !name_separator(s[n - 1]) {
        lemma_last_separator_below(s, n - 1);
    }
}

pub fn fluent_message_name_exec(raw: &[char]) -> (r: Option<Vec<char>>)
    ensures
        r matches Some(v) ==> fluent_message_name(raw@) == Some(v@),
        r is None ==> fluent_message_name(raw@) is None,
{
    let a = trim_exec(&before_first_exec(&trim_start_str_exec(&trim_exec(raw), &crate::text::one('&')), '{'));
    let n = a.len();
    let mut k: usize = n;
    while k > 0 && !(crate::text::is_whitespace(a[k - 1]) || a[k - 1] == '(')
        invariant
            n == a@.len(),
            k <= n,
            last_separator_below(a@, n as int) == last_separator_below(a@, k as int),
        decreases k,
    {
        k = k - 1;
    }
    let b = slice_chars(&a, k, n);
    assert(b@ =~= a@.skip(last_separator_below(a@, n as int) + 1));
    let t = trim_exec(&after_last_exec(&b, '.'));
    if t.len() == 0 {
        None
    } else {
        pascal_to_snake_exec(&t)
    }
}

/// The event a `RabbitmqProducer.PublishMessage(ctx, events.NewOrderCreated(...))`
/// call publishes: its constructor's name without `New`, in snake case.
pub open spec fn fluent_publish_message_name(call: CallStatement) -> Option<Seq<char>> {
    if !contains(lower(call.function_name@), "rabbitmqproducer.publishmessage"@) {
        None
    } else if call.arguments@.len() < 2 {
        None
    } else {
        pascal_to_snake(
            trim_start_str(before_first(after_last(call.arguments@[1].value@, '.'), '('), "New"@),
        )
    }
}

pub fn fluent_publish_message_name_exec(call: &CallStatement) -> (r: Option<Vec<char>>)
    ensures
        r matches Some(v) ==> fluent_publish_message_name(*call) == Some(v@),
        r is None ==> fluent_publish_message_name(*call) is None,
{
    if !contains_exec(
        &lower_exec(&text_of(&call.function_name)),
        &chars_of("rabbitmqproducer.publishmessage"),
    ) {
        return None;
    }
    if call.arguments.len() < 2 {
        return None;
    }
    let c = before_first_exec(&after_last_exec(&text_of(&call.arguments[1].value), '.'), '(');
    pascal_to_snake_exec(&trim_start_str_exec(&c, &chars_of("New")))
}

/// The successive non-overlapping positions of `p` in `s` from `i` on.
pub open spec fn occurrences_from(s: Seq<char>, p: Seq<char>, i: nat) -> Seq<int>
    decreases s.len() + 1 - i,
{
    if p.len() == 0 {
        Seq::empty()
    } else {
        match find_from(s, p, i) {
            Some(k) => {
                proof {
                    crate::text::lemma_find_from(s, p, i);
                }
                seq![k] + occurrences_from(s, p, (k + p.len()) as nat)
            },
            None => Seq::empty(),
        }
    }
}

/// The message names of the builder calls at the given positions.
pub open spec fn names_at(s: Seq<char>, marker_len: int, occ: Seq<int>) -> Seq<Seq<char>>
    decreases occ.len(),
{
    if occ.len() == 0 {
        Seq::empty()
    } else {
        let prev = names_at(s, marker_len, occ.drop_last());
        match fluent_message_name(before_first(s.skip(occ.last() + marker_len), '{')) {
            Some(n) => prev.push(n),
            None => prev,
        }
    }
}

/// The message names a flattened builder chain passes to `method(...)`,
/// and the call's own first argument when the call is `method` itself.
pub open spec fn fluent_builder_message_names(call: CallStatement, method: Seq<char>) -> Seq<Seq<char>> {
    let f = call.function_name@;
    let marker = method + seq!['('];
    let names = names_at(f, marker.len() as int, occurrences_from(f, marker, 0));
    if trim(after_last(f, '.')) == method && call.arguments@.len() > 0 {
        match fluent_message_name(call.arguments@[0].value@) {
            Some(n) => if names.contains(n) {
                names
            } else {
                names.push(n)
            },
            None => names,
        }
    } else {
        names
    }
}

fn contains_text(v: &Vec<Vec<char>>, t: &[char]) -> (r: bool)
    ensures
        r == views(v@).contains(t@),
{
    crate::go::shared::seen_contains(v, t)
}

pub fn fluent_builder_message_names_exec(call: &CallStatement, method: &str) -> (r: Vec<Vec<char>>)
    ensures
        views(r@) == fluent_builder_message_names(*call, method@),
{
    let f = text_of(&call.function_name);
    let mut marker = chars_of(method);
    marker.push('(');
    assert(marker@ =~= method@ + seq!['(']);
    let m = marker.len();
    let n = f.len();
    let ghost occ = occurrences_from(f@, marker@, 0);
    let mut names: Vec<Vec<char>> = Vec::new();
    let mut pos: usize = 0;
    let ghost mut done: Seq<int> = Seq::empty();
    loop
        invariant
            n == f@.len(),
            m == marker@.len(),
            m >= 1,
            pos <= n + 1,
            occ == done + occurrences_from(f@, marker@, pos as nat),
            views(names@) == names_at(f@, m as int, done),
        ensures
            occ == done,
            views(names@) == names_at(f@, m as int, done),
        decreases n + 1 - pos,
    {
        proof {
            crate::text::lemma_find_from(f@, marker@, pos as nat);
        }
        match find_from_exec(&f, &marker, pos) {
            Some(k) => {
                proof {
                    assert(occurrences_from(f@, marker@, pos as nat) == seq![k as int] + occurrences_from(
                        f@,
                        marker@,
                        (k + m) as nat,
                    ));
                    assert(done + occurrences_from(f@, marker@, pos as nat) =~= done.push(k as int)
                        + occurrences_from(f@, marker@, (k + m) as nat));
                    assert(done.push(k as int).drop_last() =~= done);
                }
                assert(k + m <= n);
                let rest = slice_chars(&f, k + m, n);
                assert(rest@ =~= f@.skip(k + m));
                let arg = before_first_exec(&rest, '{');
                match fluent_message_name_exec(&arg) {
                    Some(name) => names.push(name),
                    None => {},
                }
                proof {
                    done = done.push(k as int);
                }
                assert(views(names@) =~= names_at(f@, m as int, done));
                pos = k + m;
            },
            None => {
                assert(done + occurrences_from(f@, marker@, pos as nat) =~= done);
                break;
            },
        }
    }
    let last = trim_exec(&after_last_exec(&f, '.'));
    if chars_eq(&last, &chars_of(method)) && call.arguments.len() > 0 {
        match fluent_message_name_exec(&text_of(&call.arguments[0].value)) {
            Some(name) => {
                if !contains_text(&names, &name) {
                    names.push(name);
                    assert(views(names@) =~= views(names@).drop_last().push(name@));
                }
            },
            None => {},
        }
    }
    names
}

/// The edges of the producers, of the consumers (a binding and a queue
/// consumer each) and of the published event a builder call declares.
pub open spec fn producer_shapes(names: Seq<Seq<char>>) -> Seq<EdgeShape>
    decreases names.len(),
{
    if names.len() == 0 {
        Seq::empty()
    } else {
        let prev = producer_shapes(names.drop_last());
        match publish_shape(names.last(), names.last()) {
            Some(sh) => prev.push(sh),
            None => prev,
        }
    }
}

pub open spec fn consumer_shapes(names: Seq<Seq<char>>) -> Seq<EdgeShape>
    decreases names.len(),
{
    if names.len() == 0 {
        Seq::empty()
    } else {
        let n = names.last();
        consumer_shapes(names.drop_last()).push(
            (
                MessageRole::Binding,
                MessageDestinationKind::ExchangeRoutingKey,
                n + seq![':'] + n,
                Some(n),
                Some(n),
                Some(n),
            ),
        ).push((MessageRole::Consumer, MessageDestinationKind::Queue, n, None, None, Some(n)))
    }
}

pub open spec fn builder_shapes(call: CallStatement) -> Seq<EdgeShape> {
    let published = match fluent_publish_message_name(call) {
        Some(n) => match publish_shape(n, n) {
            Some(sh) => seq![sh],
            None => Seq::empty(),
        },
        None => Seq::empty(),
    };
    producer_shapes(fluent_builder_message_names(call, "AddProducer"@)) + consumer_shapes(
        fluent_builder_message_names(call, "AddConsumer"@),
    ) + published
}

/// All edges `r` are the RabbitMQ edges of the shapes, in order.
pub open spec fn are_rabbit_edges(r: Seq<MessageEdge>, shapes: Seq<EdgeShape>, call: CallStatement, file_path: Seq<
    char,
>) -> bool {
    r.len() == shapes.len() && forall|k: int|
        0 <= k < r.len() ==> is_rabbit_edge(#[trigger] r[k], shapes[k], call, file_path)
}

/// The RabbitMQ edges a call to the messaging library's fluent
/// configuration builder declares.
pub fn identify_configuration_builder_edges(call: &CallStatement, file_path: &str) -> (r: Vec<
    MessageEdge,
>)
    ensures
        are_rabbit_edges(r@, builder_shapes(*call), *call, file_path@),
{
    let mut edges: Vec<MessageEdge> = Vec::new();
    let producers = fluent_builder_message_names_exec(call, "AddProducer");
    let ghost pv = views(producers@);
    let mut i: usize = 0;
    while i < producers.len()
        invariant
            i <= producers@.len(),
            pv == views(producers@),
            are_rabbit_edges(edges@, producer_shapes(pv.take(i as int)), *call, file_path@),
        decreases producers.len() - i,
    {
        assert(pv.take(i + 1).drop_last() =~= pv.take(i as int));
        assert(pv.take(i + 1).last() == producers@[i as int]@);
        match publish_edge(call, file_path, &producers[i], &producers[i]) {
            Some(e) => {
                edges.push(e);
            },
            None => {},
        }
        i = i + 1;
    }
    assert(pv.take(producers@.len() as int) =~= pv);
    let ghost base = edges@;
    let consumers = fluent_builder_message_names_exec(call, "AddConsumer");
    let ghost cv = views(consumers@);
    let mut j: usize = 0;
    while j < consumers.len()
        invariant
            j <= consumers@.len(),
            cv == views(consumers@),
            are_rabbit_edges(base, producer_shapes(pv), *call, file_path@),
            edges@.len() == base.len() + consumer_shapes(cv.take(j as int)).len(),
            edges@.subrange(0, base.len() as int) == base,
            are_rabbit_edges(
                edges@.subrange(base.len() as int, edges@.len() as int),
                consumer_shapes(cv.take(j as int)),
                *call,
                file_path@,
            ),
        decreases consumers.len() - j,
    {
        assert(cv.take(j + 1).drop_last() =~= cv.take(j as int));
        assert(cv.take(j + 1).last() == consumers@[j as int]@);
        let name = &consumers[j];
        let both = join_colon(name, name);
        let b = build_edge(
            call,
            file_path,
            MessageRole::Binding,
            MessageDestinationKind::ExchangeRoutingKey,
            &both,
            Some(string_of(name)),
            Some(string_of(name)),
            Some(string_of(name)),
        );
        let q = build_edge(
            call,
            file_path,
            MessageRole::Consumer,
            MessageDestinationKind::Queue,
            name,
            None,
            None,
            Some(string_of(name)),
        );
        let ghost e0 = edges@;
        edges.push(b);
        edges.push(q);
        proof {
            let tail0 = e0.subrange(base.len() as int, e0.len() as int);
            let tail = edges@.subrange(base.len() as int, edges@.len() as int);
            assert(tail =~= tail0.push(b).push(q));
            assert(edges@.subrange(0, base.len() as int) =~= e0.subrange(0, base.len() as int));
        }
        j = j + 1;
    }
    assert(cv.take(consumers@.len() as int) =~= cv);
    let ghost before_published = edges@;
    match fluent_publish_message_name_exec(call) {
        Some(n) => match publish_edge(call, file_path, &n, &n) {
            Some(e) => edges.push(e),
            None => {},
        },
        None => {},
    }
    proof {
        let ps = producer_shapes(pv);
        let cs = consumer_shapes(cv);
        let all = builder_shapes(*call);
        assert(all.len() == edges@.len());
        assert forall|k: int| 0 <= k < edges@.len() implies is_rabbit_edge(
            #[trigger] edges@[k],
            all[k],
            *call,
            file_path@,
        ) by {
            if k < base.len() {
                assert(edges@[k] == before_published[k]);
                assert(before_published[k] == base[k]);
                assert(all[k] == ps[k]);
            } else if k < base.len() + cs.len() {
                assert(edges@[k] == before_published[k]);
                assert(before_published.subrange(base.len() as int, before_published.len() as int)[k
                    - base.len()] == before_published[k]);
                assert(all[k] == cs[k - base.len()]);
            }
        }
    }
    edges
}

} // verus!
