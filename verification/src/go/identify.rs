//! Outgoing HTTP calls in Go code: `exchange` helpers, `net/http` verbs,
//! client verbs, `http.NewRequest` and `client.Do`, with their URLs
//! resolved from the scope the call sits in.
use vstd::prelude::*;

use crate::bindings::Bindings;
use crate::go::evaluator::{call_text_value, evaluate_call_text};
use crate::go::shared::{
    eval_text, evaluate_expression_text, parse_http_method_value, parse_http_method_value_exec,
    split_arguments, split_arguments_exec, EVALUATION_DEPTH,
};
use crate::model::{
    scope_view, same_scope, Argument, Assignment, AssignmentKey, CallStatement, Endpoint, Expr,
    HttpMethod, Import, ParsedCallable, Scope, Stmt,
};
use crate::text::{
    chars_eq, chars_of, contains, contains_exec, ends_with, ends_with_exec, first_word,
    first_word_exec, lower, lower_exec, one, rsplit_once, rsplit_once_exec, slice_chars,
    split_once, split_once_exec, starts_with, starts_with_exec, string_of, strip_prefix,
    strip_prefix_exec, strip_suffix, strip_suffix_exec, text_of, trim, trim_end_str,
    trim_end_str_exec, trim_exec, trim_start, trim_start_exec, after_last, after_last_exec, views,
    join,
};

verus! {

/// `m` with the values assigned in scope `s` bound over it, in order.
pub open spec fn bind_scope(
    m: Map<Seq<char>, Seq<char>>,
    asg: Seq<(AssignmentKey, Assignment)>,
    s: (int, Seq<char>),
) -> Map<Seq<char>, Seq<char>>
    decreases asg.len(),
{
    if asg.len() == 0 {
        m
    } else {
        let prev = bind_scope(m, asg.drop_last(), s);
        if scope_view(asg.last().0.scope) == s {
            prev.insert(asg.last().1.variable_name@, asg.last().1.value@)
        } else {
            prev
        }
    }
}

pub fn bind_scope_exec(m: &mut Bindings, asg: &Vec<(AssignmentKey, Assignment)>, s: &Scope)
    ensures
        final(m)@ == bind_scope(old(m)@, asg@, scope_view(*s)),
{
    let ghost m0 = m@;
    let mut i: usize = 0;
    while i < asg.len()
        invariant
            i <= asg@.len(),
            m@ == bind_scope(m0, asg@.take(i as int), scope_view(*s)),
        decreases asg.len() - i,
    {
        assert(asg@.take(i + 1).drop_last() =~= asg@.take(i as int));
        if same_scope(&asg[i].0.scope, s) {
            m.insert(asg[i].1.variable_name.clone(), asg[i].1.value.clone());
        }
        i = i + 1;
    }
    assert(asg@.take(asg@.len() as int) =~= asg@);
}

/// The scope a call is evaluated in: its enclosing function's, or the
/// file's global scope.
pub open spec fn call_scope(call: CallStatement) -> (int, Seq<char>) {
    match call.enclosing_function_name {
        Some(n) => (1, n@),
        None => (0, Seq::empty()),
    }
}

/// The names a call sees: the globals (the package's, or else the file's
/// global assignments) overlaid with its scope's assignments.
pub open spec fn call_bindings(
    asg: Seq<(AssignmentKey, Assignment)>,
    call: CallStatement,
    package_globals: Option<Map<Seq<char>, Seq<char>>>,
) -> Map<Seq<char>, Seq<char>> {
    let globals = match package_globals {
        Some(g) => g,
        None => bind_scope(Map::empty(), asg, (0, Seq::empty())),
    };
    bind_scope(globals, asg, call_scope(call))
}

/// The receiver name of a method signature `func (r *T) ...`.
pub open spec fn parse_receiver_name(signature: Seq<char>) -> Option<Seq<char>> {
    match strip_prefix(signature, "func"@) {
        None => None,
        Some(rest) => match strip_prefix(trim_start(rest), seq!['(']) {
            None => None,
            Some(inner) => match split_once(inner, ')') {
                None => None,
                Some((receiver, _)) => first_word(trim(receiver)),
            },
        },
    }
}

pub fn parse_receiver_name_exec(signature: &[char]) -> (r: Option<Vec<char>>)
    ensures
        r matches Some(v) ==> parse_receiver_name(signature@) == Some(v@),
        r is None ==> parse_receiver_name(signature@) is None,
{
    let rest = match strip_prefix_exec(signature, &chars_of("func")) {
        Some(r) => r,
        None => return None,
    };
    let inner = match strip_prefix_exec(&trim_start_exec(&rest), &one('(')) {
        Some(i) => i,
        None => return None,
    };
    match split_once_exec(&inner, ')') {
        Some((receiver, _)) => first_word_exec(&trim_exec(&receiver)),
        None => None,
    }
}

/// The instance text constructs or points to a value of the class.
pub open spec fn matches_receiver_instance(instance: Seq<char>, class: Seq<char>) -> bool {
    contains(instance, seq!['*'] + class) || contains(instance, seq!['&'] + class) || contains(
        instance,
        class + seq!['{'],
    ) || contains(instance, "New"@ + class + seq!['('])
}

pub fn matches_receiver_instance_exec(instance: &[char], class: &[char]) -> (r: bool)
    ensures
        r == matches_receiver_instance(instance@, class@),
{
    let mut a = one('*');
    crate::text::append_chars(&mut a, class);
    let mut b = one('&');
    crate::text::append_chars(&mut b, class);
    let mut c = slice_chars(class, 0, class.len());
    c.push('{');
    let mut d = chars_of("New");
    let ghost d0 = d@;
    crate::text::append_chars(&mut d, class);
    d.push('(');
    assert(a@ =~= seq!['*'] + class@);
    assert(b@ =~= seq!['&'] + class@);
    assert(c@ =~= class@ + seq!['{']);
    assert(d@ =~= d0 + class@ + seq!['(']);
    contains_exec(instance, &a) || contains_exec(instance, &b) || contains_exec(instance, &c)
        || contains_exec(instance, &d)
}

/// `resolved` with `receiver.field` bound, where not bound yet, for each
/// package global `root.field` whose `root` holds an instance of `class`,
/// the globals taken in the order of `keys`.
pub open spec fn receiver_aliases(
    resolved: Map<Seq<char>, Seq<char>>,
    keys: Seq<Seq<char>>,
    g: Map<Seq<char>, Seq<char>>,
    receiver: Seq<char>,
    class: Seq<char>,
) -> Map<Seq<char>, Seq<char>>
    decreases keys.len(),
{
    if keys.len() == 0 {
        resolved
    } else {
        let prev = receiver_aliases(resolved, keys.drop_last(), g, receiver, class);
        let k = keys.last();
        match split_once(k, '.') {
            Some((root, field)) => if g.contains_key(root) && matches_receiver_instance(
                g[root],
                class,
            ) {
                let alias = receiver + seq!['.'] + field;
                if prev.contains_key(alias) {
                    prev
                } else {
                    prev.insert(alias, g[k])
                }
            } else {
                prev
            },
            None => prev,
        }
    }
}

/// The receiver and class of the method a call sits in.
pub open spec fn enclosing_receiver(call: CallStatement) -> Option<(Seq<char>, Seq<char>)> {
    match (call.enclosing_function_name, call.enclosing_class_name) {
        (Some(sig), Some(class)) => match parse_receiver_name(sig@) {
            Some(r) => Some((r, class@)),
            None => None,
        },
        _ => None,
    }
}

fn enclosing_receiver_exec(call: &CallStatement) -> (r: Option<(Vec<char>, Vec<char>)>)
    ensures
        r matches Some(p) ==> enclosing_receiver(*call) == Some((p.0@, p.1@)),
        r is None ==> enclosing_receiver(*call) is None,
{
    match (&call.enclosing_function_name, &call.enclosing_class_name) {
        (Some(sig), Some(class)) => match parse_receiver_name_exec(&text_of(sig)) {
            Some(r) => Some((r, text_of(class))),
            None => None,
        },
        _ => None,
    }
}

fn add_receiver_field_aliases(call: &CallStatement, globals: &Bindings, resolved: &mut Bindings)
    ensures
        final(resolved)@ == match enclosing_receiver(*call) {
            Some((r, c)) => receiver_aliases(old(resolved)@, globals.keys(), globals@, r, c),
            None => old(resolved)@,
        },
{
    let (receiver, class) = match enclosing_receiver_exec(call) {
        Some(p) => p,
        None => return,
    };
    let n = globals.len();
    let ghost keys = globals.keys();
    let ghost r0 = resolved@;
    let mut i: usize = 0;
    while i < n
        invariant
            n == keys.len(),
            keys == globals.keys(),
            i <= n,
            resolved@ == receiver_aliases(r0, keys.take(i as int), globals@, receiver@, class@),
        decreases n - i,
    {
        let key = globals.key_at(i);
        let k = text_of(&key);
        assert(keys.take(i + 1).drop_last() =~= keys.take(i as int));
        assert(keys.take(i + 1).last() == k@);
        match split_once_exec(&k, '.') {
            Some((root, field)) => {
                match globals.get(&root) {
                    Some(root_value) => {
                        if matches_receiver_instance_exec(&text_of(&root_value), &class) {
                            let mut alias = slice_chars(&receiver, 0, receiver.len());
                            alias.push('.');
                            crate::text::append_chars(&mut alias, &field);
                            assert(alias@ =~= receiver@ + seq!['.'] + field@);
                            let value = globals.value_at(i);
                            resolved.insert_if_absent(string_of(&alias), value);
                        }
                    },
                    None => {},
                }
            },
            None => {},
        }
        i = i + 1;
    }
    assert(keys.take(n as int) =~= keys);
}

/// `net/http`'s function `method` called through `http` or an alias the
/// file imports `net/http` under.
pub open spec fn is_net_http_call(function_name: Seq<char>, method: Seq<char>, imports: Seq<Import>) -> bool {
    match rsplit_once(function_name, '.') {
        Some((receiver, selector)) => selector == method && (receiver == "http"@ || exists|i: int|
            0 <= i < imports.len() && #[trigger] imports[i].orig_module@ == "net/http"@
                && imports[i].module_alias@ == receiver),
        None => false,
    }
}

pub fn is_net_http_call_exec(function_name: &[char], method: &str, imports: &Vec<Import>) -> (r:
    bool)
    ensures
        r == is_net_http_call(function_name@, method@, imports@),
{
    let (receiver, selector) = match rsplit_once_exec(function_name, '.') {
        Some(p) => p,
        None => return false,
    };
    if !chars_eq(&selector, &chars_of(method)) {
        return false;
    }
    if chars_eq(&receiver, &chars_of("http")) {
        return true;
    }
    let net = chars_of("net/http");
    let mut i: usize = 0;
    while i < imports.len()
        invariant
            i <= imports@.len(),
            net@ == "net/http"@,
            rsplit_once(function_name@, '.') == Some((receiver@, selector@)),
            selector@ == method@,
            forall|j: int|
                0 <= j < i ==> !(#[trigger] imports@[j].orig_module@ == "net/http"@
                    && imports@[j].module_alias@ == receiver@),
        decreases imports.len() - i,
    {
        if chars_eq(&text_of(&imports[i].orig_module), &net) && chars_eq(
            &text_of(&imports[i].module_alias),
            &receiver,
        ) {
            return true;
        }
        i = i + 1;
    }
    false
}

pub open spec fn client_names() -> Seq<Seq<char>> {
    seq!["client"@, "restclient"@, "httpclient"@, "apiclient"@, "defaultclient"@]
}

pub open spec fn client_origin_markers() -> Seq<Seq<char>> {
    seq!["http.Client"@, "resty.New("@, "retryablehttp.NewClient("@]
}

/// The call's receiver is an HTTP client: by its name (`client`,
/// `httpClient`, ... in any ASCII case) or by the value bound to it.
pub open spec fn is_http_client_receiver(function_name: Seq<char>, scope: Map<Seq<char>, Seq<char>>) -> bool {
    match rsplit_once(function_name, '.') {
        Some((receiver, _)) => {
            let name = lower(after_last(trim_end_str(receiver, ".R()"@), '.'));
            client_names().contains(name) || (scope.contains_key(receiver) && exists|k: int|
                0 <= k < client_origin_markers().len() && contains(
                    scope[receiver],
                    #[trigger] client_origin_markers()[k],
                ))
        },
        None => false,
    }
}

pub fn is_http_client_receiver_exec(function_name: &[char], scope: &Bindings) -> (r: bool)
    ensures
        r == is_http_client_receiver(function_name@, scope@),
{
    let (receiver, _) = match rsplit_once_exec(function_name, '.') {
        Some(p) => p,
        None => return false,
    };
    let name = lower_exec(&after_last_exec(&trim_end_str_exec(&receiver, &chars_of(".R()")), '.'));
    let mut names: Vec<Vec<char>> = Vec::new();
    names.push(chars_of("client"));
    names.push(chars_of("restclient"));
    names.push(chars_of("httpclient"));
    names.push(chars_of("apiclient"));
    names.push(chars_of("defaultclient"));
    assert(views(names@) =~= client_names());
    let mut i: usize = 0;
    while i < names.len()
        invariant
            i <= names@.len(),
            views(names@) == client_names(),
            rsplit_once(function_name@, '.') matches Some((rc, _)) && rc == receiver@,
            name@ == lower(after_last(trim_end_str(receiver@, ".R()"@), '.')),
            forall|j: int| 0 <= j < i ==> client_names()[j] != name@,
        decreases names.len() - i,
    {
        if chars_eq(&names[i], &name) {
            assert(client_names()[i as int] == name@);
            return true;
        }
        i = i + 1;
    }
    assert(!client_names().contains(name@));
    match scope.get(&receiver) {
        Some(origin) => {
            let o = text_of(&origin);
            let a = chars_of("http.Client");
            let b = chars_of("resty.New(");
            let c = chars_of("retryablehttp.NewClient(");
            let r = contains_exec(&o, &a) || contains_exec(&o, &b) || contains_exec(&o, &c);
            proof {
                if r {
                    if contains(o@, a@) {
                        assert(contains(o@, client_origin_markers()[0]));
                    } else if contains(o@, b@) {
                        assert(contains(o@, client_origin_markers()[1]));
                    } else {
                        assert(contains(o@, client_origin_markers()[2]));
                    }
                }
            }
            r
        },
        None => false,
    }
}

/// An argument's text evaluated in scope, then as a call to a package
/// callable when it is one.
pub open spec fn resolve_argument(
    value: Seq<char>,
    scope: Map<Seq<char>, Seq<char>>,
    cs: Seq<ParsedCallable>,
) -> Seq<char> {
    let r = eval_text(value, scope, Seq::empty(), EVALUATION_DEPTH as nat);
    match call_text_value(r, cs, scope) {
        Some(x) => x,
        None => r,
    }
}

pub fn resolve_argument_value(argument: &Argument, scope: &Bindings, cs: &Vec<ParsedCallable>) -> (r:
    String)
    ensures
        r@ == resolve_argument(argument.value@, scope@, cs@),
{
    let resolved = evaluate_expression_text(argument.value.as_str(), scope);
    match evaluate_call_text(resolved.as_str(), cs, scope) {
        Some(x) => x,
        None => resolved,
    }
}

/// A request built as text: `http.NewRequest(method, url, ...)` (or
/// `NewRequestWithContext(ctx, method, url, ...)`), its method and URL
/// evaluated in scope.
pub open spec fn parse_request_call(
    raw: Seq<char>,
    scope: Map<Seq<char>, Seq<char>>,
    imports: Seq<Import>,
) -> Option<(HttpMethod, Seq<char>)> {
    match split_once(raw, '(') {
        None => None,
        Some((name0, rest)) => {
            let name = trim(name0);
            if !is_net_http_call(name, "NewRequest"@, imports) && !is_net_http_call(
                name,
                "NewRequestWithContext"@,
                imports,
            ) {
                None
            } else {
                match strip_suffix(rest, seq![')']) {
                    None => None,
                    Some(body) => {
                        let args = split_arguments(body, true);
                        let mi: int = if ends_with(name, "WithContext"@) {
                            1
                        } else {
                            0
                        };
                        if args.len() <= mi + 1 {
                            None
                        } else {
                            match parse_http_method_value(
                                eval_text(args[mi], scope, Seq::empty(), EVALUATION_DEPTH as nat),
                            ) {
                                Some(m) => Some(
                                    (
                                        m,
                                        eval_text(
                                            args[mi + 1],
                                            scope,
                                            Seq::empty(),
                                            EVALUATION_DEPTH as nat,
                                        ),
                                    ),
                                ),
                                None => None,
                            }
                        }
                    },
                }
            }
        },
    }
}

pub fn parse_request_call_exec(raw: &[char], scope: &Bindings, imports: &Vec<Import>) -> (r: Option<
    (HttpMethod, Vec<char>),
>)
    ensures
        r matches Some(p) ==> parse_request_call(raw@, scope@, imports@) == Some((p.0, p.1@)),
        r is None ==> parse_request_call(raw@, scope@, imports@) is None,
{
    let (name0, rest) = match split_once_exec(raw, '(') {
        Some(p) => p,
        None => return None,
    };
    let name = trim_exec(&name0);
    if !is_net_http_call_exec(&name, "NewRequest", imports) && !is_net_http_call_exec(
        &name,
        "NewRequestWithContext",
        imports,
    ) {
        return None;
    }
    let body = match strip_suffix_exec(&rest, &one(')')) {
        Some(b) => b,
        None => return None,
    };
    let args = split_arguments_exec(&body, true);
    let mi: usize = if ends_with_exec(&name, &chars_of("WithContext")) {
        1
    } else {
        0
    };
    if args.len() <= mi + 1 {
        return None;
    }
    let method_text = evaluate_expression_text(string_of(&args[mi]).as_str(), scope);
    match parse_http_method_value_exec(&text_of(&method_text)) {
        Some(m) => {
            let url = evaluate_expression_text(string_of(&args[mi + 1]).as_str(), scope);
            Some((m, text_of(&url)))
        },
        None => None,
    }
}

/// The source text an expression of the lowered language stands for, when
/// it has one (struct literals and empty expressions have none).
pub open spec fn render_expr(e: Expr) -> Option<Seq<char>>
    decreases e,
{
    match e {
        Expr::Literal(v) => Some(v@),
        Expr::Var(n) => Some(n@),
        Expr::Concat(l, r) => match (render_expr(*l), render_expr(*r)) {
            (Some(a), Some(b)) => Some(a + b),
            _ => None,
        },
        Expr::StructLiteral { .. } => None,
        Expr::Call { name, receiver, args } => {
            let recv = match receiver {
                Some(rb) => match render_expr(*rb) {
                    Some(x) => Some(x + seq!['.']),
                    None => None,
                },
                None => Some(Seq::<char>::empty()),
            };
            match (recv, render_all(args@)) {
                (Some(p), Some(rs)) => Some(p + name@ + seq!['('] + join(rs, ", "@) + seq![')']),
                _ => None,
            }
        },
        Expr::Empty => None,
        Expr::Joined { vals } => if vals@.len() == 0 {
            None
        } else {
            render_expr(vals@[0])
        },
        Expr::Attr { object, field } => match render_expr(*object) {
            Some(o) => Some(o + seq!['.'] + field@),
            None => None,
        },
    }
}

pub open spec fn render_all(es: Seq<Expr>) -> Option<Seq<Seq<char>>>
    decreases es,
{
    if es.len() == 0 {
        Some(Seq::empty())
    } else {
        match (render_all(es.subrange(0, es.len() - 1)), render_expr(es[es.len() - 1])) {
            (Some(a), Some(b)) => Some(a.push(b)),
            _ => None,
        }
    }
}

pub fn render_expr_exec(e: &Expr) -> (r: Option<Vec<char>>)
    ensures
        r matches Some(v) ==> render_expr(*e) == Some(v@),
        r is None ==> render_expr(*e) is None,
    decreases e,
{
    match e {
        Expr::Literal(v) => Some(text_of(v)),
        Expr::Var(n) => Some(text_of(n)),
        Expr::Concat(l, r) => match (render_expr_exec(l), render_expr_exec(r)) {
            (Some(a), Some(b)) => Some(crate::text::concat(&a, &b)),
            _ => None,
        },
        Expr::StructLiteral { .. } => None,
        Expr::Call { name, receiver, args } => {
            let mut out: Vec<char> = match receiver {
                Some(rb) => match render_expr_exec(rb) {
                    Some(x) => {
                        let ghost x0 = x@;
                        let mut y = x;
                        y.push('.');
                        assert(y@ =~= x0 + seq!['.']);
                        y
                    },
                    None => return None,
                },
                None => Vec::new(),
            };
            let ghost p = out@;
            let rs = match render_all_exec(args) {
                Some(rs) => rs,
                None => return None,
            };
            crate::text::append_chars(&mut out, &text_of(name));
            out.push('(');
            crate::text::append_chars(&mut out, &crate::text::join_exec(&rs, &chars_of(", ")));
            out.push(')');
            assert(out@ =~= p + name@ + seq!['('] + join(views(rs@), ", "@) + seq![')']);
            Some(out)
        },
        Expr::Empty => None,
        Expr::Joined { vals } => {
            if vals.len() == 0 {
                None
            } else {
                render_expr_exec(&vals[0])
            }
        },
        Expr::Attr { object, field } => match render_expr_exec(object) {
            Some(o) => {
                let ghost o0 = o@;
                let mut y = o;
                y.push('.');
                crate::text::append_chars(&mut y, &text_of(field));
                assert(y@ =~= o0 + seq!['.'] + field@);
                Some(y)
            },
            None => None,
        },
    }
}

fn render_all_exec(es: &Vec<Expr>) -> (r: Option<Vec<Vec<char>>>)
    ensures
        r matches Some(v) ==> render_all(es@) == Some(views(v@)),
        r is None ==> render_all(es@) is None,
    decreases es,
{
    let mut out: Vec<Vec<char>> = Vec::new();
    let mut i: usize = 0;
    while i < es.len()
        invariant
            i <= es@.len(),
            render_all(es@.take(i as int)) == Some(views(out@)),
        decreases es.len() - i,
    {
        let ghost next = es@.take(i + 1);
        assert(next.subrange(0, next.len() - 1) =~= es@.take(i as int));
        match render_expr_exec(&es[i]) {
            Some(v) => {
                out.push(v);
                assert(views(out@) =~= views(out@).drop_last().push(v@));
            },
            None => {
                proof {
                    lemma_render_all_prefix(es@, i as int);
                }
                return None;
            },
        }
        i = i + 1;
    }
    assert(es@.take(es@.len() as int) =~= es@);
    Some(out)
}

proof fn lemma_render_all_prefix(es: Seq<Expr>, i: int)
    requires
        0 <= i < es.len(),
        render_expr(es[i]) is None,
    ensures
        render_all(es) is None,
    decreases es.len(),
{
    if i < es.len() - 1 {
        let d = es.subrange(0, es.len() - 1);
        assert(d[i] == es[i]);
        lemma_render_all_prefix(d, i);
    }
}

/// The value of an expression rendered to text: as a call to a package
/// callable, or else evaluated in scope.
pub open spec fn resolve_expr_value(
    e: Expr,
    cs: Seq<ParsedCallable>,
    env: Map<Seq<char>, Seq<char>>,
) -> Option<Seq<char>> {
    match render_expr(e) {
        None => None,
        Some(r) => Some(
            match call_text_value(r, cs, env) {
                Some(x) => x,
                None => eval_text(r, env, Seq::empty(), EVALUATION_DEPTH as nat),
            },
        ),
    }
}

fn resolve_expr_value_exec(e: &Expr, cs: &Vec<ParsedCallable>, env: &Bindings) -> (r: Option<Vec<char>>)
    ensures
        r matches Some(v) ==> resolve_expr_value(*e, cs@, env@) == Some(v@),
        r is None ==> resolve_expr_value(*e, cs@, env@) is None,
{
    match render_expr_exec(e) {
        None => None,
        Some(r) => {
            let text = string_of(&r);
            match evaluate_call_text(text.as_str(), cs, env) {
                Some(x) => Some(text_of(&x)),
                None => Some(text_of(&evaluate_expression_text(text.as_str(), env))),
            }
        },
    }
}

/// The fields whose values resolve, with those values, in order.
pub open spec fn field_values(
    fields: Seq<(String, Expr)>,
    cs: Seq<ParsedCallable>,
    env: Map<Seq<char>, Seq<char>>,
) -> Seq<(Seq<char>, Seq<char>)>
    decreases fields.len(),
{
    if fields.len() == 0 {
        Seq::empty()
    } else {
        let prev = field_values(fields.drop_last(), cs, env);
        match resolve_expr_value(fields.last().1, cs, env) {
            Some(v) => prev.push((fields.last().0@, v)),
            None => prev,
        }
    }
}

pub open spec fn pair_views(v: Seq<(Vec<char>, Vec<char>)>) -> Seq<(Seq<char>, Seq<char>)> {
    v.map_values(|p: (Vec<char>, Vec<char>)| (p.0@, p.1@))
}

fn field_values_exec(fields: &Vec<(String, Expr)>, cs: &Vec<ParsedCallable>, env: &Bindings) -> (r: Vec<
    (Vec<char>, Vec<char>),
>)
    ensures
        pair_views(r@) == field_values(fields@, cs@, env@),
{
    let mut out: Vec<(Vec<char>, Vec<char>)> = Vec::new();
    let mut i: usize = 0;
    while i < fields.len()
        invariant
            i <= fields@.len(),
            pair_views(out@) == field_values(fields@.take(i as int), cs@, env@),
        decreases fields.len() - i,
    {
        assert(fields@.take(i + 1).drop_last() =~= fields@.take(i as int));
        match resolve_expr_value_exec(&fields[i].1, cs, env) {
            Some(v) => {
                let ghost o = out@;
                out.push((text_of(&fields[i].0), v));
                assert(pair_views(out@) =~= pair_views(o).push((fields@[i as int].0@, v@)));
            },
            None => {},
        }
        i = i + 1;
    }
    assert(fields@.take(fields@.len() as int) =~= fields@);
    out
}

/// The fields bound last to `name` by a struct-literal assignment.
pub open spec fn lookup_struct(sb: Seq<(Seq<char>, Seq<(String, Expr)>)>, name: Seq<char>) -> Option<
    Seq<(String, Expr)>,
>
    decreases sb.len(),
{
    if sb.len() == 0 {
        None
    } else if sb.last().0 == name {
        Some(sb.last().1)
    } else {
        lookup_struct(sb.drop_last(), name)
    }
}

/// The field values a returned struct carries: a struct literal's own,
/// or those of the struct literal last assigned to the returned name.
pub open spec fn struct_literal_fields(
    value: Expr,
    cs: Seq<ParsedCallable>,
    env: Map<Seq<char>, Seq<char>>,
    sb: Seq<(Seq<char>, Seq<(String, Expr)>)>,
) -> Option<Seq<(Seq<char>, Seq<char>)>> {
    match value {
        Expr::StructLiteral { fields, .. } => Some(field_values(fields@, cs, env)),
        Expr::Var(name) => match lookup_struct(sb, name@) {
            Some(fields) => Some(field_values(fields, cs, env)),
            None => None,
        },
        _ => None,
    }
}

/// Runs a constructor's statements from `i` on, binding resolvable values
/// and remembering struct literals, up to the first `return`.
pub open spec fn constructor_fields_from(
    stmts: Seq<Stmt>,
    i: int,
    cs: Seq<ParsedCallable>,
    env: Map<Seq<char>, Seq<char>>,
    sb: Seq<(Seq<char>, Seq<(String, Expr)>)>,
) -> Option<Seq<(Seq<char>, Seq<char>)>>
    decreases stmts.len() - i,
{
    if i < 0 || i >= stmts.len() {
        None
    } else {
        match stmts[i] {
            Stmt::Declaration { name, value, .. } => match value {
                Expr::StructLiteral { fields, .. } => constructor_fields_from(
                    stmts,
                    i + 1,
                    cs,
                    env,
                    sb.push((name@, fields@)),
                ),
                _ => match resolve_expr_value(value, cs, env) {
                    Some(v) => constructor_fields_from(stmts, i + 1, cs, env.insert(name@, v), sb),
                    None => constructor_fields_from(stmts, i + 1, cs, env, sb),
                },
            },
            Stmt::Assignment { name, value } => match value {
                Expr::StructLiteral { fields, .. } => constructor_fields_from(
                    stmts,
                    i + 1,
                    cs,
                    env,
                    sb.push((name@, fields@)),
                ),
                _ => match resolve_expr_value(value, cs, env) {
                    Some(v) => constructor_fields_from(stmts, i + 1, cs, env.insert(name@, v), sb),
                    None => constructor_fields_from(stmts, i + 1, cs, env, sb),
                },
            },
            Stmt::Return(value) => struct_literal_fields(value, cs, env, sb),
            Stmt::Other => constructor_fields_from(stmts, i + 1, cs, env, sb),
        }
    }
}

pub open spec fn struct_views(v: Seq<(Vec<char>, &Vec<(String, Expr)>)>) -> Seq<
    (Seq<char>, Seq<(String, Expr)>),
> {
    v.map_values(|p: (Vec<char>, &Vec<(String, Expr)>)| (p.0@, p.1@))
}

fn lookup_struct_exec<'a>(sb: &Vec<(Vec<char>, &'a Vec<(String, Expr)>)>, name: &[char]) -> (r: Option<
    &'a Vec<(String, Expr)>,
>)
    ensures
        r matches Some(f) ==> lookup_struct(struct_views(sb@), name@) == Some(f@),
        r is None ==> lookup_struct(struct_views(sb@), name@) is None,
{
    let ghost v = struct_views(sb@);
    let mut k: usize = sb.len();
    assert(v.take(k as int) =~= v);
    while k > 0
        invariant
            k <= sb@.len(),
            v == struct_views(sb@),
            lookup_struct(v, name@) == lookup_struct(v.take(k as int), name@),
        decreases k,
    {
        assert(v.take(k as int).drop_last() =~= v.take(k - 1));
        if chars_eq(&sb[k - 1].0, name) {
            return Some(sb[k - 1].1);
        }
        k = k - 1;
    }
    None
}

fn struct_literal_fields_exec(
    value: &Expr,
    cs: &Vec<ParsedCallable>,
    env: &Bindings,
    sb: &Vec<(Vec<char>, &Vec<(String, Expr)>)>,
) -> (r: Option<Vec<(Vec<char>, Vec<char>)>>)
    ensures
        r matches Some(f) ==> struct_literal_fields(*value, cs@, env@, struct_views(sb@)) == Some(
            pair_views(f@),
        ),
        r is None ==> struct_literal_fields(*value, cs@, env@, struct_views(sb@)) is None,
{
    match value {
        Expr::StructLiteral { fields, .. } => Some(field_values_exec(fields, cs, env)),
        Expr::Var(name) => match lookup_struct_exec(sb, &text_of(name)) {
            Some(fields) => Some(field_values_exec(fields, cs, env)),
            None => None,
        },
        _ => None,
    }
}

fn constructor_fields_exec(stmts: &Vec<Stmt>, cs: &Vec<ParsedCallable>, scope: &Bindings) -> (r: Option<
    Vec<(Vec<char>, Vec<char>)>,
>)
    ensures
        r matches Some(f) ==> constructor_fields_from(stmts@, 0, cs@, scope@, Seq::empty()) == Some(
            pair_views(f@),
        ),
        r is None ==> constructor_fields_from(stmts@, 0, cs@, scope@, Seq::empty()) is None,
{
    let mut env = scope.duplicate();
    let mut sb: Vec<(Vec<char>, &Vec<(String, Expr)>)> = Vec::new();
    assert(struct_views(sb@) =~= Seq::<(Seq<char>, Seq<(String, Expr)>)>::empty());
    let mut i: usize = 0;
    while i < stmts.len()
        invariant
            i <= stmts@.len(),
            constructor_fields_from(stmts@, 0, cs@, scope@, Seq::empty()) == constructor_fields_from(
                stmts@,
                i as int,
                cs@,
                env@,
                struct_views(sb@),
            ),
        decreases stmts.len() - i,
    {
        let ghost v0 = struct_views(sb@);
        match &stmts[i] {
            Stmt::Declaration { name, value, .. } => match value {
                Expr::StructLiteral { fields, .. } => {
                    sb.push((text_of(name), fields));
                    assert(struct_views(sb@) =~= v0.push((name@, fields@)));
                },
                _ => match resolve_expr_value_exec(value, cs, &env) {
                    Some(v) => {
                        env.insert(name.clone(), string_of(&v));
                    },
                    None => {},
                },
            },
            Stmt::Assignment { name, value } => match value {
                Expr::StructLiteral { fields, .. } => {
                    sb.push((text_of(name), fields));
                    assert(struct_views(sb@) =~= v0.push((name@, fields@)));
                },
                _ => match resolve_expr_value_exec(value, cs, &env) {
                    Some(v) => {
                        env.insert(name.clone(), string_of(&v));
                    },
                    None => {},
                },
            },
            Stmt::Return(value) => {
                return struct_literal_fields_exec(value, cs, &env, &sb);
            },
            Stmt::Other => {},
        }
        i = i + 1;
    }
    None
}

/// A `return` of a struct literal of the class (`&Class{...}` too).
pub open spec fn returns_struct_of(stmt: Stmt, class: Seq<char>) -> bool {
    match stmt {
        Stmt::Return(Expr::StructLiteral { literal_type: Some(t), .. }) => crate::text::trim_start_str(
            t@,
            seq!['&'],
        ) == class,
        _ => false,
    }
}

/// The callable constructs values of the class: its return type names the
/// class, or it returns a struct literal of it.
pub open spec fn callable_returns_class(c: ParsedCallable, class: Seq<char>) -> bool {
    (match c.metadata.return_type {
        Some(rt) => contains(rt@, class),
        None => false,
    }) || exists|i: int| 0 <= i < c.statements@.len() && #[trigger] returns_struct_of(c.statements@[i], class)
}

fn callable_returns_class_exec(c: &ParsedCallable, class: &[char]) -> (r: bool)
    ensures
        r == callable_returns_class(*c, class@),
{
    match &c.metadata.return_type {
        Some(rt) => {
            if contains_exec(&text_of(rt), class) {
                return true;
            }
        },
        None => {},
    }
    let mut i: usize = 0;
    while i < c.statements.len()
        invariant
            i <= c.statements@.len(),
            !(match c.metadata.return_type {
                Some(rt) => contains(rt@, class@),
                None => false,
            }),
            forall|j: int| 0 <= j < i ==> !#[trigger] returns_struct_of(c.statements@[j], class@),
        decreases c.statements.len() - i,
    {
        match &c.statements[i] {
            Stmt::Return(Expr::StructLiteral { literal_type: Some(t), .. }) => {
                if chars_eq(&crate::text::trim_start_str_exec(&text_of(t), &one('&')), class) {
                    assert(returns_struct_of(c.statements@[i as int], class@));
                    return true;
                }
            },
            _ => {},
        }
        i = i + 1;
    }
    false
}

/// The field values of the first callable from `k` on that constructs the
/// class and whose constructor evaluation succeeds.
pub open spec fn constructor_aliases_from(
    cs: Seq<ParsedCallable>,
    k: int,
    class: Seq<char>,
    scope: Map<Seq<char>, Seq<char>>,
) -> Seq<(Seq<char>, Seq<char>)>
    decreases cs.len() - k,
{
    if k < 0 || k >= cs.len() {
        Seq::empty()
    } else if callable_returns_class(cs[k], class) && constructor_fields_from(
        cs[k].statements@,
        0,
        cs,
        scope,
        Seq::empty(),
    ) is Some {
        constructor_fields_from(cs[k].statements@, 0, cs, scope, Seq::empty()).unwrap()
    } else {
        constructor_aliases_from(cs, k + 1, class, scope)
    }
}

fn constructor_aliases_exec(cs: &Vec<ParsedCallable>, class: &[char], scope: &Bindings) -> (r: Vec<
    (Vec<char>, Vec<char>),
>)
    ensures
        pair_views(r@) == constructor_aliases_from(cs@, 0, class@, scope@),
{
    let mut k: usize = 0;
    while k < cs.len()
        invariant
            k <= cs@.len(),
            constructor_aliases_from(cs@, 0, class@, scope@) == constructor_aliases_from(
                cs@,
                k as int,
                class@,
                scope@,
            ),
        decreases cs.len() - k,
    {
        if callable_returns_class_exec(&cs[k], class) {
            match constructor_fields_exec(&cs[k].statements, cs, scope) {
                Some(f) => return f,
                None => {},
            }
        }
        k = k + 1;
    }
    let r: Vec<(Vec<char>, Vec<char>)> = Vec::new();
    assert(pair_views(r@) =~= Seq::<(Seq<char>, Seq<char>)>::empty());
    r
}

/// `m` with `receiver.field` bound to each value, where not bound yet.
pub open spec fn insert_aliases(
    m: Map<Seq<char>, Seq<char>>,
    receiver: Seq<char>,
    pairs: Seq<(Seq<char>, Seq<char>)>,
) -> Map<Seq<char>, Seq<char>>
    decreases pairs.len(),
{
    if pairs.len() == 0 {
        m
    } else {
        let prev = insert_aliases(m, receiver, pairs.drop_last());
        let alias = receiver + seq!['.'] + pairs.last().0;
        if prev.contains_key(alias) {
            prev
        } else {
            prev.insert(alias, pairs.last().1)
        }
    }
}

/// The names a call is evaluated with.
pub open spec fn identify_scope(
    asg: Seq<(AssignmentKey, Assignment)>,
    call: CallStatement,
    globals: Option<(Map<Seq<char>, Seq<char>>, Seq<Seq<char>>)>,
    cs: Seq<ParsedCallable>,
) -> Map<Seq<char>, Seq<char>> {
    let base = call_bindings(
        asg,
        call,
        match globals {
            Some((g, _)) => Some(g),
            None => None,
        },
    );
    let with_receiver = match (globals, enclosing_receiver(call)) {
        (Some((g, keys)), Some((r, c))) => receiver_aliases(base, keys, g, r, c),
        _ => base,
    };
    match enclosing_receiver(call) {
        Some((r, c)) => insert_aliases(with_receiver, r, constructor_aliases_from(cs, 0, c, with_receiver)),
        None => with_receiver,
    }
}

pub open spec fn globals_view(g: Option<&Bindings>) -> Option<(Map<Seq<char>, Seq<char>>, Seq<Seq<char>>)> {
    match g {
        Some(b) => Some((b@, b.keys())),
        None => None,
    }
}

fn identify_scope_exec(
    file: &crate::model::TypedFileRecord,
    call: &CallStatement,
    package_globals: Option<&Bindings>,
    cs: &Vec<ParsedCallable>,
) -> (r: Bindings)
    ensures
        r@ == identify_scope(file.assignments@, *call, globals_view(package_globals), cs@),
{
    let mut scope = match package_globals {
        Some(g) => g.duplicate(),
        None => {
            let mut g = Bindings::new();
            bind_scope_exec(&mut g, &file.assignments, &Scope::Global);
            g
        },
    };
    let call_scope_value = match &call.enclosing_function_name {
        Some(n) => Scope::Function(n.clone()),
        None => Scope::Global,
    };
    bind_scope_exec(&mut scope, &file.assignments, &call_scope_value);
    match package_globals {
        Some(g) => add_receiver_field_aliases(call, g, &mut scope),
        None => {},
    }
    match enclosing_receiver_exec(call) {
        Some((receiver, class)) => {
            let aliases = constructor_aliases_exec(cs, &class, &scope);
            let ghost base = scope@;
            let mut i: usize = 0;
            while i < aliases.len()
                invariant
                    i <= aliases@.len(),
                    scope@ == insert_aliases(base, receiver@, pair_views(aliases@).take(i as int)),
                decreases aliases.len() - i,
            {
                assert(pair_views(aliases@).take(i + 1).drop_last() =~= pair_views(aliases@).take(
                    i as int,
                ));
                let mut alias = slice_chars(&receiver, 0, receiver.len());
                alias.push('.');
                crate::text::append_chars(&mut alias, &aliases[i].0);
                assert(alias@ =~= receiver@ + seq!['.'] + aliases@[i as int].0@);
                scope.insert_if_absent(string_of(&alias), string_of(&aliases[i].1));
                i = i + 1;
            }
            assert(pair_views(aliases@).take(aliases@.len() as int) =~= pair_views(aliases@));
        },
        None => {},
    }
    scope
}

/// `service` and `path` joined into a URL: `http://` is prefixed unless
/// the service is one already.
pub open spec fn exchange_uri(service: Seq<char>, path: Seq<char>) -> Seq<char> {
    if starts_with(service, "http://"@) || starts_with(service, "https://"@) {
        trim_end_str(service, seq!['/']) + path
    } else {
        "http://"@ + service + path
    }
}

/// The URI an `exchange` call targets: a service that names its scheme
/// (`http://` or `https://`) keeps it, with its trailing slashes dropped,
/// and the path follows; any other service is reached over `http://`.
/// A trailing slash of a service with a scheme does not change the URI.
pub proof fn lemma_exchange_uri_scheme(service: Seq<char>, path: Seq<char>)
    ensures
        starts_with(service, "https://"@) ==> exchange_uri(service, path) == trim_end_str(service, seq!['/']) + path,
        starts_with(service, "http://"@) ==> exchange_uri(service, path) == trim_end_str(service, seq!['/']) + path,
        !starts_with(service, "http://"@) && !starts_with(service, "https://"@) ==> exchange_uri(service, path)
            == "http://"@ + service + path,
        ends_with(exchange_uri(service, path), path),
        starts_with(service, "https://"@) ==> exchange_uri(service.push('/'), path) == exchange_uri(service, path),
        starts_with(service, "http://"@) ==> exchange_uri(service.push('/'), path) == exchange_uri(service, path),
{
    let r = exchange_uri(service, path);
    let pre = r.take(r.len() - path.len());
    if starts_with(service, "http://"@) || starts_with(service, "https://"@) {
        assert(r == trim_end_str(service, seq!['/']) + path);
        assert(r.subrange(r.len() - path.len(), r.len() as int) =~= path);
        let s2 = service.push('/');
        assert(s2.subrange(0, 7) =~= service.subrange(0, 7)) by {
            reveal_strlit("http://");
            reveal_strlit("https://");
        }
        if starts_with(service, "https://"@) {
            reveal_strlit("https://");
            assert(s2.subrange(0, 8) =~= service.subrange(0, 8));
            assert(starts_with(s2, "https://"@));
        } else {
            reveal_strlit("http://");
            assert(starts_with(s2, "http://"@));
        }
        assert(ends_with(s2, seq!['/'])) by {
            assert(s2.subrange(s2.len() - 1, s2.len() as int) =~= seq!['/']);
        }
        assert(s2.take(s2.len() - 1) =~= service);
        assert(trim_end_str(s2, seq!['/']) == trim_end_str(service, seq!['/']));
    } else {
        assert(r == "http://"@ + service + path);
        assert(r.subrange(r.len() - path.len(), r.len() as int) =~= path);
    }
}

pub open spec fn arg_value(call: CallStatement, i: int) -> Seq<char> {
    call.arguments@[i].value@
}

/// A route registration rather than a request: two arguments, the first
/// naming the path of an endpoint of the file with the same method.
pub open spec fn is_route_registration(
    endpoints: Seq<Endpoint>,
    call: CallStatement,
    method: HttpMethod,
    scope: Map<Seq<char>, Seq<char>>,
    cs: Seq<ParsedCallable>,
) -> bool {
    call.arguments@.len() == 2 && exists|k: int|
        0 <= k < endpoints.len() && #[trigger] endpoints[k].http_method == method
            && endpoints[k].uri@ == resolve_argument(arg_value(call, 0), scope, cs)
}

/// The request a call makes, as method and target URL, by the first
/// strategy that recognises it.
pub open spec fn restcall_target(
    imports: Seq<Import>,
    endpoints: Seq<Endpoint>,
    call: CallStatement,
    scope: Map<Seq<char>, Seq<char>>,
    cs: Seq<ParsedCallable>,
) -> Option<(HttpMethod, Seq<char>)> {
    let f = call.function_name@;
    let n = call.arguments@.len();
    let arg = |i: int| resolve_argument(arg_value(call, i), scope, cs);
    if ends_with(f, ".exchange"@) && n >= 4 {
        match parse_http_method_value(arg(2)) {
            Some(m) => Some((m, exchange_uri(arg(1), arg(3)))),
            None => None,
        }
    } else if is_net_http_call(f, "Get"@, imports) && n > 0 {
        Some((HttpMethod::GET, arg(0)))
    } else if is_net_http_call(f, "Post"@, imports) && n > 0 {
        Some((HttpMethod::POST, arg(0)))
    } else if ends_with(f, ".Get"@) && !starts_with(f, "http."@) && n > 0 && !is_route_registration(
        endpoints,
        call,
        HttpMethod::GET,
        scope,
        cs,
    ) && is_http_client_receiver(f, scope) {
        Some((HttpMethod::GET, arg(0)))
    } else if ends_with(f, ".Post"@) && !starts_with(f, "http."@) && n > 0 && !is_route_registration(
        endpoints,
        call,
        HttpMethod::POST,
        scope,
        cs,
    ) && is_http_client_receiver(f, scope) {
        Some((HttpMethod::POST, arg(0)))
    } else if is_net_http_call(f, "NewRequest"@, imports) || is_net_http_call(
        f,
        "NewRequestWithContext"@,
        imports,
    ) {
        let mi: int = if ends_with(f, ".NewRequestWithContext"@) {
            1
        } else {
            0
        };
        if n <= mi + 1 {
            None
        } else {
            match parse_http_method_value(arg(mi)) {
                Some(m) => Some((m, arg(mi + 1))),
                None => None,
            }
        }
    } else if ends_with(f, ".Do"@) && !starts_with(f, "http."@) && n > 0 && is_http_client_receiver(
        f,
        scope,
    ) {
        let rv = arg(0);
        if starts_with(rv, "http.NewRequest("@) || starts_with(rv, "http.NewRequestWithContext("@) {
            None
        } else {
            parse_request_call(rv, scope, imports)
        }
    } else {
        None
    }
}

fn is_route_registration_exec(
    endpoints: &Vec<Endpoint>,
    call: &CallStatement,
    method: HttpMethod,
    scope: &Bindings,
    cs: &Vec<ParsedCallable>,
) -> (r: bool)
    ensures
        r == is_route_registration(endpoints@, *call, method, scope@, cs@),
{
    if call.arguments.len() != 2 {
        return false;
    }
    let uri = text_of(&resolve_argument_value(&call.arguments[0], scope, cs));
    let mut k: usize = 0;
    while k < endpoints.len()
        invariant
            k <= endpoints@.len(),
            call.arguments@.len() == 2,
            uri@ == resolve_argument(arg_value(*call, 0), scope@, cs@),
            forall|j: int|
                0 <= j < k ==> !(#[trigger] endpoints@[j].http_method == method && endpoints@[j].uri@
                    == uri@),
        decreases endpoints.len() - k,
    {
        if endpoints[k].http_method == method && chars_eq(&text_of(&endpoints[k].uri), &uri) {
            return true;
        }
        k = k + 1;
    }
    false
}

fn arg_text(call: &CallStatement, i: usize, scope: &Bindings, cs: &Vec<ParsedCallable>) -> (r: Vec<
    char,
>)
    requires
        i < call.arguments@.len(),
    ensures
        r@ == resolve_argument(arg_value(*call, i as int), scope@, cs@),
{
    text_of(&resolve_argument_value(&call.arguments[i], scope, cs))
}

fn restcall_target_exec(
    imports: &Vec<Import>,
    endpoints: &Vec<Endpoint>,
    call: &CallStatement,
    scope: &Bindings,
    cs: &Vec<ParsedCallable>,
) -> (r: Option<(HttpMethod, Vec<char>)>)
    ensures
        r matches Some(p) ==> restcall_target(imports@, endpoints@, *call, scope@, cs@) == Some(
            (p.0, p.1@),
        ),
        r is None ==> restcall_target(imports@, endpoints@, *call, scope@, cs@) is None,
{
    let f = text_of(&call.function_name);
    let n = call.arguments.len();
    if ends_with_exec(&f, &chars_of(".exchange")) && n >= 4 {
        return match parse_http_method_value_exec(&arg_text(call, 2, scope, cs)) {
            Some(m) => {
                let service = arg_text(call, 1, scope, cs);
                let path = arg_text(call, 3, scope, cs);
                let uri = if starts_with_exec(&service, &chars_of("http://")) || starts_with_exec(
                    &service,
                    &chars_of("https://"),
                ) {
                    crate::text::concat(&trim_end_str_exec(&service, &one('/')), &path)
                } else {
                    let mut u = chars_of("http://");
                    let ghost u0 = u@;
                    crate::text::append_chars(&mut u, &service);
                    crate::text::append_chars(&mut u, &path);
                    assert(u@ =~= u0 + service@ + path@);
                    u
                };
                Some((m, uri))
            },
            None => None,
        };
    }
    if is_net_http_call_exec(&f, "Get", imports) && n > 0 {
        return Some((HttpMethod::GET, arg_text(call, 0, scope, cs)));
    }
    if is_net_http_call_exec(&f, "Post", imports) && n > 0 {
        return Some((HttpMethod::POST, arg_text(call, 0, scope, cs)));
    }
    if ends_with_exec(&f, &chars_of(".Get")) && !starts_with_exec(&f, &chars_of("http.")) && n > 0
        && !is_route_registration_exec(endpoints, call, HttpMethod::GET, scope, cs)
        && is_http_client_receiver_exec(&f, scope) {
        return Some((HttpMethod::GET, arg_text(call, 0, scope, cs)));
    }
    if ends_with_exec(&f, &chars_of(".Post")) && !starts_with_exec(&f, &chars_of("http.")) && n > 0
        && !is_route_registration_exec(endpoints, call, HttpMethod::POST, scope, cs)
        && is_http_client_receiver_exec(&f, scope) {
        return Some((HttpMethod::POST, arg_text(call, 0, scope, cs)));
    }
    if is_net_http_call_exec(&f, "NewRequest", imports) || is_net_http_call_exec(
        &f,
        "NewRequestWithContext",
        imports,
    ) {
        let mi: usize = if ends_with_exec(&f, &chars_of(".NewRequestWithContext")) {
            1
        } else {
            0
        };
        if n <= mi + 1 {
            return None;
        }
        return match parse_http_method_value_exec(&arg_text(call, mi, scope, cs)) {
            Some(m) => Some((m, arg_text(call, mi + 1, scope, cs))),
            None => None,
        };
    }
    if ends_with_exec(&f, &chars_of(".Do")) && !starts_with_exec(&f, &chars_of("http.")) && n > 0
        && is_http_client_receiver_exec(&f, scope) {
        let rv = arg_text(call, 0, scope, cs);
        if starts_with_exec(&rv, &chars_of("http.NewRequest(")) || starts_with_exec(
            &rv,
            &chars_of("http.NewRequestWithContext("),
        ) {
            return None;
        }
        return parse_request_call_exec(&rv, scope, imports);
    }
    None
}

/// The REST call record for a call with the request's method and URL: the
/// enclosing function (or the call itself) as caller, its hash, the call's
/// arguments and the file.
pub open spec fn is_restcall_of(
    r: crate::model::RestCall,
    call: CallStatement,
    file_path: Seq<char>,
    method: HttpMethod,
    uri: Seq<char>,
) -> bool {
    &&& r.function_name@ == match call.enclosing_function_name {
        Some(n) => n@,
        None => call.function_name@,
    }
    &&& r.function_hash@ == crate::model::opt_or_empty(call.enclosing_function_hash)
    &&& crate::model::same_arguments(r.call_arguments@, call.arguments@)
    &&& r.http_method == method
    &&& r.target_uri@ == uri
    &&& r.file_path@ == file_path
}

/// The outgoing REST call a Go call statement makes, if any: the call is
/// evaluated in its scope (package globals or the file's, the enclosing
/// function's assignments, receiver-field aliases) and the first strategy
/// that recognises it decides method and URL.
pub fn identify_restcall(
    file: &crate::model::TypedFileRecord,
    call: &CallStatement,
    package_globals: Option<&Bindings>,
    package_callables: &Vec<ParsedCallable>,
) -> (r: Option<crate::model::RestCall>)
    ensures
        ({
            let scope = identify_scope(
                file.assignments@,
                *call,
                globals_view(package_globals),
                package_callables@,
            );
            match restcall_target(file.imports@, file.endpoints@, *call, scope, package_callables@) {
                Some((m, uri)) => r matches Some(rc) && is_restcall_of(rc, *call, file.file_path@, m, uri),
                None => r is None,
            }
        }),
{
    let scope = identify_scope_exec(file, call, package_globals, package_callables);
    match restcall_target_exec(&file.imports, &file.endpoints, call, &scope, package_callables) {
        Some((m, uri)) => Some(
            crate::model::RestCall {
                function_name: match &call.enclosing_function_name {
                    Some(n) => n.clone(),
                    None => call.function_name.clone(),
                },
                function_hash: crate::model::opt_or_empty_exec(&call.enclosing_function_hash),
                call_arguments: crate::model::copy_arguments(&call.arguments),
                http_method: m,
                target_uri: string_of(&uri),
                file_path: file.file_path.clone(),
            },
        ),
        None => None,
    }
}

} // verus!
