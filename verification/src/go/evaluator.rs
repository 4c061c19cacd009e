//! Symbolic evaluation of calls to the package's own Go functions: a call
//! text such as `buildURL(host, "/items")` is evaluated by binding the
//! callee's parameters and running its lowered statements.
use vstd::prelude::*;

use crate::bindings::Bindings;
use crate::go::shared::{
    apply_sprintf, eval_text, evaluate_expression_text, seen_contains, sprintf, split_arguments,
    split_arguments_exec, token_char, EVALUATION_DEPTH,
};
use crate::model::{Expr, Parameter, ParsedCallable, Stmt};
use crate::text::{
    chars_eq, chars_of, one, slice_chars, split_once, split_once_exec, strip_suffix,
    strip_suffix_exec, text_of, trim, trim_exec, views,
};

verus! {

/// The name a variable or selector expression spells (`a`, `a.b.c`).
pub open spec fn expression_name(e: Expr) -> Option<Seq<char>>
    decreases e,
{
    match e {
        Expr::Var(name) => Some(name@),
        Expr::Attr { object, field } => match expression_name(*object) {
            Some(o) => Some(o + seq!['.'] + field@),
            None => None,
        },
        _ => None,
    }
}

pub fn expression_name_exec(e: &Expr) -> (r: Option<Vec<char>>)
    ensures
        r matches Some(v) ==> expression_name(*e) == Some(v@),
        r is None ==> expression_name(*e) is None,
    decreases e,
{
    match e {
        Expr::Var(name) => Some(text_of(name)),
        Expr::Attr { object, field } => match expression_name_exec(object) {
            Some(o) => {
                let ghost o0 = o@;
                let mut r = o;
                r.push('.');
                crate::text::append_chars(&mut r, &text_of(field));
                assert(r@ =~= o0 + seq!['.'] + field@);
                Some(r)
            },
            None => None,
        },
        _ => None,
    }
}

/// The callable has the name and takes that many parameters.
pub open spec fn callable_matches(c: ParsedCallable, name: Seq<char>, n: int) -> bool {
    c.metadata.name@ == name && c.metadata.parameters@.len() == n
}

/// The callable at `i` is the only one with the name and arity.
pub open spec fn only_match(cs: Seq<ParsedCallable>, name: Seq<char>, n: int, i: int) -> bool {
    &&& 0 <= i < cs.len()
    &&& callable_matches(cs[i], name, n)
    &&& forall|j: int| 0 <= j < cs.len() && #[trigger] callable_matches(cs[j], name, n) ==> j == i
}

/// The position of the only callable with the name and arity, when
/// exactly one has them.
pub open spec fn unique_callable(cs: Seq<ParsedCallable>, name: Seq<char>, n: int) -> Option<int> {
    if exists|i: int| #[trigger] only_match(cs, name, n, i) {
        Some(choose|i: int| #[trigger] only_match(cs, name, n, i))
    } else {
        None
    }
}

proof fn lemma_unique_callable_none(cs: Seq<ParsedCallable>, name: Seq<char>, n: int, a: int, b: int)
    requires
        0 <= a < cs.len(),
        0 <= b < cs.len(),
        a != b,
        callable_matches(cs[a], name, n),
        callable_matches(cs[b], name, n),
    ensures
        unique_callable(cs, name, n) is None,
{
    assert forall|k: int| !#[trigger] only_match(cs, name, n, k) by {
        if only_match(cs, name, n, k) {
            if k == a {
                assert(callable_matches(cs[b], name, n));
            } else {
                assert(callable_matches(cs[a], name, n));
            }
        }
    }
}

proof fn lemma_unique_callable_some(cs: Seq<ParsedCallable>, name: Seq<char>, n: int, f: int)
    requires
        0 <= f < cs.len(),
        callable_matches(cs[f], name, n),
        forall|j: int| 0 <= j < cs.len() && #[trigger] callable_matches(cs[j], name, n) ==> j == f,
    ensures
        unique_callable(cs, name, n) == Some(f),
{
    assert(only_match(cs, name, n, f));
    let c = choose|i: int| #[trigger] only_match(cs, name, n, i);
    assert(only_match(cs, name, n, c));
}

fn unique_callable_exec(cs: &Vec<ParsedCallable>, name: &[char], n: usize) -> (r: Option<usize>)
    ensures
        r matches Some(i) ==> unique_callable(cs@, name@, n as int) == Some(i as int) && i
            < cs@.len(),
        r is None ==> unique_callable(cs@, name@, n as int) is None,
{
    let mut found: usize = 0;
    let mut count: usize = 0;
    let mut i: usize = 0;
    while i < cs.len()
        invariant
            i <= cs@.len(),
            count <= 1,
            count == 0 ==> forall|j: int| 0 <= j < i ==> !#[trigger] callable_matches(cs@[j], name@, n as int),
            count == 1 ==> found < i && callable_matches(cs@[found as int], name@, n as int),
            count == 1 ==> forall|j: int|
                0 <= j < i && j != found ==> !#[trigger] callable_matches(cs@[j], name@, n as int),
        decreases cs.len() - i,
    {
        if chars_eq(&text_of(&cs[i].metadata.name), name) && cs[i].metadata.parameters.len() == n {
            assert(callable_matches(cs@[i as int], name@, n as int));
            if count == 1 {
                proof {
                    lemma_unique_callable_none(cs@, name@, n as int, found as int, i as int);
                }
                return None;
            }
            count = 1;
            found = i;
        }
        i = i + 1;
    }
    if count == 0 {
        return None;
    }
    proof {
        lemma_unique_callable_some(cs@, name@, n as int, found as int);
    }
    Some(found)
}

/// The scope with the first `k` parameters bound to the first `k`
/// arguments, in order.
pub open spec fn bind_parameters(
    env: Map<Seq<char>, Seq<char>>,
    params: Seq<Parameter>,
    args: Seq<Seq<char>>,
    k: int,
) -> Map<Seq<char>, Seq<char>>
    decreases k,
{
    if k <= 0 {
        env
    } else {
        bind_parameters(env, params, args, k - 1).insert(params[k - 1].name@, args[k - 1])
    }
}

/// The end of the call whose `(` stands at `i` on entry with no quote open
/// and depth zero: the position of the `)` that closes it.
pub open spec fn matching_paren_from(e: Seq<char>, i: int, quote: Option<char>, depth: nat) -> Option<
    int,
>
    decreases e.len() - i,
{
    if i < 0 || i >= e.len() {
        None
    } else {
        let c = e[i];
        if (c == '"' || c == '`') && quote is None {
            matching_paren_from(e, i + 1, Some(c), depth)
        } else if quote == Some(c) {
            matching_paren_from(e, i + 1, None, depth)
        } else if c == '(' && quote is None {
            matching_paren_from(e, i + 1, quote, depth + 1)
        } else if c == ')' && quote is None {
            if depth == 0 {
                None
            } else if depth == 1 {
                Some(i)
            } else {
                matching_paren_from(e, i + 1, quote, (depth - 1) as nat)
            }
        } else {
            matching_paren_from(e, i + 1, quote, depth)
        }
    }
}

/// The position of the parenthesis that closes the one at `open`, with
/// quoted text skipped.
pub open spec fn matching_parenthesis(e: Seq<char>, open: int) -> Option<int> {
    matching_paren_from(e, open, None, 0)
}

pub proof fn lemma_matching_paren_from(e: Seq<char>, i: int, quote: Option<char>, depth: nat)
    requires
        0 <= i,
    ensures
        matching_paren_from(e, i, quote, depth) matches Some(c) ==> i <= c < e.len(),
    decreases e.len() - i,
{
    if i < e.len() {
        let c = e[i];
        if (c == '"' || c == '`') && quote is None {
            lemma_matching_paren_from(e, i + 1, Some(c), depth);
        } else if quote == Some(c) {
            lemma_matching_paren_from(e, i + 1, None, depth);
        } else if c == '(' && quote is None {
            lemma_matching_paren_from(e, i + 1, quote, depth + 1);
        } else if c == ')' && quote is None {
            if depth > 1 {
                lemma_matching_paren_from(e, i + 1, quote, (depth - 1) as nat);
            }
        } else {
            lemma_matching_paren_from(e, i + 1, quote, depth);
        }
    }
}

pub fn matching_parenthesis_exec(e: &[char], open: usize) -> (r: Option<usize>)
    ensures
        r matches Some(c) ==> matching_parenthesis(e@, open as int) == Some(c as int),
        r is None ==> matching_parenthesis(e@, open as int) is None,
{
    let n = e.len();
    let mut quote: Option<char> = None;
    let mut depth: usize = 0;
    let mut i: usize = open;
    while i < n
        invariant
            n == e@.len(),
            open <= i,
            depth <= i - open,
            matching_parenthesis(e@, open as int) == matching_paren_from(
                e@,
                i as int,
                quote,
                depth as nat,
            ),
        decreases n - i,
    {
        let c = e[i];
        if (c == '"' || c == '`') && quote.is_none() {
            quote = Some(c);
        } else if quote == Some(c) {
            quote = None;
        } else if c == '(' && quote.is_none() {
            depth = depth + 1;
        } else if c == ')' && quote.is_none() {
            if depth == 0 {
                return None;
            }
            if depth == 1 {
                return Some(i);
            }
            depth = depth - 1;
        }
        i = i + 1;
    }
    None
}

/// The position after the last character before `p` that cannot be part
/// of a callable's name (0 when there is none).
pub open spec fn name_start(e: Seq<char>, p: int) -> int
    decreases p,
{
    if p <= 0 {
        0
    } else if !token_char(e[p - 1]) {
        p
    } else {
        name_start(e, p - 1)
    }
}

pub proof fn lemma_name_start(e: Seq<char>, p: int)
    requires
        0 <= p,
    ensures
        0 <= name_start(e, p) <= p,
    decreases p,
{
    if p > 0 && token_char(e[p - 1]) {
        lemma_name_start(e, p - 1);
    }
}

/// The number of expression nodes the evaluator may visit in `e`.
pub open spec fn expr_size(e: Expr) -> nat
    decreases e,
{
    match e {
        Expr::Concat(l, r) => 1 + expr_size(*l) + expr_size(*r),
        Expr::Attr { object, .. } => 1 + expr_size(*object),
        Expr::Call { receiver, args, .. } => 2 + match receiver {
            Some(rb) => expr_size(*rb),
            None => 0,
        } + exprs_size(args@),
        Expr::Joined { vals } => 2 + exprs_size(vals@),
        _ => 1,
    }
}

pub open spec fn exprs_size(es: Seq<Expr>) -> nat
    decreases es,
{
    if es.len() == 0 {
        0
    } else {
        exprs_size(es.subrange(0, es.len() - 1)) + expr_size(es[es.len() - 1])
    }
}

pub proof fn lemma_exprs_size_elem(es: Seq<Expr>, j: int)
    requires
        0 <= j < es.len(),
    ensures
        expr_size(es[j]) <= exprs_size(es),
    decreases es.len(),
{
    if j < es.len() - 1 {
        let d = es.subrange(0, es.len() - 1);
        assert(d[j] == es[j]);
        lemma_exprs_size_elem(d, j);
    }
}

pub proof fn lemma_exprs_size_suffix(es: Seq<Expr>, lo: int)
    requires
        0 <= lo <= es.len(),
    ensures
        exprs_size(es.subrange(lo, es.len() as int)) <= exprs_size(es),
    decreases es.len(),
{
    if lo < es.len() {
        let d = es.subrange(0, es.len() - 1);
        let t = es.subrange(lo, es.len() as int);
        assert(t.subrange(0, t.len() - 1) =~= d.subrange(lo, d.len() as int));
        assert(t[t.len() - 1] == es[es.len() - 1]);
        lemma_exprs_size_suffix(d, lo);
    } else {
        assert(es.subrange(lo, es.len() as int).len() == 0);
    }
}

/// The bound on nested call evaluations: deeper calls are not evaluated.
pub const CALL_DEPTH: usize = 32;

pub open spec fn opt_chars(o: Option<Vec<char>>) -> Option<Seq<char>> {
    match o {
        Some(v) => Some(v@),
        None => None,
    }
}

pub open spec fn opt_texts(o: Option<Vec<Vec<char>>>) -> Option<Seq<Seq<char>>> {
    match o {
        Some(v) => Some(views(v@)),
        None => None,
    }
}

/// The value of a call text `name(args...)` to one of the package's
/// callables: its arguments resolved in `scope`, the callee's parameters
/// bound to them and its statements run.  Nothing when the text is no call,
/// no single callable has that name and arity, the callee is being
/// evaluated already (`visiting` holds the hashes of those), or `fuel` is
/// spent.
pub open spec fn call_text(
    e: Seq<char>,
    cs: Seq<ParsedCallable>,
    scope: Map<Seq<char>, Seq<char>>,
    visiting: Seq<Seq<char>>,
    fuel: nat,
) -> Option<Seq<char>>
    decreases fuel, 0nat, 0nat,
{
    if fuel == 0 {
        None
    } else {
        match split_once(trim(e), '(') {
            None => None,
            Some((name, rest)) => match strip_suffix(rest, seq![')']) {
                None => None,
                Some(argtext) => evaluate_callable(
                    trim(name),
                    resolve_list(
                        split_arguments(argtext, true),
                        cs,
                        scope,
                        visiting,
                        (fuel - 1) as nat,
                    ),
                    cs,
                    scope,
                    visiting,
                    (fuel - 1) as nat,
                ),
            },
        }
    }
}

/// A text evaluated in `scope`, and then as a call when it is one.
pub open spec fn resolve_text(
    v: Seq<char>,
    cs: Seq<ParsedCallable>,
    scope: Map<Seq<char>, Seq<char>>,
    visiting: Seq<Seq<char>>,
    fuel: nat,
) -> Seq<char>
    decreases fuel, 1nat, 0nat,
{
    let r = eval_text(v, scope, Seq::empty(), EVALUATION_DEPTH as nat);
    match call_text(r, cs, scope, visiting, fuel) {
        Some(x) => x,
        None => r,
    }
}

pub open spec fn resolve_list(
    ps: Seq<Seq<char>>,
    cs: Seq<ParsedCallable>,
    scope: Map<Seq<char>, Seq<char>>,
    visiting: Seq<Seq<char>>,
    fuel: nat,
) -> Seq<Seq<char>>
    decreases fuel, 2nat, ps.len(),
{
    if ps.len() == 0 {
        Seq::empty()
    } else {
        resolve_list(ps.drop_last(), cs, scope, visiting, fuel).push(
            resolve_text(ps.last(), cs, scope, visiting, fuel),
        )
    }
}

/// The value the only callable with this name and arity returns for the
/// arguments.
pub open spec fn evaluate_callable(
    name: Seq<char>,
    args: Seq<Seq<char>>,
    cs: Seq<ParsedCallable>,
    scope: Map<Seq<char>, Seq<char>>,
    visiting: Seq<Seq<char>>,
    fuel: nat,
) -> Option<Seq<char>>
    decreases fuel, 0nat, 0nat,
{
    if fuel == 0 {
        None
    } else {
        match unique_callable(cs, name, args.len() as int) {
            None => None,
            Some(i) => {
                let c = cs[i];
                let h = c.metadata.hash@;
                if visiting.contains(h) {
                    None
                } else {
                    eval_statements(
                        c.statements@,
                        0,
                        cs,
                        bind_parameters(scope, c.metadata.parameters@, args, args.len() as int),
                        visiting.push(h),
                        (fuel - 1) as nat,
                    )
                }
            },
        }
    }
}

/// Runs statements from `i` on: declarations and assignments bind the
/// values that evaluate, the first `return` gives the result.
pub open spec fn eval_statements(
    stmts: Seq<Stmt>,
    i: int,
    cs: Seq<ParsedCallable>,
    env: Map<Seq<char>, Seq<char>>,
    visiting: Seq<Seq<char>>,
    fuel: nat,
) -> Option<Seq<char>>
    decreases fuel, 4nat, stmts.len() - i,
{
    if i < 0 || i >= stmts.len() {
        None
    } else {
        match stmts[i] {
            Stmt::Declaration { name, value, .. } => match eval_expr(value, cs, env, visiting, fuel) {
                Some(v) => eval_statements(stmts, i + 1, cs, env.insert(name@, v), visiting, fuel),
                None => eval_statements(stmts, i + 1, cs, env, visiting, fuel),
            },
            Stmt::Assignment { name, value } => match eval_expr(value, cs, env, visiting, fuel) {
                Some(v) => eval_statements(stmts, i + 1, cs, env.insert(name@, v), visiting, fuel),
                None => eval_statements(stmts, i + 1, cs, env, visiting, fuel),
            },
            Stmt::Return(value) => eval_expr(value, cs, env, visiting, fuel),
            Stmt::Other => eval_statements(stmts, i + 1, cs, env, visiting, fuel),
        }
    }
}

/// The text value of a lowered expression, when it has one.
pub open spec fn eval_expr(
    e: Expr,
    cs: Seq<ParsedCallable>,
    env: Map<Seq<char>, Seq<char>>,
    visiting: Seq<Seq<char>>,
    fuel: nat,
) -> Option<Seq<char>>
    decreases fuel, 3nat, expr_size(e),
{
    match e {
        Expr::Literal(v) => Some(v@),
        Expr::Var(name) => Some(resolve_text(name@, cs, env, visiting, fuel)),
        Expr::Concat(l, r) => match (eval_expr(*l, cs, env, visiting, fuel), eval_expr(*r, cs, env, visiting, fuel)) {
            (Some(a), Some(b)) => Some(a + b),
            _ => None,
        },
        Expr::StructLiteral { .. } => None,
        Expr::Attr { object, field } => match expression_name(*object) {
            Some(o) => Some(resolve_text(o + seq!['.'] + field@, cs, env, visiting, fuel)),
            None => None,
        },
        Expr::Call { name, receiver, args } => {
            proof {
                if args@.len() > 0 {
                    lemma_exprs_size_elem(args@, 0);
                    lemma_exprs_size_suffix(args@, 1);
                }
            }
            if name@ == "index"@ {
                match receiver {
                    None => None,
                    Some(rb) => match expression_name(*rb) {
                        None => None,
                        Some(coll) => if args@.len() == 0 {
                            None
                        } else {
                            match eval_expr(args@[0], cs, env, visiting, fuel) {
                                None => None,
                                Some(key) => {
                                    let k = coll + seq!['['] + key + seq![']'];
                                    if env.contains_key(k) {
                                        Some(env[k])
                                    } else {
                                        None
                                    }
                                },
                            }
                        },
                    },
                }
            } else if name@ == "Sprintf"@ {
                match receiver {
                    None => None,
                    Some(rb) => match expression_name(*rb) {
                        None => None,
                        Some(rn) => if rn == "fmt"@ {
                            if args@.len() == 0 {
                                None
                            } else {
                                match (
                                    eval_expr(args@[0], cs, env, visiting, fuel),
                                    eval_all(args@.subrange(1, args@.len() as int), cs, env, visiting, fuel),
                                ) {
                                    (Some(f), Some(vals)) => Some(sprintf(f, vals)),
                                    _ => None,
                                }
                            }
                        } else {
                            eval_expr(*rb, cs, env, visiting, fuel)
                        },
                    },
                }
            } else {
                match receiver {
                    None => match eval_all(args@, cs, env, visiting, fuel) {
                        Some(vals) => evaluate_callable(name@, vals, cs, env, visiting, fuel),
                        None => None,
                    },
                    Some(rb) => eval_expr(*rb, cs, env, visiting, fuel),
                }
            }
        },
        Expr::Joined { vals } => if vals@.len() == 1 {
            proof {
                lemma_exprs_size_elem(vals@, 0);
            }
            eval_expr(vals@[0], cs, env, visiting, fuel)
        } else {
            None
        },
        Expr::Empty => None,
    }
}

/// The values of all expressions, when each has one.
pub open spec fn eval_all(
    es: Seq<Expr>,
    cs: Seq<ParsedCallable>,
    env: Map<Seq<char>, Seq<char>>,
    visiting: Seq<Seq<char>>,
    fuel: nat,
) -> Option<Seq<Seq<char>>>
    decreases fuel, 3nat, exprs_size(es) + 1,
{
    if es.len() == 0 {
        Some(Seq::empty())
    } else {
        proof {
            assert(exprs_size(es) == exprs_size(es.subrange(0, es.len() - 1)) + expr_size(
                es[es.len() - 1],
            ));
            assert(expr_size(es[es.len() - 1]) >= 1);
        }
        match (
            eval_all(es.subrange(0, es.len() - 1), cs, env, visiting, fuel),
            eval_expr(es[es.len() - 1], cs, env, visiting, fuel),
        ) {
            (Some(vs), Some(v)) => Some(vs.push(v)),
            _ => None,
        }
    }
}

pub proof fn lemma_eval_all_some(
    es: Seq<Expr>,
    cs: Seq<ParsedCallable>,
    env: Map<Seq<char>, Seq<char>>,
    visiting: Seq<Seq<char>>,
    fuel: nat,
    j: int,
)
    requires
        0 <= j < es.len(),
        eval_all(es, cs, env, visiting, fuel) is Some,
    ensures
        eval_expr(es[j], cs, env, visiting, fuel) is Some,
    decreases es.len(),
{
    let d = es.subrange(0, es.len() - 1);
    if j < es.len() - 1 {
        assert(d[j] == es[j]);
        lemma_eval_all_some(d, cs, env, visiting, fuel, j);
    }
}

fn push_copy(visiting: &mut Vec<Vec<char>>, h: &[char])
    ensures
        views(final(visiting)@) == views(old(visiting)@).push(h@),
        final(visiting)@.len() == old(visiting)@.len() + 1,
        final(visiting)@.drop_last() == old(visiting)@,
{
    let ghost v0 = visiting@;
    let c = slice_chars(h, 0, h.len());
    visiting.push(c);
    assert(visiting@.drop_last() =~= v0);
    assert(views(visiting@) =~= views(v0).push(h@)) by {
        assert forall|j: int| 0 <= j < visiting@.len() implies views(visiting@)[j] == views(v0).push(h@)[j] by {
            if j < v0.len() {
                assert(visiting@[j] == v0[j]);
            }
        }
    }
}

fn call_text_exec(
    e: &[char],
    cs: &Vec<ParsedCallable>,
    scope: &Bindings,
    visiting: &mut Vec<Vec<char>>,
    fuel: usize,
) -> (r: Option<Vec<char>>)
    ensures
        opt_chars(r) == call_text(e@, cs@, scope@, views(old(visiting)@), fuel as nat),
        final(visiting)@ == old(visiting)@,
    decreases fuel, 0nat, 0nat,
{
    if fuel == 0 {
        return None;
    }
    let t = trim_exec(e);
    let (name, rest) = match split_once_exec(&t, '(') {
        Some(p) => p,
        None => return None,
    };
    let argtext = match strip_suffix_exec(&rest, &one(')')) {
        Some(a) => a,
        None => return None,
    };
    let parts = split_arguments_exec(&argtext, true);
    let args = resolve_list_exec(&parts, cs, scope, visiting, fuel - 1);
    evaluate_callable_exec(&trim_exec(&name), &args, cs, scope, visiting, fuel - 1)
}

fn resolve_text_exec(
    v: &[char],
    cs: &Vec<ParsedCallable>,
    scope: &Bindings,
    visiting: &mut Vec<Vec<char>>,
    fuel: usize,
) -> (r: Vec<char>)
    ensures
        r@ == resolve_text(v@, cs@, scope@, views(old(visiting)@), fuel as nat),
        final(visiting)@ == old(visiting)@,
    decreases fuel, 1nat, 0nat,
{
    let text = crate::text::string_of(v);
    let value = evaluate_expression_text(text.as_str(), scope);
    let rc = chars_of(value.as_str());
    match call_text_exec(&rc, cs, scope, visiting, fuel) {
        Some(x) => x,
        None => rc,
    }
}

fn resolve_list_exec(
    ps: &Vec<Vec<char>>,
    cs: &Vec<ParsedCallable>,
    scope: &Bindings,
    visiting: &mut Vec<Vec<char>>,
    fuel: usize,
) -> (r: Vec<Vec<char>>)
    ensures
        views(r@) == resolve_list(views(ps@), cs@, scope@, views(old(visiting)@), fuel as nat),
        final(visiting)@ == old(visiting)@,
    decreases fuel, 2nat, ps@.len(),
{
    let ghost v0 = visiting@;
    let ghost p = views(ps@);
    let mut out: Vec<Vec<char>> = Vec::new();
    let mut i: usize = 0;
    while i < ps.len()
        invariant
            i <= ps@.len(),
            p == views(ps@),
            visiting@ == v0,
            views(out@) == resolve_list(p.take(i as int), cs@, scope@, views(v0), fuel as nat),
        decreases ps.len() - i,
    {
        let x = resolve_text_exec(&ps[i], cs, scope, visiting, fuel);
        out.push(x);
        assert(p.take(i + 1).drop_last() =~= p.take(i as int));
        assert(views(out@) =~= resolve_list(p.take(i as int), cs@, scope@, views(v0), fuel as nat).push(
            x@,
        ));
        i = i + 1;
    }
    assert(p.take(ps@.len() as int) =~= p);
    out
}

fn evaluate_callable_exec(
    name: &[char],
    args: &Vec<Vec<char>>,
    cs: &Vec<ParsedCallable>,
    scope: &Bindings,
    visiting: &mut Vec<Vec<char>>,
    fuel: usize,
) -> (r: Option<Vec<char>>)
    ensures
        opt_chars(r) == evaluate_callable(
            name@,
            views(args@),
            cs@,
            scope@,
            views(old(visiting)@),
            fuel as nat,
        ),
        final(visiting)@ == old(visiting)@,
    decreases fuel, 0nat, 0nat,
{
    if fuel == 0 {
        return None;
    }
    let i = match unique_callable_exec(cs, name, args.len()) {
        Some(i) => i,
        None => return None,
    };
    let c = &cs[i];
    let h = text_of(&c.metadata.hash);
    if seen_contains(visiting, &h) {
        return None;
    }
    let ghost a = views(args@);
    let ghost params = c.metadata.parameters@;
    let mut env = scope.duplicate();
    let mut k: usize = 0;
    while k < args.len()
        invariant
            k <= args@.len(),
            a == views(args@),
            params == c.metadata.parameters@,
            params.len() == args@.len(),
            env@ == bind_parameters(scope@, params, a, k as int),
        decreases args.len() - k,
    {
        env.insert(c.metadata.parameters[k].name.clone(), crate::text::string_of(&args[k]));
        k = k + 1;
    }
    let ghost v0 = visiting@;
    push_copy(visiting, &h);
    let r = eval_statements_exec(&c.statements, cs, &env, visiting, fuel - 1);
    let _ = visiting.pop();
    assert(visiting@ =~= v0);
    r
}

fn eval_statements_exec(
    stmts: &Vec<Stmt>,
    cs: &Vec<ParsedCallable>,
    env: &Bindings,
    visiting: &mut Vec<Vec<char>>,
    fuel: usize,
) -> (r: Option<Vec<char>>)
    ensures
        opt_chars(r) == eval_statements(stmts@, 0, cs@, env@, views(old(visiting)@), fuel as nat),
        final(visiting)@ == old(visiting)@,
    decreases fuel, 4nat, 0nat,
{
    let ghost v0 = visiting@;
    let ghost env0 = env@;
    let mut cur = env.duplicate();
    let mut i: usize = 0;
    while i < stmts.len()
        invariant
            i <= stmts@.len(),
            visiting@ == v0,
            v0 == old(visiting)@,
            env0 == env@,
            eval_statements(stmts@, 0, cs@, env0, views(v0), fuel as nat) == eval_statements(
                stmts@,
                i as int,
                cs@,
                cur@,
                views(v0),
                fuel as nat,
            ),
        decreases stmts.len() - i,
    {
        match &stmts[i] {
            Stmt::Declaration { name, value, .. } => {
                match eval_expr_exec(value, cs, &cur, visiting, fuel) {
                    Some(v) => {
                        cur.insert(name.clone(), crate::text::string_of(&v));
                    },
                    None => {},
                }
            },
            Stmt::Assignment { name, value } => {
                match eval_expr_exec(value, cs, &cur, visiting, fuel) {
                    Some(v) => {
                        cur.insert(name.clone(), crate::text::string_of(&v));
                    },
                    None => {},
                }
            },
            Stmt::Return(value) => {
                return eval_expr_exec(value, cs, &cur, visiting, fuel);
            },
            Stmt::Other => {},
        }
        i = i + 1;
    }
    None
}

fn eval_expr_exec(
    e: &Expr,
    cs: &Vec<ParsedCallable>,
    env: &Bindings,
    visiting: &mut Vec<Vec<char>>,
    fuel: usize,
) -> (r: Option<Vec<char>>)
    ensures
        opt_chars(r) == eval_expr(*e, cs@, env@, views(old(visiting)@), fuel as nat),
        final(visiting)@ == old(visiting)@,
    decreases fuel, 3nat, expr_size(*e),
{
    match e {
        Expr::Literal(v) => Some(text_of(v)),
        Expr::Var(name) => Some(resolve_text_exec(&text_of(name), cs, env, visiting, fuel)),
        Expr::Concat(l, r) => {
            let a = eval_expr_exec(l, cs, env, visiting, fuel);
            let b = eval_expr_exec(r, cs, env, visiting, fuel);
            match (a, b) {
                (Some(a), Some(b)) => {
                    let ghost a0 = a@;
                    let mut x = a;
                    crate::text::append_chars(&mut x, &b);
                    assert(x@ =~= a0 + b@);
                    Some(x)
                },
                _ => None,
            }
        },
        Expr::StructLiteral { .. } => None,
        Expr::Attr { object, field } => match expression_name_exec(object) {
            Some(o) => {
                let ghost o0 = o@;
                let mut key = o;
                key.push('.');
                crate::text::append_chars(&mut key, &text_of(field));
                assert(key@ =~= o0 + seq!['.'] + field@);
                Some(resolve_text_exec(&key, cs, env, visiting, fuel))
            },
            None => None,
        },
        Expr::Call { name, receiver, args } => {
            proof {
                if args@.len() > 0 {
                    lemma_exprs_size_elem(args@, 0);
                    lemma_exprs_size_suffix(args@, 1);
                }
            }
            let n = text_of(name);
            if chars_eq(&n, &chars_of("index")) {
                match receiver {
                    None => None,
                    Some(rb) => match expression_name_exec(rb) {
                        None => None,
                        Some(coll) => {
                            if args.len() == 0 {
                                return None;
                            }
                            match eval_expr_exec(&args[0], cs, env, visiting, fuel) {
                                None => None,
                                Some(key) => {
                                    let ghost c0 = coll@;
                                    let mut k = coll;
                                    k.push('[');
                                    crate::text::append_chars(&mut k, &key);
                                    k.push(']');
                                    assert(k@ =~= c0 + seq!['['] + key@ + seq![']']);
                                    match env.get(&k) {
                                        Some(v) => Some(text_of(&v)),
                                        None => None,
                                    }
                                },
                            }
                        },
                    },
                }
            } else if chars_eq(&n, &chars_of("Sprintf")) {
                match receiver {
                    None => None,
                    Some(rb) => match expression_name_exec(rb) {
                        None => None,
                        Some(rn) => {
                            if chars_eq(&rn, &chars_of("fmt")) {
                                if args.len() == 0 {
                                    return None;
                                }
                                let f = eval_expr_exec(&args[0], cs, env, visiting, fuel);
                                let vals = eval_all_exec(args, 1, cs, env, visiting, fuel);
                                match (f, vals) {
                                    (Some(f), Some(vals)) => Some(apply_sprintf(&f, &vals)),
                                    _ => None,
                                }
                            } else {
                                eval_expr_exec(rb, cs, env, visiting, fuel)
                            }
                        },
                    },
                }
            } else {
                match receiver {
                    None => {
                        assert(args@.subrange(0, args@.len() as int) =~= args@);
                        match eval_all_exec(args, 0, cs, env, visiting, fuel) {
                            Some(vals) => evaluate_callable_exec(&n, &vals, cs, env, visiting, fuel),
                            None => None,
                        }
                    },
                    Some(rb) => eval_expr_exec(rb, cs, env, visiting, fuel),
                }
            }
        },
        Expr::Joined { vals } => {
            if vals.len() == 1 {
                proof {
                    lemma_exprs_size_elem(vals@, 0);
                }
                eval_expr_exec(&vals[0], cs, env, visiting, fuel)
            } else {
                None
            }
        },
        Expr::Empty => None,
    }
}

fn eval_all_exec(
    es: &Vec<Expr>,
    lo: usize,
    cs: &Vec<ParsedCallable>,
    env: &Bindings,
    visiting: &mut Vec<Vec<char>>,
    fuel: usize,
) -> (r: Option<Vec<Vec<char>>>)
    requires
        lo <= es@.len(),
    ensures
        opt_texts(r) == eval_all(
            es@.subrange(lo as int, es@.len() as int),
            cs@,
            env@,
            views(old(visiting)@),
            fuel as nat,
        ),
        final(visiting)@ == old(visiting)@,
    decreases fuel, 3nat, exprs_size(es@.subrange(lo as int, es@.len() as int)) + 1,
{
    let ghost v0 = visiting@;
    let ghost full = es@.subrange(lo as int, es@.len() as int);
    let mut out: Vec<Vec<char>> = Vec::new();
    let mut i: usize = lo;
    while i < es.len()
        invariant
            lo <= i <= es@.len(),
            visiting@ == v0,
            v0 == old(visiting)@,
            full == es@.subrange(lo as int, es@.len() as int),
            eval_all(es@.subrange(lo as int, i as int), cs@, env@, views(v0), fuel as nat) == Some(
                views(out@),
            ),
        decreases es.len() - i,
    {
        proof {
            assert(full[i - lo] == es@[i as int]);
            lemma_exprs_size_elem(full, i - lo);
        }
        let x = eval_expr_exec(&es[i], cs, env, visiting, fuel);
        let ghost next = es@.subrange(lo as int, i + 1);
        assert(next.subrange(0, next.len() - 1) =~= es@.subrange(lo as int, i as int));
        assert(next[next.len() - 1] == es@[i as int]);
        match x {
            Some(v) => {
                out.push(v);
                assert(views(out@) =~= views(out@).drop_last().push(v@));
            },
            None => {
                proof {
                    if eval_all(full, cs@, env@, views(v0), fuel as nat) is Some {
                        lemma_eval_all_some(full, cs@, env@, views(v0), fuel as nat, i - lo);
                    }
                }
                return None;
            },
        }
        i = i + 1;
    }
    Some(out)
}

/// The first call embedded in the text from position `p` on that
/// evaluates, replaced by its value.
pub open spec fn embedded_call_from(
    e: Seq<char>,
    p: int,
    cs: Seq<ParsedCallable>,
    scope: Map<Seq<char>, Seq<char>>,
    fuel: nat,
) -> Option<Seq<char>>
    decreases e.len() - p,
{
    if p < 0 || p >= e.len() {
        None
    } else if e[p] == '(' && name_start(e, p) != p {
        match matching_parenthesis(e, p) {
            Some(close) => match call_text(
                e.subrange(name_start(e, p), close + 1),
                cs,
                scope,
                Seq::empty(),
                fuel,
            ) {
                Some(v) => Some(e.take(name_start(e, p)) + v + e.skip(close + 1)),
                None => embedded_call_from(e, p + 1, cs, scope, fuel),
            },
            None => embedded_call_from(e, p + 1, cs, scope, fuel),
        }
    } else {
        embedded_call_from(e, p + 1, cs, scope, fuel)
    }
}

/// What `evaluate_call_text` gives: the value of the text as a call, or
/// else the text with its first evaluable embedded call replaced.
pub open spec fn call_text_value(
    e: Seq<char>,
    cs: Seq<ParsedCallable>,
    scope: Map<Seq<char>, Seq<char>>,
) -> Option<Seq<char>> {
    match call_text(e, cs, scope, Seq::empty(), CALL_DEPTH as nat) {
        Some(v) => Some(v),
        None => embedded_call_from(e, 0, cs, scope, CALL_DEPTH as nat),
    }
}

fn name_start_exec(e: &[char], p: usize) -> (r: usize)
    requires
        p <= e@.len(),
    ensures
        r == name_start(e@, p as int),
{
    let mut k: usize = p;
    while k > 0 && crate::go::shared::is_token_char(e[k - 1])
        invariant
            k <= p <= e@.len(),
            name_start(e@, p as int) == name_start(e@, k as int),
        decreases k,
    {
        k = k - 1;
    }
    k
}

/// The value of a call to one of the package's callables written as text,
/// or of the first such call inside the text (`call_text_value`).
pub fn evaluate_call_text(expression: &str, callables: &Vec<ParsedCallable>, scope: &Bindings) -> (r:
    Option<String>)
    ensures
        r matches Some(v) ==> call_text_value(expression@, callables@, scope@) == Some(v@),
        r is None ==> call_text_value(expression@, callables@, scope@) is None,
{
    let e = chars_of(expression);
    let mut visiting: Vec<Vec<char>> = Vec::new();
    assert(views(visiting@) =~= Seq::<Seq<char>>::empty());
    match call_text_exec(&e, callables, scope, &mut visiting, CALL_DEPTH) {
        Some(v) => return Some(crate::text::string_of(&v)),
        None => {},
    }
    let n = e.len();
    let mut p: usize = 0;
    while p < n
        invariant
            n == e@.len(),
            p <= n,
            e@ == expression@,
            visiting@.len() == 0,
            call_text(e@, callables@, scope@, Seq::empty(), CALL_DEPTH as nat) is None,
            embedded_call_from(e@, 0, callables@, scope@, CALL_DEPTH as nat) == embedded_call_from(
                e@,
                p as int,
                callables@,
                scope@,
                CALL_DEPTH as nat,
            ),
        decreases n - p,
    {
        if e[p] == '(' {
            let ns = name_start_exec(&e, p);
            if ns != p {
                match matching_parenthesis_exec(&e, p) {
                    Some(close) => {
                        proof {
                            lemma_matching_paren_from(e@, p as int, None, 0);
                            lemma_name_start(e@, p as int);
                        }
                        let candidate = slice_chars(&e, ns, close + 1);
                        assert(views(visiting@) =~= Seq::<Seq<char>>::empty());
                        match call_text_exec(&candidate, callables, scope, &mut visiting, CALL_DEPTH) {
                            Some(v) => {
                                assert(embedded_call_from(e@, p as int, callables@, scope@, CALL_DEPTH as nat)
                                    == Some(e@.take(ns as int) + v@ + e@.skip(close + 1)));
                                let mut out = slice_chars(&e, 0, ns);
                                crate::text::append_chars(&mut out, &v);
                                crate::text::append_chars(&mut out, &slice_chars(&e, close + 1, n));
                                assert(out@ =~= e@.take(ns as int) + v@ + e@.skip(close + 1));
                                return Some(crate::text::string_of(&out));
                            },
                            None => {},
                        }
                    },
                    None => {},
                }
            }
        }
        p = p + 1;
    }
    None
}

} // verus!
