//! Go syntax trees as the extractors read them, and the evaluation of an
//! expression node to the text it stands for.
use vstd::prelude::*;

use crate::bindings::Bindings;
use crate::go::shared::{
    apply_sprintf, eval_text, evaluate_expression_text, resolve_scope, resolve_scope_value, sprintf,
    EVALUATION_DEPTH,
};
use crate::text::{
    chars_eq, chars_of, contains_char, contains_char_exec, normalize_whitespace, normalize_whitespace_exec, one,
    slice_chars, string_of, strip_quotes, strip_quotes_exec, text_of, trim, trim_end_str, trim_end_str_exec,
    trim_exec, views,
};

verus! {

/// A named node of a Go syntax tree: its kind, its source text, the field
/// of its parent it stands in (when it stands in one), and its named
/// children in order.
pub struct GoNode {
    pub kind: String,
    pub text: String,
    pub field_name: Option<String>,
    pub named: Vec<GoNode>,
}

/// The number of nodes of a tree.
pub open spec fn node_size(n: GoNode) -> nat
    decreases n,
{
    1 + nodes_size_upto(n, n.named@.len() as int)
}

pub open spec fn nodes_size_upto(n: GoNode, k: int) -> nat
    decreases n, k,
{
    if k <= 0 || k > n.named@.len() {
        0
    } else {
        nodes_size_upto(n, k - 1) + node_size(n.named@[k - 1])
    }
}

proof fn lemma_nodes_size_upto(n: GoNode, k: int, j: int)
    requires
        0 <= j < k <= n.named@.len(),
    ensures
        node_size(n.named@[j]) <= nodes_size_upto(n, k),
    decreases k,
{
    if j < k - 1 {
        lemma_nodes_size_upto(n, k - 1, j);
    }
}

/// A child is smaller than its parent.
pub proof fn lemma_child_size(n: GoNode, j: int)
    requires
        0 <= j < n.named@.len(),
    ensures
        node_size(n.named@[j]) < node_size(n),
{
    lemma_nodes_size_upto(n, n.named@.len() as int, j);
}

/// The first named child standing in field `f`.
pub open spec fn child_by_field(n: GoNode, f: Seq<char>) -> Option<int> {
    first_field_from(n.named@, f, 0)
}

pub open spec fn first_field_from(cs: Seq<GoNode>, f: Seq<char>, i: int) -> Option<int>
    decreases cs.len() - i,
{
    if i < 0 || i >= cs.len() {
        None
    } else if cs[i].field_name matches Some(x) && x@ == f {
        Some(i)
    } else {
        first_field_from(cs, f, i + 1)
    }
}

pub proof fn lemma_first_field_from(cs: Seq<GoNode>, f: Seq<char>, i: int)
    requires
        0 <= i,
    ensures
        first_field_from(cs, f, i) matches Some(j) ==> i <= j < cs.len(),
    decreases cs.len() - i,
{
    if i < cs.len() && !(cs[i].field_name matches Some(x) && x@ == f) {
        lemma_first_field_from(cs, f, i + 1);
    }
}

pub fn child_by_field_name(n: &GoNode, f: &str) -> (r: Option<usize>)
    ensures
        r matches Some(j) ==> child_by_field(*n, f@) == Some(j as int) && j < n.named@.len(),
        r is None ==> child_by_field(*n, f@) is None,
{
    let fc = chars_of(f);
    let mut i: usize = 0;
    while i < n.named.len()
        invariant
            i <= n.named@.len(),
            fc@ == f@,
            first_field_from(n.named@, f@, 0) == first_field_from(n.named@, f@, i as int),
        decreases n.named.len() - i,
    {
        let hit = match &n.named[i].field_name {
            Some(x) => chars_eq(&text_of(x), &fc),
            None => false,
        };
        if hit {
            return Some(i);
        }
        i = i + 1;
    }
    None
}

/// The name a call's function names: an identifier itself, or the field
/// of a selector (its last named child when the field is not marked).
pub open spec fn selector_name(n: GoNode) -> Option<Seq<char>> {
    if n.kind@ == "identifier"@ {
        Some(n.text@)
    } else if n.kind@ != "selector_expression"@ {
        None
    } else {
        match child_by_field(n, "field"@) {
            Some(j) => Some(n.named@[j].text@),
            None => if n.named@.len() > 0 {
                Some(n.named@.last().text@)
            } else {
                None
            },
        }
    }
}

pub fn selector_name_exec(n: &GoNode) -> (r: Option<Vec<char>>)
    ensures
        r matches Some(v) ==> selector_name(*n) == Some(v@),
        r is None ==> selector_name(*n) is None,
{
    let k = text_of(&n.kind);
    if chars_eq(&k, &chars_of("identifier")) {
        return Some(text_of(&n.text));
    }
    if !chars_eq(&k, &chars_of("selector_expression")) {
        return None;
    }
    match child_by_field_name(n, "field") {
        Some(j) => Some(text_of(&n.named[j].text)),
        None => {
            let len = n.named.len();
            if len > 0 {
                Some(text_of(&n.named[len - 1].text))
            } else {
                None
            }
        },
    }
}

/// The value a name is bound to, evaluated in turn unless it is the name's
/// own text.
pub open spec fn resolve_bound_value(e: Seq<char>, value: Seq<char>, m: Map<Seq<char>, Seq<char>>) -> Seq<char> {
    if trim(value) == trim(e) {
        value
    } else {
        eval_text(value, m, Seq::empty(), EVALUATION_DEPTH as nat)
    }
}

/// The arguments of a call node (the named children of its `arguments`
/// field).
pub open spec fn call_args(n: GoNode) -> Seq<GoNode> {
    match child_by_field(n, "arguments"@) {
        Some(j) => n.named@[j].named@,
        None => Seq::empty(),
    }
}

/// The text an expression node stands for in scope `m`: a string literal
/// unquoted, a bound identifier or selector its value, a parenthesized or
/// unary expression its operand, a `+` of two operands their values
/// joined, a recognised call its value, and anything else its text with
/// whitespace normalized.
pub open spec fn eval_node(n: GoNode, m: Map<Seq<char>, Seq<char>>) -> Seq<char>
    decreases node_size(n), 1int,
{
    let k = n.kind@;
    let t = n.text@;
    if k == "interpreted_string_literal"@ || k == "raw_string_literal"@ {
        strip_quotes(t)
    } else if k == "identifier"@ {
        match resolve_scope(t, m) {
            Some(v) => resolve_bound_value(t, v, m),
            None => t,
        }
    } else if k == "parenthesized_expression"@ {
        if n.named@.len() > 0 {
            proof {
                lemma_child_size(n, 0);
            }
            eval_node(n.named@[0], m)
        } else {
            Seq::empty()
        }
    } else if k == "binary_expression"@ {
        if n.named@.len() == 2 && contains_char(t, '+') {
            proof {
                lemma_child_size(n, 0);
                lemma_child_size(n, 1);
            }
            eval_node(n.named@[0], m) + eval_node(n.named@[1], m)
        } else {
            normalize_whitespace(t)
        }
    } else if k == "call_expression"@ {
        match eval_special_call(n, m) {
            Some(v) => v,
            None => normalize_whitespace(t),
        }
    } else if k == "selector_expression"@ {
        match resolve_scope(t, m) {
            Some(v) => resolve_bound_value(t, v, m),
            None => normalize_whitespace(t),
        }
    } else if k == "unary_expression"@ {
        if n.named@.len() > 0 {
            proof {
                lemma_child_size(n, 0);
            }
            eval_node(n.named@[0], m)
        } else {
            normalize_whitespace(t)
        }
    } else {
        normalize_whitespace(t)
    }
}

/// The value of a call the evaluator knows: `url.PathEscape(x)` and
/// `PathValue("x")` as `{x}`, `strings.TrimRight(x, s)`, and
/// `fmt.Sprintf(f, ...)`.
pub open spec fn eval_special_call(n: GoNode, m: Map<Seq<char>, Seq<char>>) -> Option<Seq<char>>
    decreases node_size(n), 0int,
{
    match child_by_field(n, "function"@) {
        None => None,
        Some(fi) => {
            proof {
                lemma_first_field_from(n.named@, "function"@, 0);
            }
            match selector_name(n.named@[fi]) {
                None => None,
                Some(sel) => {
                    let args = call_args(n);
                    if sel == "PathEscape"@ {
                        if args.len() > 0 {
                            Some(seq!['{'] + trim(args[0].text@) + seq!['}'])
                        } else {
                            None
                        }
                    } else if sel == "PathValue"@ {
                        if args.len() > 0 {
                            Some(seq!['{'] + strip_quotes(args[0].text@) + seq!['}'])
                        } else {
                            None
                        }
                    } else if sel == "TrimRight"@ {
                        if args.len() < 2 {
                            None
                        } else {
                            proof {
                                lemma_args_size(n, 0);
                            }
                            Some(trim_end_str(eval_node(args[0], m), strip_quotes(args[1].text@)))
                        }
                    } else if sel == "Sprintf"@ {
                        if args.len() == 0 {
                            None
                        } else {
                            proof {
                                lemma_args_size(n, 0);
                            }
                            Some(sprintf(eval_node(args[0], m), eval_args(n, m, args.len() as int).skip(1)))
                        }
                    } else {
                        None
                    }
                },
            }
        },
    }
}

/// The values of the first `k` arguments of a call.
pub open spec fn eval_args(n: GoNode, m: Map<Seq<char>, Seq<char>>, k: int) -> Seq<Seq<char>>
    decreases node_size(n), 0int, k,
{
    if k <= 0 || k > call_args(n).len() {
        Seq::empty()
    } else {
        proof {
            lemma_args_size(n, k - 1);
        }
        eval_args(n, m, k - 1).push(eval_node(call_args(n)[k - 1], m))
    }
}

/// An argument of a call is smaller than the call.
pub proof fn lemma_args_size(n: GoNode, j: int)
    requires
        0 <= j < call_args(n).len(),
    ensures
        node_size(call_args(n)[j]) < node_size(n),
{
    lemma_first_field_from(n.named@, "arguments"@, 0);
    let ai = child_by_field(n, "arguments"@)->0;
    let a = n.named@[ai];
    lemma_child_size(n, ai);
    lemma_child_size(a, j);
}

fn resolve_bound_value_exec(e: &[char], value: Vec<char>, scope: &Bindings) -> (r: Vec<char>)
    ensures
        r@ == resolve_bound_value(e@, value@, scope@),
{
    if chars_eq(&trim_exec(&value), &trim_exec(e)) {
        value
    } else {
        text_of(&evaluate_expression_text(string_of(&value).as_str(), scope))
    }
}

fn is_kind(n: &GoNode, k: &str) -> (r: bool)
    ensures
        r == (n.kind@ == k@),
{
    chars_eq(&text_of(&n.kind), &chars_of(k))
}

/// The text an expression node stands for in a scope.
pub fn evaluate_expression_node(n: &GoNode, scope: &Bindings) -> (r: Vec<char>)
    ensures
        r@ == eval_node(*n, scope@),
    decreases node_size(*n), 1int,
{
    let t = text_of(&n.text);
    if is_kind(n, "interpreted_string_literal") || is_kind(n, "raw_string_literal") {
        strip_quotes_exec(&t)
    } else if is_kind(n, "identifier") {
        match resolve_scope_value(&t, scope) {
            Some(v) => resolve_bound_value_exec(&t, v, scope),
            None => t,
        }
    } else if is_kind(n, "parenthesized_expression") {
        if n.named.len() > 0 {
            proof {
                lemma_child_size(*n, 0);
            }
            evaluate_expression_node(&n.named[0], scope)
        } else {
            Vec::new()
        }
    } else if is_kind(n, "binary_expression") {
        if n.named.len() == 2 && contains_char_exec(&t, '+') {
            proof {
                lemma_child_size(*n, 0);
                lemma_child_size(*n, 1);
            }
            let mut a = evaluate_expression_node(&n.named[0], scope);
            let b = evaluate_expression_node(&n.named[1], scope);
            crate::text::append_chars(&mut a, &b);
            a
        } else {
            normalize_whitespace_exec(&t)
        }
    } else if is_kind(n, "call_expression") {
        match evaluate_special_call(n, scope) {
            Some(v) => v,
            None => normalize_whitespace_exec(&t),
        }
    } else if is_kind(n, "selector_expression") {
        match resolve_scope_value(&t, scope) {
            Some(v) => resolve_bound_value_exec(&t, v, scope),
            None => normalize_whitespace_exec(&t),
        }
    } else if is_kind(n, "unary_expression") {
        if n.named.len() > 0 {
            proof {
                lemma_child_size(*n, 0);
            }
            evaluate_expression_node(&n.named[0], scope)
        } else {
            normalize_whitespace_exec(&t)
        }
    } else {
        normalize_whitespace_exec(&t)
    }
}

/// The arguments of a call node.
pub fn call_arguments(n: &GoNode) -> (r: &[GoNode])
    ensures
        r@ == call_args(*n),
{
    match child_by_field_name(n, "arguments") {
        Some(j) => n.named[j].named.as_slice(),
        None => &[],
    }
}

fn evaluate_special_call(n: &GoNode, scope: &Bindings) -> (r: Option<Vec<char>>)
    ensures
        r matches Some(v) ==> eval_special_call(*n, scope@) == Some(v@),
        r is None ==> eval_special_call(*n, scope@) is None,
    decreases node_size(*n), 0int,
{
    let fi = match child_by_field_name(n, "function") {
        Some(fi) => fi,
        None => return None,
    };
    let sel = match selector_name_exec(&n.named[fi]) {
        Some(s) => s,
        None => return None,
    };
    let args = call_arguments(n);
    if chars_eq(&sel, &chars_of("PathEscape")) {
        if args.len() > 0 {
            let mut v = one('{');
            crate::text::append_chars(&mut v, &trim_exec(&text_of(&args[0].text)));
            v.push('}');
            assert(v@ =~= seq!['{'] + trim(args@[0].text@) + seq!['}']);
            Some(v)
        } else {
            None
        }
    } else if chars_eq(&sel, &chars_of("PathValue")) {
        if args.len() > 0 {
            let mut v = one('{');
            crate::text::append_chars(&mut v, &strip_quotes_exec(&text_of(&args[0].text)));
            v.push('}');
            assert(v@ =~= seq!['{'] + strip_quotes(args@[0].text@) + seq!['}']);
            Some(v)
        } else {
            None
        }
    } else if chars_eq(&sel, &chars_of("TrimRight")) {
        if args.len() < 2 {
            None
        } else {
            proof {
                lemma_args_size(*n, 0);
            }
            let base = evaluate_expression_node(&args[0], scope);
            let suffix = strip_quotes_exec(&text_of(&args[1].text));
            Some(trim_end_str_exec(&base, &suffix))
        }
    } else if chars_eq(&sel, &chars_of("Sprintf")) {
        if args.len() == 0 {
            None
        } else {
            proof {
                lemma_args_size(*n, 0);
            }
            let format = evaluate_expression_node(&args[0], scope);
            let mut values: Vec<Vec<char>> = Vec::new();
            let mut k: usize = 1;
            let ghost all = eval_args(*n, scope@, call_args(*n).len() as int);
            proof {
                lemma_eval_args(*n, scope@, call_args(*n).len() as int);
            }
            while k < args.len()
                invariant
                    1 <= k <= args@.len(),
                    args@ == call_args(*n),
                    all == eval_args(*n, scope@, call_args(*n).len() as int),
                    all.len() == args@.len(),
                    forall|q: int| 0 <= q < args@.len() ==> #[trigger] all[q] == eval_node(args@[q], scope@),
                    views(values@) == all.skip(1).take(k - 1),
                decreases args.len() - k,
            {
                proof {
                    lemma_args_size(*n, k as int);
                }
                let v = evaluate_expression_node(&args[k], scope);
                let ghost before = views(values@);
                values.push(v);
                assert(views(values@) =~= before.push(v@));
                assert(all[k as int] == v@);
                assert(all.skip(1).take(k as int) =~= all.skip(1).take(k - 1).push(all[k as int]));
                assert(views(values@) =~= all.skip(1).take(k as int));
                k = k + 1;
            }
            assert(all.skip(1).take(args@.len() - 1) =~= all.skip(1));
            Some(apply_sprintf(&format, &values))
        }
    } else {
        None
    }
}

proof fn lemma_eval_args(n: GoNode, m: Map<Seq<char>, Seq<char>>, k: int)
    requires
        0 <= k <= call_args(n).len(),
    ensures
        eval_args(n, m, k).len() == k,
        forall|q: int| 0 <= q < k ==> #[trigger] eval_args(n, m, k)[q] == eval_node(call_args(n)[q], m),
    decreases k,
{
    if k > 0 {
        lemma_eval_args(n, m, k - 1);
        let p = eval_args(n, m, k - 1);
        assert forall|q: int| 0 <= q < k implies #[trigger] eval_args(n, m, k)[q] == eval_node(
            call_args(n)[q],
            m,
        ) by {
            if q < k - 1 {
                assert(eval_args(n, m, k)[q] == p[q]);
            }
        }
    }
}

} // verus!
