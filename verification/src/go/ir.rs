//! The lowered form of Go functions: their expressions and statements read
//! from the syntax tree, their metadata, the calls they make and the
//! assignments they hold.
use vstd::prelude::*;

use crate::go::syntax::{call_args, child_by_field, child_by_field_name, lemma_args_size, lemma_child_size, lemma_first_field_from, node_size, GoNode};
use crate::model::{opt_view, Argument, CallStatement, Callable, Expr, Namespace, Parameter, ParsedCallable, Stmt};
use crate::text::{
    ends_with, ends_with_exec, last_word, last_word_exec, trim, trim_end_str, trim_end_str_exec, trim_exec,
    trim_start_str, trim_start_str_exec, chars_eq, chars_of, contains_char, contains_char_exec, normalize_whitespace, normalize_whitespace_exec, string_of,
    strip_quotes, strip_quotes_exec, text_of,
};

verus! {

/// All arguments of a call are smaller than the call.
pub proof fn lemma_all_args_size(n: GoNode)
    ensures
        forall|j: int| 0 <= j < call_args(n).len() ==> node_size(#[trigger] call_args(n)[j]) < node_size(n),
{
    assert forall|j: int| 0 <= j < call_args(n).len() implies node_size(#[trigger] call_args(n)[j]) < node_size(n) by {
        lemma_args_size(n, j);
    }
}

/// The `(key, value node)` pairs of the keyed elements under a node: a
/// keyed element gives its first two named children (the key's text with
/// whitespace normalized), any other child is searched in turn.
pub open spec fn keyed_walk(n: GoNode) -> Seq<(Seq<char>, GoNode)>
    decreases node_size(n), 1int,
{
    keyed_children(n, n.named@.len() as int)
}

pub open spec fn keyed_children(n: GoNode, k: int) -> Seq<(Seq<char>, GoNode)>
    decreases node_size(n), 0int, k,
{
    if k <= 0 || k > n.named@.len() {
        Seq::empty()
    } else {
        proof {
            lemma_child_size(n, k - 1);
        }
        let c = n.named@[k - 1];
        keyed_children(n, k - 1) + if c.kind@ == "keyed_element"@ {
            if c.named@.len() >= 2 {
                seq![(normalize_whitespace(c.named@[0].text@), c.named@[1])]
            } else {
                Seq::empty()
            }
        } else {
            keyed_walk(c)
        }
    }
}

pub proof fn lemma_keyed_walk_size(n: GoNode)
    ensures
        forall|i: int| 0 <= i < keyed_walk(n).len() ==> node_size(#[trigger] keyed_walk(n)[i].1) < node_size(n),
    decreases node_size(n), 1int,
{
    lemma_keyed_children_size(n, n.named@.len() as int);
    assert(keyed_walk(n) == keyed_children(n, n.named@.len() as int));
}

pub proof fn lemma_keyed_children_size(n: GoNode, k: int)
    ensures
        forall|i: int| 0 <= i < keyed_children(n, k).len() ==> node_size(#[trigger] keyed_children(n, k)[i].1) < node_size(n),
    decreases node_size(n), 0int, k,
{
    if k > 0 && k <= n.named@.len() {
        lemma_child_size(n, k - 1);
        lemma_keyed_children_size(n, k - 1);
        let c = n.named@[k - 1];
        let prev = keyed_children(n, k - 1);
        if c.kind@ == "keyed_element"@ {
            if c.named@.len() >= 2 {
                lemma_child_size(c, 1);
            }
        } else {
            lemma_keyed_walk_size(c);
        }
        let tail = if c.kind@ == "keyed_element"@ {
            if c.named@.len() >= 2 {
                seq![(normalize_whitespace(c.named@[0].text@), c.named@[1])]
            } else {
                Seq::empty()
            }
        } else {
            keyed_walk(c)
        };
        assert(keyed_children(n, k) == prev + tail);
        assert forall|i: int| 0 <= i < keyed_children(n, k).len() implies node_size(#[trigger] keyed_children(n, k)[i].1)
            < node_size(n) by {
            if i < prev.len() {
                assert(keyed_children(n, k)[i] == prev[i]);
            } else {
                assert(keyed_children(n, k)[i] == tail[i - prev.len()]);
            }
        }
    }
}

/// The keyed elements of the `literal_value` children of a composite
/// literal, in order.
pub open spec fn composite_pairs(n: GoNode, k: int) -> Seq<(Seq<char>, GoNode)>
    decreases k,
{
    if k <= 0 || k > n.named@.len() {
        Seq::empty()
    } else if n.named@[k - 1].kind@ == "literal_value"@ {
        composite_pairs(n, k - 1) + keyed_walk(n.named@[k - 1])
    } else {
        composite_pairs(n, k - 1)
    }
}

pub proof fn lemma_composite_pairs_size(n: GoNode, k: int)
    ensures
        forall|i: int| 0 <= i < composite_pairs(n, k).len() ==> node_size(#[trigger] composite_pairs(n, k)[i].1) < node_size(n),
    decreases k,
{
    if k > 0 && k <= n.named@.len() {
        lemma_composite_pairs_size(n, k - 1);
        let prev = composite_pairs(n, k - 1);
        if n.named@[k - 1].kind@ == "literal_value"@ {
            lemma_child_size(n, k - 1);
            lemma_keyed_walk_size(n.named@[k - 1]);
            let w = keyed_walk(n.named@[k - 1]);
            assert forall|i: int| 0 <= i < composite_pairs(n, k).len() implies node_size(#[trigger] composite_pairs(n, k)[i].1)
                < node_size(n) by {
                if i < prev.len() {
                    assert(composite_pairs(n, k)[i] == prev[i]);
                } else {
                    assert(composite_pairs(n, k)[i] == w[i - prev.len()]);
                }
            }
        }
    }
}

/// The first named child from `i` on that is not a `literal_value`.
pub open spec fn first_non_literal(cs: Seq<GoNode>, i: int) -> Option<int>
    decreases cs.len() - i,
{
    if i < 0 || i >= cs.len() {
        None
    } else if cs[i].kind@ != "literal_value"@ {
        Some(i)
    } else {
        first_non_literal(cs, i + 1)
    }
}

/// The child in field `f`, or else the named child at position `i`.
pub open spec fn field_or_child(n: GoNode, f: Seq<char>, i: int) -> Option<int> {
    match child_by_field(n, f) {
        Some(j) => Some(j),
        None => if 0 <= i < n.named@.len() {
            Some(i)
        } else {
            None
        },
    }
}

/// The child in field `f` (or at `i`) read as an expression, or `Empty`
/// where there is none.
pub open spec fn optional_parses(n: GoNode, j: Option<int>, e: Expr) -> bool
    decreases node_size(n), 0int,
{
    match j {
        Some(j) => if 0 <= j < n.named@.len() {
            proof {
                lemma_child_size(n, j);
            }
            parses_to(n.named@[j], e)
        } else {
            false
        },
        None => e is Empty,
    }
}

pub open spec fn is_string_literal(k: Seq<char>) -> bool {
    k == "interpreted_string_literal"@ || k == "raw_string_literal"@
}

pub open spec fn is_plain_literal(k: Seq<char>) -> bool {
    k == "int_literal"@ || k == "float_literal"@ || k == "true"@ || k == "false"@
}

pub open spec fn is_wrapper(k: Seq<char>) -> bool {
    k == "parenthesized_expression"@ || k == "unary_expression"@ || k == "literal_element"@ || k == "expression_list"@
}

/// `e` is the expression node `n` lowers to: string literals unquoted, other
/// literals and identifiers by their text, selectors as attributes, a `+`
/// of two operands as a concatenation, wrappers as their first operand, an
/// index as a call of `index` on the collection, calls with their receiver
/// and arguments, composite literals with their type and keyed fields, and
/// anything else as `Empty`.
pub open spec fn parses_to(n: GoNode, e: Expr) -> bool
    decreases node_size(n), 1int,
{
    let k = n.kind@;
    let t = n.text@;
    if is_string_literal(k) {
        e matches Expr::Literal(v) && v@ == strip_quotes(t)
    } else if is_plain_literal(k) {
        e matches Expr::Literal(v) && v@ == t
    } else if k == "identifier"@ {
        e matches Expr::Var(v) && v@ == t
    } else if k == "composite_literal"@ {
        proof {
            lemma_composite_pairs_size(n, n.named@.len() as int);
        }
        let kp = composite_pairs(n, n.named@.len() as int);
        e matches Expr::StructLiteral { literal_type, fields } && crate::model::opt_view(literal_type) == match first_non_literal(
            n.named@,
            0,
        ) {
            Some(j) => Some(normalize_whitespace(n.named@[j].text@)),
            None => None,
        } && fields_parse(n, fields@, kp.len() as int)
    } else if k == "selector_expression"@ {
        match (child_by_field(n, "operand"@), child_by_field(n, "field"@)) {
            (Some(o), Some(f)) => {
                proof {
                    lemma_first_field_from(n.named@, "operand"@, 0);
                    lemma_first_field_from(n.named@, "field"@, 0);
                    lemma_child_size(n, o);
                }
                e matches Expr::Attr { object, field } && field@ == n.named@[f].text@ && parses_to(n.named@[o], *object)
            },
            _ => e is Empty,
        }
    } else if k == "binary_expression"@ {
        if n.named@.len() == 2 && contains_char(t, '+') {
            proof {
                lemma_child_size(n, 0);
                lemma_child_size(n, 1);
            }
            e matches Expr::Concat(a, b) && parses_to(n.named@[0], *a) && parses_to(n.named@[1], *b)
        } else {
            e is Empty
        }
    } else if is_wrapper(k) {
        if n.named@.len() > 0 {
            proof {
                lemma_child_size(n, 0);
            }
            parses_to(n.named@[0], e)
        } else {
            e is Empty
        }
    } else if k == "index_expression"@ {
        proof {
            lemma_first_field_from(n.named@, "operand"@, 0);
            lemma_first_field_from(n.named@, "index"@, 0);
        }
        e matches Expr::Call { name, receiver: Some(r), args } && name@ == "index"@ && args@.len() == 1
            && optional_parses(n, field_or_child(n, "operand"@, 0), *r) && optional_parses(
            n,
            field_or_child(n, "index"@, 1),
            args@[0],
        )
    } else if k == "call_expression"@ {
        match child_by_field(n, "function"@) {
            None => e is Empty,
            Some(fi) => {
                proof {
                    lemma_first_field_from(n.named@, "function"@, 0);
                    lemma_child_size(n, fi);
                    lemma_all_args_size(n);
                }
                let f = n.named@[fi];
                let args = call_args(n);
                e matches Expr::Call { name, receiver, args: es } && es@.len() == args.len() && (forall|i: int|
                    0 <= i < args.len() ==> parses_to(#[trigger] args[i], es@[i])) && if f.kind@ == "selector_expression"@ {
                    (match child_by_field(f, "operand"@) {
                        Some(o) => {
                            proof {
                                lemma_first_field_from(f.named@, "operand"@, 0);
                                lemma_child_size(f, o);
                            }
                            receiver matches Some(r) && parses_to(f.named@[o], *r)
                        },
                        None => receiver is None,
                    }) && name@ == match child_by_field(f, "field"@) {
                        Some(fl) => f.named@[fl].text@,
                        None => Seq::empty(),
                    }
                } else {
                    receiver is None && name@ == f.text@
                }
            },
        }
    } else {
        e is Empty
    }
}

/// The first `k` fields of a composite literal are the keys of its keyed
/// elements with their value nodes lowered.
pub open spec fn fields_parse(n: GoNode, fs: Seq<(String, Expr)>, k: int) -> bool
    decreases node_size(n), 0int, k,
{
    let kp = composite_pairs(n, n.named@.len() as int);
    if k <= 0 {
        fs.len() == kp.len()
    } else if k > kp.len() {
        false
    } else {
        proof {
            lemma_composite_pairs_size(n, n.named@.len() as int);
        }
        fields_parse(n, fs, k - 1) && fs[k - 1].0@ == kp[k - 1].0 && parses_to(kp[k - 1].1, fs[k - 1].1)
    }
}

pub proof fn lemma_fields_parse(n: GoNode, fs: Seq<(String, Expr)>, k: int)
    requires
        0 <= k <= composite_pairs(n, n.named@.len() as int).len(),
        fields_match(fs, composite_pairs(n, n.named@.len() as int)),
    ensures
        fields_parse(n, fs, k),
    decreases k,
{
    if k > 0 {
        lemma_fields_parse(n, fs, k - 1);
        let kp = composite_pairs(n, n.named@.len() as int);
        assert(fs[k - 1].0@ == kp[k - 1].0 && parses_to(kp[k - 1].1, fs[k - 1].1));
    }
}

/// Each field of `fs` is the key of the pair in its place with its value
/// node lowered.
pub open spec fn fields_match(fs: Seq<(String, Expr)>, kp: Seq<(Seq<char>, GoNode)>) -> bool {
    fs.len() == kp.len() && forall|i: int| 0 <= i < kp.len() ==> #[trigger] fs[i].0@ == kp[i].0 && parses_to(kp[i].1, fs[i].1)
}

proof fn lemma_fields_match_append(
    a: Seq<(String, Expr)>,
    x: Seq<(Seq<char>, GoNode)>,
    b: Seq<(String, Expr)>,
    y: Seq<(Seq<char>, GoNode)>,
)
    requires
        fields_match(a, x),
        fields_match(b, y),
    ensures
        fields_match(a + b, x + y),
{
    assert forall|i: int| 0 <= i < (x + y).len() implies #[trigger] (a + b)[i].0@ == (x + y)[i].0 && parses_to(
        (x + y)[i].1,
        (a + b)[i].1,
    ) by {
        if i < x.len() {
            assert((a + b)[i] == a[i]);
            assert((x + y)[i] == x[i]);
            assert(a[i].0@ == x[i].0);
        } else {
            assert((a + b)[i] == b[i - a.len()]);
            assert((x + y)[i] == y[i - x.len()]);
            assert(b[i - a.len()].0@ == y[i - x.len()].0);
        }
    }
}

fn is_kind(n: &GoNode, k: &str) -> (r: bool)
    ensures
        r == (n.kind@ == k@),
{
    chars_eq(&text_of(&n.kind), &chars_of(k))
}

/// The fields of the keyed elements under a node.
fn keyed_fields(n: &GoNode) -> (r: Vec<(String, Expr)>)
    ensures
        fields_match(r@, keyed_walk(*n)),
    decreases node_size(*n), 0int,
{
    let mut out: Vec<(String, Expr)> = Vec::new();
    let mut k: usize = 0;
    while k < n.named.len()
        invariant
            k <= n.named@.len(),
            fields_match(out@, keyed_children(*n, k as int)),
        decreases n.named.len() - k,
    {
        proof {
            lemma_child_size(*n, k as int);
        }
        let c = &n.named[k];
        let ghost before = out@;
        let mut part: Vec<(String, Expr)> = Vec::new();
        if is_kind(c, "keyed_element") {
            if c.named.len() >= 2 {
                proof {
                    lemma_child_size(*c, 1);
                }
                let key = normalize_whitespace_exec(&text_of(&c.named[0].text));
                let value = parse_expression(&c.named[1]);
                part.push((string_of(&key), value));
                assert(fields_match(part@, seq![(normalize_whitespace(c.named@[0].text@), c.named@[1])])) by {
                    assert(part@[0].0@ == key@);
                }
            } else {
                assert(fields_match(part@, Seq::<(Seq<char>, GoNode)>::empty()));
            }
        } else {
            part = keyed_fields(c);
        }
        proof {
            let tail = if c.kind@ == "keyed_element"@ {
                if c.named@.len() >= 2 {
                    seq![(normalize_whitespace(c.named@[0].text@), c.named@[1])]
                } else {
                    Seq::empty()
                }
            } else {
                keyed_walk(*c)
            };
            assert(keyed_children(*n, k + 1) == keyed_children(*n, k as int) + tail);
            lemma_fields_match_append(before, keyed_children(*n, k as int), part@, tail);
        }
        out.append(&mut part);
        k = k + 1;
    }
    proof {
        assert(keyed_walk(*n) == keyed_children(*n, n.named@.len() as int));
    }
    out
}

fn normalized_text(n: &GoNode) -> (r: String)
    ensures
        r@ == normalize_whitespace(n.text@),
{
    string_of(&normalize_whitespace_exec(&text_of(&n.text)))
}

/// Lowers a composite literal: its type and its keyed fields.
fn parse_composite_literal(n: &GoNode) -> (e: Expr)
    requires
        n.kind@ == "composite_literal"@,
        !is_string_literal(n.kind@),
        !is_plain_literal(n.kind@),
        n.kind@ != "identifier"@,
    ensures
        parses_to(*n, e),
    decreases node_size(*n), 0int,
{
    let mut literal_type: Option<String> = None;
    let mut fields: Vec<(String, Expr)> = Vec::new();
    let mut k: usize = 0;
    while k < n.named.len()
        invariant
            k <= n.named@.len(),
            fields_match(fields@, composite_pairs(*n, k as int)),
            crate::model::opt_view(literal_type) == match first_non_literal(n.named@.take(k as int), 0) {
                Some(j) => Some(normalize_whitespace(n.named@[j].text@)),
                None => None,
            },
        decreases n.named.len() - k,
    {
        proof {
            lemma_child_size(*n, k as int);
            lemma_first_non_literal_take(n.named@, k as int);
        }
        let c = &n.named[k];
        if is_kind(c, "literal_value") {
            let ghost before = fields@;
            let mut part = keyed_fields(c);
            proof {
                lemma_fields_match_append(before, composite_pairs(*n, k as int), part@, keyed_walk(*c));
            }
            fields.append(&mut part);
        } else if literal_type.is_none() {
            literal_type = Some(normalized_text(c));
        }
        k = k + 1;
    }
    assert(n.named@.take(n.named@.len() as int) =~= n.named@);
    proof {
        lemma_composite_pairs_size(*n, n.named@.len() as int);
    }
    assert(crate::model::opt_view(literal_type) == match first_non_literal(n.named@, 0) {
        Some(j) => Some(normalize_whitespace(n.named@[j].text@)),
        None => None,
    });
    let e = Expr::StructLiteral { literal_type, fields };
    proof {
        lemma_fields_parse(*n, e->fields@, composite_pairs(*n, n.named@.len() as int).len() as int);
    }
    e
}

proof fn lemma_first_non_literal_from(cs: Seq<GoNode>, ds: Seq<GoNode>, i: int)
    requires
        0 <= i <= cs.len(),
        cs == ds.take(cs.len() as int),
        cs.len() <= ds.len(),
    ensures
        first_non_literal(cs, i) is Some ==> first_non_literal(ds, i) == first_non_literal(cs, i),
        first_non_literal(cs, i) is None ==> first_non_literal(ds, i) == first_non_literal(ds, cs.len() as int),
    decreases cs.len() - i,
{
    if i < cs.len() {
        assert(cs[i] == ds[i]);
        lemma_first_non_literal_from(cs, ds, i + 1);
    }
}

proof fn lemma_first_non_literal_take(cs: Seq<GoNode>, k: int)
    requires
        0 <= k < cs.len(),
    ensures
        first_non_literal(cs.take(k + 1), 0) == match first_non_literal(cs.take(k), 0) {
            Some(j) => Some(j),
            None => if cs[k].kind@ != "literal_value"@ {
                Some(k)
            } else {
                None
            },
        },
        first_non_literal(cs.take(k + 1), 0) matches Some(j) ==> 0 <= j <= k,
{
    assert(cs.take(k) =~= cs.take(k + 1).take(k));
    lemma_first_non_literal_from(cs.take(k), cs.take(k + 1), 0);
    lemma_first_non_literal_bound(cs.take(k + 1), 0);
    assert(cs.take(k + 1)[k] == cs[k]);
    assert(first_non_literal(cs.take(k + 1), k + 1) is None);
}

proof fn lemma_first_non_literal_bound(cs: Seq<GoNode>, i: int)
    requires
        0 <= i,
    ensures
        first_non_literal(cs, i) matches Some(j) ==> i <= j < cs.len(),
    decreases cs.len() - i,
{
    if i < cs.len() && cs[i].kind@ == "literal_value"@ {
        lemma_first_non_literal_bound(cs, i + 1);
    }
}

/// The child in field `f`, or else the named child at position `i`.
fn field_or_child_exec(n: &GoNode, f: &str, i: usize) -> (r: Option<usize>)
    ensures
        r matches Some(j) ==> field_or_child(*n, f@, i as int) == Some(j as int) && j < n.named@.len(),
        r is None ==> field_or_child(*n, f@, i as int) is None,
{
    match child_by_field_name(n, f) {
        Some(j) => Some(j),
        None => if i < n.named.len() {
            Some(i)
        } else {
            None
        },
    }
}

fn parse_optional(n: &GoNode, j: Option<usize>) -> (e: Expr)
    requires
        j matches Some(x) ==> x < n.named@.len(),
    ensures
        optional_parses(*n, match j {
            Some(x) => Some(x as int),
            None => None,
        }, e),
    decreases node_size(*n), 0int,
{
    match j {
        Some(x) => {
            proof {
                lemma_child_size(*n, x as int);
            }
            parse_expression(&n.named[x])
        },
        None => Expr::Empty,
    }
}

/// Lowers a call: its function's name (a selector's field, with the
/// selector's operand as receiver) and its arguments.
fn parse_call_expression(n: &GoNode) -> (e: Expr)
    requires
        n.kind@ == "call_expression"@,
        !is_string_literal(n.kind@),
        !is_plain_literal(n.kind@),
        !is_wrapper(n.kind@),
        n.kind@ != "identifier"@,
        n.kind@ != "composite_literal"@,
        n.kind@ != "selector_expression"@,
        n.kind@ != "binary_expression"@,
        n.kind@ != "index_expression"@,
    ensures
        parses_to(*n, e),
    decreases node_size(*n), 0int,
{
    let fi = match child_by_field_name(n, "function") {
        None => return Expr::Empty,
        Some(fi) => fi,
    };
    proof {
        lemma_child_size(*n, fi as int);
        lemma_all_args_size(*n);
    }
    let args = crate::go::syntax::call_arguments(n);
    let mut es: Vec<Expr> = Vec::new();
    let mut i: usize = 0;
    while i < args.len()
        invariant
            i <= args@.len(),
            args@ == call_args(*n),
            forall|j: int| 0 <= j < args@.len() ==> node_size(#[trigger] args@[j]) < node_size(*n),
            es@.len() == i,
            forall|j: int| 0 <= j < i ==> parses_to(#[trigger] args@[j], es@[j]),
        decreases args.len() - i,
    {
        let x = parse_expression(&args[i]);
        es.push(x);
        i = i + 1;
    }
    let f = &n.named[fi];
    if is_kind(f, "selector_expression") {
        let receiver = match child_by_field_name(f, "operand") {
            Some(o) => {
                proof {
                    lemma_child_size(*f, o as int);
                }
                Some(Box::new(parse_expression(&f.named[o])))
            },
            None => None,
        };
        let name = match child_by_field_name(f, "field") {
            Some(fl) => f.named[fl].text.clone(),
            None => String::new(),
        };
        Expr::Call { name, receiver, args: es }
    } else {
        Expr::Call { name: f.text.clone(), receiver: None, args: es }
    }
}

/// Lowers an expression node.
pub fn parse_expression(n: &GoNode) -> (e: Expr)
    ensures
        parses_to(*n, e),
    decreases node_size(*n), 1int,
{
    let t = text_of(&n.text);
    if is_kind(n, "interpreted_string_literal") || is_kind(n, "raw_string_literal") {
        Expr::Literal(string_of(&strip_quotes_exec(&t)))
    } else if is_kind(n, "int_literal") || is_kind(n, "float_literal") || is_kind(n, "true") || is_kind(n, "false") {
        Expr::Literal(n.text.clone())
    } else if is_kind(n, "identifier") {
        Expr::Var(n.text.clone())
    } else if is_kind(n, "composite_literal") {
        parse_composite_literal(n)
    } else if is_kind(n, "selector_expression") {
        match (child_by_field_name(n, "operand"), child_by_field_name(n, "field")) {
            (Some(o), Some(f)) => {
                proof {
                    lemma_child_size(*n, o as int);
                }
                let object = parse_expression(&n.named[o]);
                Expr::Attr { object: Box::new(object), field: n.named[f].text.clone() }
            },
            _ => Expr::Empty,
        }
    } else if is_kind(n, "binary_expression") {
        if n.named.len() == 2 && contains_char_exec(&t, '+') {
            proof {
                lemma_child_size(*n, 0);
                lemma_child_size(*n, 1);
            }
            let a = parse_expression(&n.named[0]);
            let b = parse_expression(&n.named[1]);
            Expr::Concat(Box::new(a), Box::new(b))
        } else {
            Expr::Empty
        }
    } else if is_kind(n, "parenthesized_expression") || is_kind(n, "unary_expression") || is_kind(n, "literal_element")
        || is_kind(n, "expression_list") {
        if n.named.len() > 0 {
            proof {
                lemma_child_size(*n, 0);
            }
            parse_expression(&n.named[0])
        } else {
            Expr::Empty
        }
    } else if is_kind(n, "index_expression") {
        let collection = parse_optional(n, field_or_child_exec(n, "operand", 0));
        let index = parse_optional(n, field_or_child_exec(n, "index", 1));
        let mut args: Vec<Expr> = Vec::new();
        args.push(index);
        Expr::Call { name: string_of(&chars_of("index")), receiver: Some(Box::new(collection)), args }
    } else if is_kind(n, "call_expression") {
        parse_call_expression(n)
    } else {
        Expr::Empty
    }
}

pub open spec fn is_target(k: Seq<char>) -> bool {
    k == "identifier"@ || k == "selector_expression"@
}

/// The left-hand and right-hand operands of an assignment among its first
/// `k` children: operands before the first expression list (or the first
/// operand that cannot be assigned to) stand on the left.
pub open spec fn assignment_sides(n: GoNode, k: int) -> (Seq<GoNode>, Seq<GoNode>, bool)
    decreases k,
{
    if k <= 0 || k > n.named@.len() {
        (Seq::empty(), Seq::empty(), false)
    } else {
        let (l, r, seen) = assignment_sides(n, k - 1);
        let c = n.named@[k - 1];
        if c.kind@ == "expression_list"@ {
            if !seen {
                (l + c.named@, r, true)
            } else {
                (l, r + c.named@, true)
            }
        } else if !seen && is_target(c.kind@) {
            (l.push(c), r, false)
        } else {
            (l, r.push(c), true)
        }
    }
}

/// The `(target text, value node)` pairs of the first `j` positions of the
/// two sides, skipping targets that cannot be assigned to.
pub open spec fn zipped_pairs(l: Seq<GoNode>, r: Seq<GoNode>, j: int) -> Seq<(Seq<char>, GoNode)>
    decreases j,
{
    if j <= 0 || j > l.len() || j > r.len() {
        Seq::empty()
    } else if is_target(l[j - 1].kind@) {
        zipped_pairs(l, r, j - 1).push((l[j - 1].text@, r[j - 1]))
    } else {
        zipped_pairs(l, r, j - 1)
    }
}

/// The `(name, value node)` pairs an assignment or short declaration binds.
pub open spec fn assignment_pairs(n: GoNode) -> Seq<(Seq<char>, GoNode)> {
    let (l, r, _) = assignment_sides(n, n.named@.len() as int);
    zipped_pairs(l, r, if l.len() <= r.len() { l.len() as int } else { r.len() as int })
}

/// Each node of an assignment's sides is a child or a grandchild.
proof fn lemma_assignment_sides_size(n: GoNode, k: int)
    ensures
        forall|i: int| 0 <= i < assignment_sides(n, k).0.len() ==> node_size(#[trigger] assignment_sides(n, k).0[i]) < node_size(n),
        forall|i: int| 0 <= i < assignment_sides(n, k).1.len() ==> node_size(#[trigger] assignment_sides(n, k).1[i]) < node_size(n),
    decreases k,
{
    if k > 0 && k <= n.named@.len() {
        lemma_assignment_sides_size(n, k - 1);
        lemma_child_size(n, k - 1);
        let c = n.named@[k - 1];
        assert forall|j: int| 0 <= j < c.named@.len() implies node_size(#[trigger] c.named@[j]) < node_size(n) by {
            lemma_child_size(c, j);
        }
        let (l, r, seen) = assignment_sides(n, k - 1);
        assert forall|i: int| 0 <= i < assignment_sides(n, k).0.len() implies node_size(#[trigger] assignment_sides(n, k).0[i])
            < node_size(n) by {
            if i >= l.len() {
                if c.kind@ == "expression_list"@ {
                    assert(assignment_sides(n, k).0[i] == c.named@[i - l.len()]);
                }
            } else {
                assert(assignment_sides(n, k).0[i] == l[i]);
            }
        }
        assert forall|i: int| 0 <= i < assignment_sides(n, k).1.len() implies node_size(#[trigger] assignment_sides(n, k).1[i])
            < node_size(n) by {
            if i >= r.len() {
                if c.kind@ == "expression_list"@ {
                    assert(assignment_sides(n, k).1[i] == c.named@[i - r.len()]);
                }
            } else {
                assert(assignment_sides(n, k).1[i] == r[i]);
            }
        }
    }
}

proof fn lemma_zipped_pairs_from(l: Seq<GoNode>, r: Seq<GoNode>, j: int, bound: int)
    requires
        forall|i: int| 0 <= i < r.len() ==> node_size(#[trigger] r[i]) < bound,
    ensures
        forall|i: int| 0 <= i < zipped_pairs(l, r, j).len() ==> node_size(#[trigger] zipped_pairs(l, r, j)[i].1) < bound,
    decreases j,
{
    if j > 0 && j <= l.len() && j <= r.len() {
        lemma_zipped_pairs_from(l, r, j - 1, bound);
        let p = zipped_pairs(l, r, j - 1);
        if is_target(l[j - 1].kind@) {
            assert forall|i: int| 0 <= i < zipped_pairs(l, r, j).len() implies node_size(#[trigger] zipped_pairs(l, r, j)[i].1)
                < bound by {
                if i < p.len() {
                    assert(zipped_pairs(l, r, j)[i] == p[i]);
                }
            }
        }
    }
}

/// The value nodes of an assignment are smaller than it.
pub proof fn lemma_assignment_pairs_size(n: GoNode)
    ensures
        forall|i: int| 0 <= i < assignment_pairs(n).len() ==> node_size(#[trigger] assignment_pairs(n)[i].1) < node_size(n),
{
    lemma_assignment_sides_size(n, n.named@.len() as int);
    let (l, r, _) = assignment_sides(n, n.named@.len() as int);
    lemma_zipped_pairs_from(l, r, if l.len() <= r.len() { l.len() as int } else { r.len() as int }, node_size(n) as int);
}

pub open spec fn node_pairs<'a>(v: Seq<(String, &'a GoNode)>) -> Seq<(Seq<char>, GoNode)> {
    v.map_values(|p: (String, &'a GoNode)| (p.0@, *p.1))
}

/// The `(name, value node)` pairs an assignment binds.
pub fn assignment_pairs_exec<'a>(n: &'a GoNode) -> (r: Vec<(String, &'a GoNode)>)
    ensures
        node_pairs(r@) == assignment_pairs(*n),
{
    let mut left: Vec<&'a GoNode> = Vec::new();
    let mut right: Vec<&'a GoNode> = Vec::new();
    let mut seen = false;
    let mut k: usize = 0;
    while k < n.named.len()
        invariant
            k <= n.named@.len(),
            assignment_sides(*n, k as int) == (crate::go::endpoints::derefs(left@), crate::go::endpoints::derefs(right@), seen),
        decreases n.named.len() - k,
    {
        let c = &n.named[k];
        let ghost l0 = crate::go::endpoints::derefs(left@);
        let ghost r0 = crate::go::endpoints::derefs(right@);
        if is_kind(c, "expression_list") {
            let mut j: usize = 0;
            while j < c.named.len()
                invariant
                    j <= c.named@.len(),
                    !seen ==> crate::go::endpoints::derefs(left@) == l0 + c.named@.take(j as int) && crate::go::endpoints::derefs(right@) == r0,
                    seen ==> crate::go::endpoints::derefs(right@) == r0 + c.named@.take(j as int) && crate::go::endpoints::derefs(left@) == l0,
                decreases c.named.len() - j,
            {
                let ghost lb = crate::go::endpoints::derefs(left@);
                let ghost rb = crate::go::endpoints::derefs(right@);
                if !seen {
                    left.push(&c.named[j]);
                    assert(crate::go::endpoints::derefs(left@) =~= lb.push(c.named@[j as int]));
                    assert(crate::go::endpoints::derefs(right@) =~= rb);
                } else {
                    right.push(&c.named[j]);
                    assert(crate::go::endpoints::derefs(right@) =~= rb.push(c.named@[j as int]));
                    assert(crate::go::endpoints::derefs(left@) =~= lb);
                }
                assert(c.named@.take(j + 1) =~= c.named@.take(j as int).push(c.named@[j as int]));
                assert(crate::go::endpoints::derefs(left@) =~= if !seen { l0 + c.named@.take(j + 1) } else { l0 });
                assert(crate::go::endpoints::derefs(right@) =~= if seen { r0 + c.named@.take(j + 1) } else { r0 });
                j = j + 1;
            }
            assert(c.named@.take(c.named@.len() as int) =~= c.named@);
            seen = true;
        } else if !seen && (is_kind(c, "identifier") || is_kind(c, "selector_expression")) {
            left.push(c);
            assert(crate::go::endpoints::derefs(left@) =~= l0.push(*c));
        } else {
            seen = true;
            right.push(c);
            assert(crate::go::endpoints::derefs(right@) =~= r0.push(*c));
        }
        k = k + 1;
    }
    let ghost l = crate::go::endpoints::derefs(left@);
    let ghost rr = crate::go::endpoints::derefs(right@);
    let m = if left.len() <= right.len() {
        left.len()
    } else {
        right.len()
    };
    let mut out: Vec<(String, &'a GoNode)> = Vec::new();
    let mut j: usize = 0;
    while j < m
        invariant
            j <= m,
            m <= left@.len(),
            m <= right@.len(),
            l == crate::go::endpoints::derefs(left@),
            rr == crate::go::endpoints::derefs(right@),
            node_pairs(out@) == zipped_pairs(l, rr, j as int),
        decreases m - j,
    {
        let t = left[j];
        if is_kind(t, "identifier") || is_kind(t, "selector_expression") {
            let ghost before = node_pairs(out@);
            out.push((t.text.clone(), right[j]));
            assert(node_pairs(out@) =~= before.push((l[j as int].text@, rr[j as int])));
        }
        j = j + 1;
    }
    out
}

/// What a statement lowers to: a declaration (0), an assignment (1) or a
/// return (2), with the name bound and the node of the value.
pub type StmtPlan = (nat, Seq<char>, Option<GoNode>);

/// The statements of a block: those of nested statement lists, one per
/// pair of a short declaration or an assignment, and returns.
pub open spec fn stmt_plan(n: GoNode) -> Seq<StmtPlan>
    decreases node_size(n), 1int,
{
    stmt_plan_children(n, n.named@.len() as int)
}

pub open spec fn stmt_plan_children(n: GoNode, k: int) -> Seq<StmtPlan>
    decreases node_size(n), 0int, k,
{
    if k <= 0 || k > n.named@.len() {
        Seq::empty()
    } else {
        proof {
            lemma_child_size(n, k - 1);
        }
        let c = n.named@[k - 1];
        stmt_plan_children(n, k - 1) + stmt_plan_of(c)
    }
}

pub open spec fn stmt_plan_of(c: GoNode) -> Seq<StmtPlan>
    decreases node_size(c), 2int,
{
    if c.kind@ == "statement_list"@ {
        stmt_plan(c)
    } else if c.kind@ == "short_var_declaration"@ {
        assignment_pairs(c).map_values(|p: (Seq<char>, GoNode)| (0nat, p.0, Some(p.1)))
    } else if c.kind@ == "assignment_statement"@ {
        assignment_pairs(c).map_values(|p: (Seq<char>, GoNode)| (1nat, p.0, Some(p.1)))
    } else if c.kind@ == "return_statement"@ {
        seq![
            (
                2nat,
                Seq::empty(),
                if c.named@.len() > 0 {
                    Some(c.named@[0])
                } else {
                    None
                },
            ),
        ]
    } else {
        Seq::empty()
    }
}

/// A statement is what its plan lowers to.
pub open spec fn stmt_matches(s: Stmt, p: StmtPlan) -> bool {
    if p.0 == 0 {
        s matches Stmt::Declaration { name, dtype, value } && name@ == p.1 && dtype is None && (p.2 is Some
            && parses_to(p.2->0, value))
    } else if p.0 == 1 {
        s matches Stmt::Assignment { name, value } && name@ == p.1 && (p.2 is Some && parses_to(p.2->0, value))
    } else {
        s matches Stmt::Return(value) && match p.2 {
            Some(v) => parses_to(v, value),
            None => value is Empty,
        }
    }
}

pub open spec fn stmts_match(ss: Seq<Stmt>, plan: Seq<StmtPlan>) -> bool {
    ss.len() == plan.len() && forall|i: int| 0 <= i < plan.len() ==> stmt_matches(#[trigger] ss[i], plan[i])
}

proof fn lemma_stmts_match_append(a: Seq<Stmt>, x: Seq<StmtPlan>, b: Seq<Stmt>, y: Seq<StmtPlan>)
    requires
        stmts_match(a, x),
        stmts_match(b, y),
    ensures
        stmts_match(a + b, x + y),
{
    assert forall|i: int| 0 <= i < (x + y).len() implies stmt_matches(#[trigger] (a + b)[i], (x + y)[i]) by {
        if i < x.len() {
            assert((a + b)[i] == a[i]);
            assert((x + y)[i] == x[i]);
        } else {
            assert((a + b)[i] == b[i - a.len()]);
            assert((x + y)[i] == y[i - x.len()]);
            assert(stmt_matches(b[i - a.len()], y[i - x.len()]));
        }
    }
}

/// Lowers the statements of one child of a block.
fn parse_statement(c: &GoNode) -> (r: Vec<Stmt>)
    ensures
        stmts_match(r@, stmt_plan_of(*c)),
    decreases node_size(*c), 2int,
{
    if is_kind(c, "statement_list") {
        parse_statements(c)
    } else if is_kind(c, "short_var_declaration") || is_kind(c, "assignment_statement") {
        let declaring = is_kind(c, "short_var_declaration");
        let pairs = assignment_pairs_exec(c);
        let ghost pv = node_pairs(pairs@);
        let ghost tag: nat = if declaring { 0 } else { 1 };
        let ghost plan = pv.map_values(|p: (Seq<char>, GoNode)| (tag, p.0, Some(p.1)));
        let mut out: Vec<Stmt> = Vec::new();
        let mut i: usize = 0;
        while i < pairs.len()
            invariant
                i <= pairs@.len(),
                pv == node_pairs(pairs@),
                plan == pv.map_values(|p: (Seq<char>, GoNode)| (tag, p.0, Some(p.1))),
                tag == (if declaring { 0nat } else { 1nat }),
                out@.len() == i,
                forall|j: int| 0 <= j < i ==> stmt_matches(#[trigger] out@[j], plan[j]),
            decreases pairs.len() - i,
        {
            let value = parse_expression(pairs[i].1);
            let name = pairs[i].0.clone();
            if declaring {
                out.push(Stmt::Declaration { name, dtype: None, value });
            } else {
                out.push(Stmt::Assignment { name, value });
            }
            assert(stmt_matches(out@[i as int], plan[i as int]));
            i = i + 1;
        }
        proof {
            if declaring {
                assert(plan =~= node_pairs(pairs@).map_values(|p: (Seq<char>, GoNode)| (0nat, p.0, Some(p.1))));
            } else {
                assert(plan =~= node_pairs(pairs@).map_values(|p: (Seq<char>, GoNode)| (1nat, p.0, Some(p.1))));
            }
        }
        out
    } else if is_kind(c, "return_statement") {
        let value = if c.named.len() > 0 {
            parse_expression(&c.named[0])
        } else {
            Expr::Empty
        };
        let mut out: Vec<Stmt> = Vec::new();
        out.push(Stmt::Return(value));
        assert(stmt_matches(out@[0], stmt_plan_of(*c)[0]));
        out
    } else {
        Vec::new()
    }
}

/// Lowers the statements of a block.
pub fn parse_statements(n: &GoNode) -> (r: Vec<Stmt>)
    ensures
        stmts_match(r@, stmt_plan(*n)),
    decreases node_size(*n), 1int,
{
    let mut out: Vec<Stmt> = Vec::new();
    let mut k: usize = 0;
    while k < n.named.len()
        invariant
            k <= n.named@.len(),
            stmts_match(out@, stmt_plan_children(*n, k as int)),
        decreases n.named.len() - k,
    {
        proof {
            lemma_child_size(*n, k as int);
        }
        let ghost before = out@;
        let mut part = parse_statement(&n.named[k]);
        proof {
            lemma_stmts_match_append(before, stmt_plan_children(*n, k as int), part@, stmt_plan_of(n.named@[k as int]));
        }
        out.append(&mut part);
        k = k + 1;
    }
    out
}

/// The header of a declaration: its text before the body (the body ends
/// the declaration), trimmed and with whitespace normalized; the whole
/// text where it has no body.
pub open spec fn callable_signature(n: GoNode) -> Seq<char> {
    match child_by_field(n, "body"@) {
        Some(b) => {
            let body = n.named@[b].text@;
            if body.len() <= n.text@.len() {
                normalize_whitespace(trim(n.text@.take(n.text@.len() - body.len())))
            } else {
                normalize_whitespace(n.text@)
            }
        },
        None => normalize_whitespace(n.text@),
    }
}

pub fn callable_signature_exec(n: &GoNode) -> (r: String)
    ensures
        r@ == callable_signature(*n),
{
    let t = text_of(&n.text);
    match child_by_field_name(n, "body") {
        Some(b) => {
            let body = text_of(&n.named[b].text);
            if body.len() <= t.len() {
                let head = crate::text::slice_chars(&t, 0, t.len() - body.len());
                assert(head@ =~= t@.take(t@.len() - body@.len()));
                string_of(&normalize_whitespace_exec(&trim_exec(&head)))
            } else {
                string_of(&normalize_whitespace_exec(&t))
            }
        },
        None => string_of(&normalize_whitespace_exec(&t)),
    }
}

/// The type a method receiver `(r *T)` names: its last word without `*`,
/// when not empty.
pub open spec fn receiver_type(receiver: Seq<char>) -> Option<Seq<char>> {
    match last_word(trim_end_str(trim_start_str(trim(receiver), seq!['(']), seq![')'])) {
        Some(w) => {
            let v = trim_start_str(w, seq!['*']);
            if v.len() > 0 {
                Some(v)
            } else {
                None
            }
        },
        None => None,
    }
}

pub fn receiver_type_exec(receiver: &[char]) -> (r: Option<Vec<char>>)
    ensures
        r matches Some(v) ==> receiver_type(receiver@) == Some(v@),
        r is None ==> receiver_type(receiver@) is None,
{
    let inner = trim_end_str_exec(&trim_start_str_exec(&trim_exec(receiver), &crate::text::one('(')), &crate::text::one(')'));
    match last_word_exec(&inner) {
        Some(w) => {
            let v = trim_start_str_exec(&w, &crate::text::one('*'));
            if v.len() > 0 {
                Some(v)
            } else {
                None
            }
        },
        None => None,
    }
}

/// The `(name, type)` of each parameter among the first `k` children of a
/// parameter declaration: the identifiers before its type.
pub open spec fn declared_names(d: GoNode, ti: int, k: int) -> Seq<Seq<char>>
    decreases k,
{
    if k <= 0 || k > d.named@.len() {
        Seq::empty()
    } else if k <= ti && d.named@[k - 1].kind@ == "identifier"@ {
        declared_names(d, ti, k - 1).push(d.named@[k - 1].text@)
    } else {
        declared_names(d, ti, k - 1)
    }
}

/// The position of a declaration's type child, or its number of children.
pub open spec fn type_position(d: GoNode) -> int {
    match child_by_field(d, "type"@) {
        Some(t) => t,
        None => d.named@.len() as int,
    }
}

pub open spec fn declared_type(d: GoNode) -> Option<Seq<char>> {
    match child_by_field(d, "type"@) {
        Some(t) => Some(normalize_whitespace(d.named@[t].text@)),
        None => None,
    }
}

/// The parameters of the first `k` parameter declarations of a list, each
/// as `(name, type)`.
pub open spec fn parameter_list(n: GoNode, k: int) -> Seq<(Seq<char>, Option<Seq<char>>)>
    decreases k,
{
    if k <= 0 || k > n.named@.len() {
        Seq::empty()
    } else if n.named@[k - 1].kind@ == "parameter_declaration"@ {
        let d = n.named@[k - 1];
        let ty = declared_type(d);
        let names = declared_names(d, type_position(d), d.named@.len() as int);
        parameter_list(n, k - 1) + names.map_values(|x: Seq<char>| (x, ty))
    } else {
        parameter_list(n, k - 1)
    }
}

pub open spec fn params_view(ps: Seq<Parameter>) -> Seq<(Seq<char>, Option<Seq<char>>)> {
    ps.map_values(|p: Parameter| (p.name@, opt_view(p.datatype)))
}

pub open spec fn no_initial_values(ps: Seq<Parameter>) -> bool {
    forall|i: int| 0 <= i < ps.len() ==> (#[trigger] ps[i]).initial_value is None
}

/// The parameters of a parameter list: each identifier before the type of
/// its declaration, with that type.
pub fn parse_callable_parameters(n: &GoNode) -> (r: Vec<Parameter>)
    ensures
        params_view(r@) == parameter_list(*n, n.named@.len() as int),
        no_initial_values(r@),
{
    let mut out: Vec<Parameter> = Vec::new();
    let mut k: usize = 0;
    while k < n.named.len()
        invariant
            k <= n.named@.len(),
            params_view(out@) == parameter_list(*n, k as int),
            no_initial_values(out@),
        decreases n.named.len() - k,
    {
        let d = &n.named[k];
        if is_kind(d, "parameter_declaration") {
            let (ty, ti) = match child_by_field_name(d, "type") {
                Some(t) => (Some(normalized_text(&d.named[t])), t),
                None => (None, d.named.len()),
            };
            assert(opt_view(ty) == declared_type(*d));
            let ghost s0 = params_view(out@);
            let mut j: usize = 0;
            while j < d.named.len()
                invariant
                    j <= d.named@.len(),
                    ti as int == type_position(*d),
                    ti <= d.named@.len(),
                    opt_view(ty) == declared_type(*d),
                    no_initial_values(out@),
                    params_view(out@) == s0 + declared_names(*d, ti as int, j as int).map_values(
                        |x: Seq<char>| (x, declared_type(*d)),
                    ),
                decreases d.named.len() - j,
            {
                let ghost before = params_view(out@);
                if j < ti && is_kind(&d.named[j], "identifier") {
                    let ty2 = match &ty {
                        Some(x) => Some(x.clone()),
                        None => None,
                    };
                    out.push(Parameter { name: d.named[j].text.clone(), datatype: ty2, initial_value: None });
                    assert(params_view(out@) =~= before.push((d.named@[j as int].text@, declared_type(*d))));
                    assert(declared_names(*d, ti as int, j + 1).map_values(|x: Seq<char>| (x, declared_type(*d)))
                        =~= declared_names(*d, ti as int, j as int).map_values(|x: Seq<char>| (x, declared_type(*d))).push(
                        (d.named@[j as int].text@, declared_type(*d)),
                    ));
                } else {
                    assert(declared_names(*d, ti as int, j + 1) == declared_names(*d, ti as int, j as int));
                }
                j = j + 1;
            }
            assert(declared_names(*d, ti as int, d.named@.len() as int) == declared_names(*d, type_position(*d), d.named@.len() as int));
        }
        k = k + 1;
    }
    out
}

/// The namespace of a declaration: a method's receiver type (or the file
/// where it names none), else the file.
pub open spec fn declaration_namespace(n: GoNode, file_path: Seq<char>) -> (bool, Seq<char>) {
    if n.kind@ == "method_declaration"@ {
        let receiver = match child_by_field(n, "receiver"@) {
            Some(r) => n.named@[r].text@,
            None => Seq::empty(),
        };
        (
            true,
            match receiver_type(receiver) {
                Some(t) => t,
                None => file_path,
            },
        )
    } else {
        (false, file_path)
    }
}

/// `c` is the callable a function or method declaration describes: its
/// header, name (or header), namespace, parameters, result type, the hash
/// of its text, its file, and the statements of its body.
pub open spec fn built_callable(n: GoNode, file_path: Seq<char>, c: ParsedCallable) -> bool {
    let m = c.metadata;
    let sig = callable_signature(n);
    &&& m.signature@ == sig
    &&& m.name@ == match child_by_field(n, "name"@) {
        Some(j) => n.named@[j].text@,
        None => sig,
    }
    &&& crate::model::namespace_view(m.namespace) == declaration_namespace(n, file_path)
    &&& params_view(m.parameters@) == match child_by_field(n, "parameters"@) {
        Some(j) => parameter_list(n.named@[j], n.named@[j].named@.len() as int),
        None => Seq::empty(),
    }
    &&& no_initial_values(m.parameters@)
    &&& opt_view(m.return_type) == match child_by_field(n, "result"@) {
        Some(j) => Some(normalize_whitespace(n.named@[j].text@)),
        None => None,
    }
    &&& !m.is_async
    &&& !m.is_constructor
    &&& m.hash@ == crate::hashing::text_hash(n.text@)
    &&& m.file_path@ == file_path
    &&& stmts_match(c.statements@, match child_by_field(n, "body"@) {
        Some(j) => stmt_plan(n.named@[j]),
        None => Seq::empty(),
    })
}

/// The callable a function or method declaration describes.
pub fn build_callable(n: &GoNode, file_path: &str) -> (c: ParsedCallable)
    ensures
        built_callable(*n, file_path@, c),
{
    let signature = callable_signature_exec(n);
    let name = match child_by_field_name(n, "name") {
        Some(j) => n.named[j].text.clone(),
        None => signature.clone(),
    };
    let namespace = if is_kind(n, "method_declaration") {
        let receiver = match child_by_field_name(n, "receiver") {
            Some(r) => text_of(&n.named[r].text),
            None => Vec::new(),
        };
        match receiver_type_exec(&receiver) {
            Some(t) => Namespace::Class(string_of(&t)),
            None => Namespace::Class(file_path.to_string()),
        }
    } else {
        Namespace::Module(file_path.to_string())
    };
    let parameters = match child_by_field_name(n, "parameters") {
        Some(j) => parse_callable_parameters(&n.named[j]),
        None => {
            let v: Vec<Parameter> = Vec::new();
            assert(params_view(v@) =~= Seq::<(Seq<char>, Option<Seq<char>>)>::empty());
            v
        },
    };
    let return_type = match child_by_field_name(n, "result") {
        Some(j) => Some(normalized_text(&n.named[j])),
        None => None,
    };
    let statements = match child_by_field_name(n, "body") {
        Some(j) => parse_statements(&n.named[j]),
        None => Vec::new(),
    };
    let hash = crate::hashing::hash_text(n.text.as_str());
    ParsedCallable {
        metadata: Callable {
            name,
            signature,
            namespace,
            parameters,
            return_type,
            is_async: false,
            is_constructor: false,
            hash,
            file_path: file_path.to_string(),
        },
        statements,
    }
}

/// The call expressions (with a function) among `nodes[..k]`, in order.
pub open spec fn call_nodes(nodes: Seq<GoNode>, k: int) -> Seq<GoNode>
    decreases k,
{
    if k <= 0 || k > nodes.len() {
        Seq::empty()
    } else if nodes[k - 1].kind@ == "call_expression"@ && child_by_field(nodes[k - 1], "function"@) is Some {
        call_nodes(nodes, k - 1).push(nodes[k - 1])
    } else {
        call_nodes(nodes, k - 1)
    }
}

/// `s` is the call statement a call node makes inside the callable `m`: the
/// function's text and each argument's text, whitespace normalized.
pub open spec fn call_statement_of(n: GoNode, m: Callable, s: CallStatement) -> bool {
    let f = n.named@[child_by_field(n, "function"@)->0];
    let args = call_args(n);
    &&& s.function_name@ == normalize_whitespace(f.text@)
    &&& s.arguments@.len() == args.len()
    &&& forall|i: int|
        0 <= i < args.len() ==> {
            &&& (#[trigger] s.arguments@[i]).value@ == normalize_whitespace(args[i].text@)
            &&& s.arguments@[i].assigned_variable@ == Seq::<char>::empty()
            &&& s.arguments@[i].datatype is None
        }
    &&& opt_view(s.enclosing_function_name) == Some(m.signature@)
    &&& opt_view(s.enclosing_class_name) == match m.namespace {
        Namespace::Class(c) => Some(c@),
        Namespace::Module(_) => None,
    }
    &&& opt_view(s.enclosing_function_hash) == Some(m.hash@)
    &&& !s.is_self_invoke
    &&& !s.is_super_invoke
    &&& s.invoked_on is None
}

/// The call statements a callable's body makes, one per call node in
/// pre-order.
pub open spec fn calls_match(r: Seq<CallStatement>, body: GoNode, m: Callable) -> bool {
    let cn = call_nodes(crate::go::endpoints::preorder(body), crate::go::endpoints::preorder(body).len() as int);
    r.len() == cn.len() && forall|i: int| 0 <= i < cn.len() ==> call_statement_of(cn[i], m, #[trigger] r[i])
}

/// The arguments of a call node, each by its text.
pub fn parse_arguments(args: &[GoNode]) -> (r: Vec<Argument>)
    ensures
        r@.len() == args@.len(),
        forall|i: int|
            0 <= i < args@.len() ==> {
                &&& (#[trigger] r@[i]).value@ == normalize_whitespace(args@[i].text@)
                &&& r@[i].assigned_variable@ == Seq::<char>::empty()
                &&& r@[i].datatype is None
            },
{
    let mut out: Vec<Argument> = Vec::new();
    let mut i: usize = 0;
    while i < args.len()
        invariant
            i <= args@.len(),
            out@.len() == i,
            forall|j: int|
                0 <= j < i ==> {
                    &&& (#[trigger] out@[j]).value@ == normalize_whitespace(args@[j].text@)
                    &&& out@[j].assigned_variable@ == Seq::<char>::empty()
                    &&& out@[j].datatype is None
                },
        decreases args.len() - i,
    {
        let empty = String::new();
        out.push(Argument { assigned_variable: empty, value: normalized_text(&args[i]), datatype: None });
        i = i + 1;
    }
    out
}

/// The call statements a callable's body makes, in pre-order.
pub fn collect_call_statements(body: &GoNode, m: &Callable) -> (r: Vec<CallStatement>)
    ensures
        calls_match(r@, *body, *m),
{
    let mut nodes: Vec<&GoNode> = Vec::new();
    crate::go::endpoints::collect_preorder(body, &mut nodes);
    let ghost pre = crate::go::endpoints::preorder(*body);
    assert(crate::go::endpoints::derefs(nodes@) =~= pre);
    let mut out: Vec<CallStatement> = Vec::new();
    let mut i: usize = 0;
    while i < nodes.len()
        invariant
            i <= nodes@.len(),
            pre == crate::go::endpoints::derefs(nodes@),
            out@.len() == call_nodes(pre, i as int).len(),
            forall|j: int| 0 <= j < out@.len() ==> call_statement_of(call_nodes(pre, i as int)[j], *m, #[trigger] out@[j]),
        decreases nodes.len() - i,
    {
        let n = nodes[i];
        assert(pre[i as int] == *n);
        if is_kind(n, "call_expression") {
            if let Some(fi) = child_by_field_name(n, "function") {
                let args = parse_arguments(crate::go::syntax::call_arguments(n));
                let class = match &m.namespace {
                    Namespace::Class(c) => Some(c.clone()),
                    Namespace::Module(_) => None,
                };
                let s = CallStatement {
                    function_name: normalized_text(&n.named[fi]),
                    arguments: args,
                    enclosing_function_name: Some(m.signature.clone()),
                    enclosing_class_name: class,
                    enclosing_function_hash: Some(m.hash.clone()),
                    is_self_invoke: false,
                    is_super_invoke: false,
                    invoked_on: None,
                    source_span: crate::model::SourceSpan { start: 0, end: 0 },
                };
                let ghost before = out@;
                out.push(s);
                assert(call_nodes(pre, i + 1) == call_nodes(pre, i as int).push(*n));
                assert forall|j: int| 0 <= j < out@.len() implies call_statement_of(call_nodes(pre, i + 1)[j], *m, #[trigger] out@[j]) by {
                    if j < before.len() {
                        assert(out@[j] == before[j]);
                        assert(call_nodes(pre, i + 1)[j] == call_nodes(pre, i as int)[j]);
                    }
                }
            }
        }
        i = i + 1;
    }
    out
}

} // verus!
