//! Declared parameter lists of Java methods and constructors.
use vstd::prelude::*;

use crate::model::{opt_view, parameters_view, Parameter};
use crate::text::{
    is_space, last_space_below, slice_chars, string_of, strip_prefix, strip_prefix_exec, strip_suffix,
    strip_suffix_exec, trim, trim_exec, one,
};

verus! {

/// The pieces of a parameter list between top-level commas (outside
/// `<...>`, `(...)` and `{...}`), trimmed, empty ones dropped, scanning
/// from `i`.
pub open spec fn param_scan(s: Seq<char>, i: nat, depth: nat, start: nat) -> Seq<Seq<char>>
    decreases s.len() - i,
{
    if i >= s.len() {
        let piece = trim(s.subrange(start as int, s.len() as int));
        if piece.len() > 0 {
            seq![piece]
        } else {
            Seq::empty()
        }
    } else {
        let c = s[i as int];
        if c == '<' || c == '(' || c == '{' {
            param_scan(s, i + 1, depth + 1, start)
        } else if c == '>' || c == ')' || c == '}' {
            param_scan(s, i + 1, if depth == 0 { 0 } else { (depth - 1) as nat }, start)
        } else if c == ',' && depth == 0 {
            let piece = trim(s.subrange(start as int, i as int));
            (if piece.len() > 0 {
                seq![piece]
            } else {
                Seq::empty()
            }) + param_scan(s, i + 1, depth, i + 1)
        } else {
            param_scan(s, i + 1, depth, start)
        }
    }
}

/// The text inside the outer parentheses of a parameter list (a missing
/// one of the two is tolerated).
pub open spec fn params_inner(params: Seq<char>) -> Seq<char> {
    let t = trim(params);
    let a = match strip_prefix(t, seq!['(']) {
        Some(x) => x,
        None => t,
    };
    match strip_suffix(a, seq![')']) {
        Some(x) => x,
        None => a,
    }
}

/// A declared parameter: its last word is the name and the text before it,
/// when there is any, the type.
pub open spec fn parameter_of(piece: Seq<char>) -> (Seq<char>, Option<Seq<char>>, Option<Seq<char>>) {
    let k = last_space_below(piece, piece.len() as int);
    if k < 0 {
        (piece, None, None)
    } else {
        (piece.skip(k + 1), Some(trim(piece.take(k))), None)
    }
}

/// The parameters a declared parameter list such as
/// `(String name, Map<String, Integer> counts)` declares, in order.
pub open spec fn callable_params(params: Seq<char>) -> Seq<(Seq<char>, Option<Seq<char>>, Option<Seq<char>>)> {
    param_scan(params_inner(params), 0, 0, 0).map_values(|p: Seq<char>| parameter_of(p))
}

fn parameter_of_exec(piece: &[char]) -> (r: Parameter)
    ensures
        crate::model::parameter_view(r) == parameter_of(piece@),
{
    let n = piece.len();
    let mut k: usize = n;
    while k > 0 && !crate::text::is_whitespace(piece[k - 1])
        invariant
            n == piece@.len(),
            k <= n,
            last_space_below(piece@, n as int) == last_space_below(piece@, k as int),
        decreases k,
    {
        k = k - 1;
    }
    if k == 0 {
        Parameter { name: string_of(piece), datatype: None, initial_value: None }
    } else {
        assert(last_space_below(piece@, n as int) == k - 1);
        Parameter {
            name: string_of(&slice_chars(piece, k, n)),
            datatype: Some(string_of(&trim_exec(&slice_chars(piece, 0, k - 1)))),
            initial_value: None,
        }
    }
}

/// Parses a declared parameter list: split at top-level commas, each piece
/// a type followed by a name.
pub fn parse_callable_params(params: &str) -> (r: Vec<Parameter>)
    ensures
        parameters_view(r@) == callable_params(params@),
{
    let t = trim_exec(&crate::text::chars_of(params));
    let a = match strip_prefix_exec(&t, &one('(')) {
        Some(x) => x,
        None => t,
    };
    let s = match strip_suffix_exec(&a, &one(')')) {
        Some(x) => x,
        None => a,
    };
    let n = s.len();
    let ghost whole = param_scan(s@, 0, 0, 0);
    let mut parts: Vec<Parameter> = Vec::new();
    let mut depth: usize = 0;
    let mut start: usize = 0;
    let mut i: usize = 0;
    while i < n
        invariant
            n == s@.len(),
            i <= n,
            start <= i,
            depth <= i,
            whole == param_scan(s@, 0, 0, 0),
            whole.map_values(|p: Seq<char>| parameter_of(p)) == parameters_view(parts@) + param_scan(
                s@,
                i as nat,
                depth as nat,
                start as nat,
            ).map_values(|p: Seq<char>| parameter_of(p)),
        decreases n - i,
    {
        let c = s[i];
        if c == '<' || c == '(' || c == '{' {
            depth = depth + 1;
        } else if c == '>' || c == ')' || c == '}' {
            if depth > 0 {
                depth = depth - 1;
            }
        } else if c == ',' && depth == 0 {
            let piece = trim_exec(&slice_chars(&s, start, i));
            let ghost before = parameters_view(parts@);
            let ghost rest = param_scan(s@, (i + 1) as nat, 0, (i + 1) as nat);
            if piece.len() > 0 {
                parts.push(parameter_of_exec(&piece));
                assert(parameters_view(parts@) =~= before + seq![parameter_of(piece@)]);
                assert((seq![piece@] + rest).map_values(|p: Seq<char>| parameter_of(p)) =~= seq![
                    parameter_of(piece@),
                ] + rest.map_values(|p: Seq<char>| parameter_of(p)));
            } else {
                assert((Seq::<Seq<char>>::empty() + rest) =~= rest);
            }
            start = i + 1;
        }
        i = i + 1;
    }
    let piece = trim_exec(&slice_chars(&s, start, n));
    let ghost before = parameters_view(parts@);
    if piece.len() > 0 {
        parts.push(parameter_of_exec(&piece));
        assert(parameters_view(parts@) =~= before + seq![parameter_of(piece@)]);
        assert(seq![piece@].map_values(|p: Seq<char>| parameter_of(p)) =~= seq![parameter_of(piece@)]);
    } else {
        assert(Seq::<Seq<char>>::empty().map_values(|p: Seq<char>| parameter_of(p)) =~= Seq::empty());
        assert(parameters_view(parts@) =~= before + Seq::empty());
    }
    parts
}

proof fn lemma_param_scan_pieces(s: Seq<char>, i: nat, depth: nat, start: nat)
    ensures
        forall|j: int|
            0 <= j < param_scan(s, i, depth, start).len() ==> (#[trigger] param_scan(s, i, depth, start)[j]).len()
                > 0 && !is_space(param_scan(s, i, depth, start)[j].last()),
    decreases s.len() - i,
{
    if i >= s.len() {
        crate::text::lemma_trim_idempotent(s.subrange(start as int, s.len() as int));
        let piece = trim(s.subrange(start as int, s.len() as int));
        if piece.len() > 0 {
            assert(param_scan(s, i, depth, start)[0] == piece);
        }
    } else {
        let c = s[i as int];
        if c == '<' || c == '(' || c == '{' {
            lemma_param_scan_pieces(s, i + 1, depth + 1, start);
            assert(param_scan(s, i, depth, start) == param_scan(s, i + 1, depth + 1, start));
        } else if c == '>' || c == ')' || c == '}' {
            let d: nat = if depth == 0 { 0 } else { (depth - 1) as nat };
            lemma_param_scan_pieces(s, i + 1, d, start);
            assert(param_scan(s, i, depth, start) == param_scan(s, i + 1, d, start));
        } else if c == ',' && depth == 0 {
            lemma_param_scan_pieces(s, i + 1, depth, i + 1);
            crate::text::lemma_trim_idempotent(s.subrange(start as int, i as int));
            let piece = trim(s.subrange(start as int, i as int));
            let rest = param_scan(s, i + 1, depth, i + 1);
            let head: Seq<Seq<char>> = if piece.len() > 0 {
                seq![piece]
            } else {
                Seq::empty()
            };
            let all = param_scan(s, i, depth, start);
            assert(all == head + rest);
            assert forall|j: int| 0 <= j < all.len() implies (#[trigger] all[j]).len() > 0 && !is_space(
                all[j].last(),
            ) by {
                if j < head.len() {
                    assert(all[j] == piece);
                } else {
                    assert(all[j] == rest[j - head.len()]);
                }
            }
        } else {
            lemma_param_scan_pieces(s, i + 1, depth, start);
            assert(param_scan(s, i, depth, start) == param_scan(s, i + 1, depth, start));
        }
    }
}

proof fn lemma_last_space_below(s: Seq<char>, n: int)
    requires
        0 <= n <= s.len(),
    ensures
        -1 <= last_space_below(s, n) < n,
        last_space_below(s, n) >= 0 ==> is_space(s[last_space_below(s, n)]),
        forall|j: int| last_space_below(s, n) < j < n ==> !is_space(#[trigger] s[j]),
    decreases n,
{
    if n > 0 && !is_space(s[n - 1]) {
        lemma_last_space_below(s, n - 1);
    }
}

/// A text without whitespace.
pub open spec fn no_space(t: Seq<char>) -> bool {
    forall|j: int| 0 <= j < t.len() ==> !is_space(#[trigger] t[j])
}

/// Every parameter read from a declared parameter list has a non-empty name
/// without whitespace.
pub proof fn lemma_parameter_names(params: Seq<char>)
    ensures
        forall|i: int|
            0 <= i < callable_params(params).len() ==> (#[trigger] callable_params(params)[i]).0.len() > 0
                && no_space(callable_params(params)[i].0),
{
    let pieces = param_scan(params_inner(params), 0, 0, 0);
    lemma_param_scan_pieces(params_inner(params), 0, 0, 0);
    assert forall|i: int| 0 <= i < callable_params(params).len() implies (#[trigger] callable_params(
        params,
    )[i]).0.len() > 0 && no_space(callable_params(params)[i].0) by {
        let p = pieces[i];
        assert(callable_params(params)[i] == parameter_of(p));
        lemma_last_space_below(p, p.len() as int);
        let k = last_space_below(p, p.len() as int);
        assert(!is_space(p[p.len() - 1]));
        assert(k < p.len() - 1);
        let name = parameter_of(p).0;
        assert forall|j: int| 0 <= j < name.len() implies !is_space(#[trigger] name[j]) by {
            if k < 0 {
                assert(name[j] == p[j]);
            } else {
                assert(name[j] == p[k + 1 + j]);
            }
        }
    }
}

} // verus!
