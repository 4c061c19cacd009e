//! Evaluation of Go expression text against bound names: concatenation,
//! `fmt.Sprintf`, path helpers, map lookups and selector references.
use vstd::prelude::*;

use crate::bindings::Bindings;
use crate::model::{method_named, method_named_exec, opt_view, HttpMethod};
use crate::text::{
    after_last, after_last_exec, chars_of, ends_with, ends_with_exec, find, find_char_exec,
    is_ascii_alpha, is_ascii_alnum_exec, one, rfind, rfind_char_exec, slice_chars, starts_with,
    starts_with_exec, strip_prefix, strip_prefix_exec, strip_quotes, strip_quotes_exec,
    strip_suffix, strip_suffix_exec, trim, trim_end_str, trim_end_str_exec, trim_exec, views,
    before_first, before_first_exec, contains, contains_exec, last_word, last_word_exec,
    split_once, split_once_exec, trim_str, trim_str_exec, upper, upper_exec,
};

verus! {

/// An opening bracket: `(` alone, or with `all` also `[` and `{`.
pub open spec fn opens_group(c: char, all: bool) -> bool {
    c == '(' || (all && (c == '[' || c == '{'))
}

/// A closing bracket: `)` alone, or with `all` also `]` and `}`.
pub open spec fn closes_group(c: char, all: bool) -> bool {
    c == ')' || (all && (c == ']' || c == '}'))
}

/// What a left-to-right scan knows before a character: whether it is
/// inside a string literal, the quote that opened it, and the bracket
/// depth (parentheses only, or all brackets when `all`).
pub open spec fn scan_step(st: (bool, char, int), c: char, all: bool) -> (bool, char, int) {
    if c == '"' || c == '`' {
        if !st.0 {
            (true, c, st.2)
        } else if c == st.1 {
            (false, st.1, st.2)
        } else {
            st
        }
    } else if opens_group(c, all) && !st.0 {
        (st.0, st.1, st.2 + 1)
    } else if closes_group(c, all) && !st.0 {
        (st.0, st.1, st.2 - 1)
    } else {
        st
    }
}

/// The scan state after the first `i` characters of `s`.
pub open spec fn scan_state(s: Seq<char>, i: int, all: bool) -> (bool, char, int)
    decreases i,
{
    if i <= 0 {
        (false, '\0', 0)
    } else {
        scan_step(scan_state(s, i - 1, all), s[i - 1], all)
    }
}

/// `d` at `i` separates two top-level pieces: it stands outside string
/// literals and brackets.
pub open spec fn is_cut(s: Seq<char>, d: char, i: int, all: bool) -> bool {
    0 <= i < s.len() && s[i] == d && !scan_state(s, i, all).0 && scan_state(s, i, all).2 == 0
}

/// The positions of the top-level `d` among the first `n` characters.
pub open spec fn cuts(s: Seq<char>, d: char, n: int, all: bool) -> Seq<int>
    decreases n,
{
    if n <= 0 {
        Seq::empty()
    } else if is_cut(s, d, n - 1, all) {
        cuts(s, d, n - 1, all).push(n - 1)
    } else {
        cuts(s, d, n - 1, all)
    }
}

pub open spec fn piece_start(c: Seq<int>, j: int) -> int {
    if j == 0 {
        0
    } else {
        c[j - 1] + 1
    }
}

pub open spec fn piece_end(c: Seq<int>, j: int, n: int) -> int {
    if j == c.len() {
        n
    } else {
        c[j]
    }
}

/// The trimmed pieces of `s` between its top-level occurrences of `d`.
pub open spec fn pieces(s: Seq<char>, d: char, all: bool) -> Seq<Seq<char>> {
    let c = cuts(s, d, s.len() as int, all);
    Seq::new(
        c.len() + 1,
        |j: int| trim(s.subrange(piece_start(c, j), piece_end(c, j, s.len() as int))),
    )
}

proof fn lemma_cuts(s: Seq<char>, d: char, n: int, all: bool)
    requires
        0 <= n <= s.len(),
    ensures
        forall|j: int| 0 <= j < cuts(s, d, n, all).len() ==> 0 <= #[trigger] cuts(s, d, n, all)[j] < n,
        forall|a: int, b: int|
            0 <= a < b < cuts(s, d, n, all).len() ==> #[trigger] cuts(s, d, n, all)[a]
                < #[trigger] cuts(s, d, n, all)[b],
    decreases n,
{
    if n > 0 {
        lemma_cuts(s, d, n - 1, all);
        let p = cuts(s, d, n - 1, all);
        if is_cut(s, d, n - 1, all) {
            let q = p.push(n - 1);
            assert(cuts(s, d, n, all) == q);
            assert forall|a: int, b: int| 0 <= a < b < q.len() implies #[trigger] q[a] < #[trigger] q[b] by {
                if b < p.len() {
                    assert(q[a] == p[a] && q[b] == p[b]);
                } else {
                    assert(q[a] == p[a]);
                }
            }
            assert forall|j: int| 0 <= j < q.len() implies 0 <= #[trigger] q[j] < n by {
                if j < p.len() {
                    assert(q[j] == p[j]);
                }
            }
        }
    }
}

/// The pieces of `s` between top-level `d`, each trimmed, and whether
/// there was any such `d`.
pub fn split_top_level_pieces(s: &[char], d: char, all: bool) -> (r: (Vec<Vec<char>>, bool))
    requires
        d != '"' && d != '`' && !opens_group(d, all) && !closes_group(d, all),
    ensures
        views(r.0@) == pieces(s@, d, all),
        r.1 == (cuts(s@, d, s@.len() as int, all).len() > 0),
{
    let n = s.len();
    let mut parts: Vec<Vec<char>> = Vec::new();
    let mut in_string = false;
    let mut quote = '\0';
    let mut opens: usize = 0;
    let mut closes: usize = 0;
    let mut start: usize = 0;
    let mut i: usize = 0;
    while i < n
        invariant
            n == s@.len(),
            d != '"' && d != '`' && !opens_group(d, all) && !closes_group(d, all),
            i <= n,
            opens <= i,
            closes <= i,
            in_string == scan_state(s@, i as int, all).0,
            quote == scan_state(s@, i as int, all).1,
            opens - closes == scan_state(s@, i as int, all).2,
            parts@.len() == cuts(s@, d, i as int, all).len(),
            forall|j: int|
                0 <= j < parts@.len() ==> (#[trigger] parts@[j])@ == trim(
                    s@.subrange(
                        piece_start(cuts(s@, d, i as int, all), j),
                        cuts(s@, d, i as int, all)[j],
                    ),
                ),
            start == piece_start(cuts(s@, d, i as int, all), parts@.len() as int),
            start <= i,
        decreases n - i,
    {
        proof {
            lemma_cuts(s@, d, i as int, all);
        }
        let ch = s[i];
        let ghost before = cuts(s@, d, i as int, all);
        let opening = ch == '(' || (all && (ch == '[' || ch == '{'));
        let closing = ch == ')' || (all && (ch == ']' || ch == '}'));
        if ch == '"' || ch == '`' {
            if !in_string {
                in_string = true;
                quote = ch;
            } else if ch == quote {
                in_string = false;
            }
        } else if opening && !in_string {
            opens = opens + 1;
        } else if closing && !in_string {
            closes = closes + 1;
        } else if ch == d && !in_string && opens == closes {
            let piece = trim_exec(&slice_chars(s, start, i));
            parts.push(piece);
            start = i + 1;
        }
        proof {
            let after = cuts(s@, d, i + 1, all);
            if is_cut(s@, d, i as int, all) {
                assert(after == before.push(i as int));
                assert forall|j: int| 0 <= j < parts@.len() implies (#[trigger] parts@[j])@ == trim(
                    s@.subrange(piece_start(after, j), after[j]),
                ) by {
                    if j < before.len() {
                        assert(after[j] == before[j]);
                        if j > 0 {
                            assert(after[j - 1] == before[j - 1]);
                        }
                    }
                }
            } else {
                assert(after == before);
            }
        }
        i = i + 1;
    }
    proof {
        lemma_cuts(s@, d, n as int, all);
    }
    let tail = trim_exec(&slice_chars(s, start, n));
    let saw = parts.len() > 0;
    parts.push(tail);
    proof {
        let c = cuts(s@, d, n as int, all);
        assert(views(parts@) =~= pieces(s@, d, all)) by {
            assert forall|j: int| 0 <= j < parts@.len() implies views(parts@)[j] == pieces(s@, d, all)[j] by {
                if j < c.len() {
                    assert(piece_end(c, j, n as int) == c[j]);
                }
            }
        }
    }
    (parts, saw)
}

/// The pieces around top-level `+` signs, when there is one.
pub open spec fn split_top_level_plus(s: Seq<char>) -> Option<Seq<Seq<char>>> {
    if cuts(s, '+', s.len() as int, false).len() > 0 {
        Some(pieces(s, '+', false))
    } else {
        None
    }
}

/// The arguments of an argument text: the pieces around top-level commas
/// (outside parentheses, or outside all brackets when `all`), each
/// trimmed, without an empty last one.
pub open spec fn split_arguments(s: Seq<char>, all: bool) -> Seq<Seq<char>> {
    let p = pieces(s, ',', all);
    if p.last().len() == 0 {
        p.drop_last()
    } else {
        p
    }
}

/// The arguments of a call's argument text, split outside parentheses.
pub open spec fn split_argument_text(s: Seq<char>) -> Seq<Seq<char>> {
    split_arguments(s, false)
}

pub fn split_top_level_plus_exec(s: &[char]) -> (r: Option<Vec<Vec<char>>>)
    ensures
        r matches Some(v) ==> split_top_level_plus(s@) == Some(views(v@)),
        r is None ==> split_top_level_plus(s@) is None,
{
    let (parts, saw) = split_top_level_pieces(s, '+', false);
    if saw {
        Some(parts)
    } else {
        None
    }
}

pub fn split_arguments_exec(s: &[char], all: bool) -> (r: Vec<Vec<char>>)
    ensures
        views(r@) == split_arguments(s@, all),
{
    let (mut parts, _) = split_top_level_pieces(s, ',', all);
    assert(views(parts@).len() == parts@.len());
    let k = parts.len() - 1;
    if parts[k].len() == 0 {
        let _ = parts.pop();
        assert(views(parts@) =~= pieces(s@, ',', all).drop_last());
    }
    parts
}

pub fn split_argument_text_exec(s: &[char]) -> (r: Vec<Vec<char>>)
    ensures
        views(r@) == split_argument_text(s@),
{
    split_arguments_exec(s, false)
}

/// The first ASCII letter at or after `i`.
pub open spec fn first_alpha_from(f: Seq<char>, i: int) -> Option<int>
    decreases f.len() - i,
{
    if i < 0 || i >= f.len() {
        None
    } else if is_ascii_alpha(f[i]) {
        Some(i)
    } else {
        first_alpha_from(f, i + 1)
    }
}

pub proof fn lemma_first_alpha_from(f: Seq<char>, i: int)
    requires
        0 <= i,
    ensures
        first_alpha_from(f, i) matches Some(j) ==> i <= j < f.len() && is_ascii_alpha(f[j]),
    decreases f.len() - i,
{
    if i < f.len() && !is_ascii_alpha(f[i]) {
        lemma_first_alpha_from(f, i + 1);
    }
}

/// A `fmt` verb that takes an argument and shows it as text.
pub open spec fn is_text_verb(c: char) -> bool {
    c == 's' || c == 'd' || c == 'v' || c == 'q'
}

pub open spec fn arg_or_empty(args: Seq<Seq<char>>, k: int) -> Seq<char> {
    if 0 <= k < args.len() {
        args[k]
    } else {
        Seq::empty()
    }
}

/// `fmt.Sprintf` on texts, from position `i` of the format with `k`
/// arguments used: `%%` is a percent sign, `%s`, `%d`, `%v` and `%q` take
/// the next argument without quotes, other verbs show nothing.
pub open spec fn sprintf_from(f: Seq<char>, i: int, args: Seq<Seq<char>>, k: int) -> Seq<char>
    decreases f.len() - i,
{
    if i < 0 || i >= f.len() {
        Seq::empty()
    } else if f[i] != '%' {
        seq![f[i]] + sprintf_from(f, i + 1, args, k)
    } else if i + 1 < f.len() && f[i + 1] == '%' {
        seq!['%'] + sprintf_from(f, i + 2, args, k)
    } else {
        match first_alpha_from(f, i + 1) {
            None => Seq::empty(),
            Some(j) => {
                proof {
                    lemma_first_alpha_from(f, i + 1);
                }
                if is_text_verb(f[j]) {
                    strip_quotes(trim(arg_or_empty(args, k))) + sprintf_from(f, j + 1, args, k + 1)
                } else {
                    sprintf_from(f, j + 1, args, k)
                }
            },
        }
    }
}

pub open spec fn sprintf(f: Seq<char>, args: Seq<Seq<char>>) -> Seq<char> {
    sprintf_from(f, 0, args, 0)
}

pub fn apply_sprintf(format: &[char], args: &Vec<Vec<char>>) -> (r: Vec<char>)
    ensures
        r@ == sprintf(format@, views(args@)),
{
    let n = format.len();
    let ghost a = views(args@);
    let mut r: Vec<char> = Vec::new();
    let mut i: usize = 0;
    let mut k: usize = 0;
    while i < n
        invariant
            n == format@.len(),
            a == views(args@),
            i <= n,
            k <= i,
            r@ + sprintf_from(format@, i as int, a, k as int) == sprintf(format@, a),
        decreases n - i,
    {
        let ch = format[i];
        if ch != '%' {
            r.push(ch);
            i = i + 1;
            assert(r@ + sprintf_from(format@, i as int, a, k as int) == sprintf(format@, a)) by {
                assert(r@ =~= r@.drop_last() + seq![ch]);
            }
        } else if i + 1 < n && format[i + 1] == '%' {
            r.push('%');
            i = i + 2;
            assert(r@ + sprintf_from(format@, i as int, a, k as int) == sprintf(format@, a)) by {
                assert(r@ =~= r@.drop_last() + seq!['%']);
            }
        } else {
            proof {
                lemma_first_alpha_from(format@, i + 1);
            }
            let mut j: usize = i + 1;
            while j < n && !(('A' <= format[j] && format[j] <= 'Z') || ('a' <= format[j] && format[j] <= 'z'))
                invariant
                    n == format@.len(),
                    i + 1 <= j <= n,
                    first_alpha_from(format@, i + 1) == first_alpha_from(format@, j as int),
                decreases n - j,
            {
                j = j + 1;
            }
            if j >= n {
                assert(r@ + sprintf_from(format@, n as int, a, k as int) == sprintf(format@, a)) by {
                    assert(r@ + Seq::<char>::empty() =~= r@);
                }
                i = n;
            } else {
                let v = format[j];
                if v == 's' || v == 'd' || v == 'v' || v == 'q' {
                    let value: Vec<char> = if k < args.len() {
                        slice_chars(&args[k], 0, args[k].len())
                    } else {
                        Vec::new()
                    };
                    assert(value@ =~= arg_or_empty(a, k as int));
                    let shown = strip_quotes_exec(&trim_exec(&value));
                    let ghost r0 = r@;
                    crate::text::append_chars(&mut r, &shown);
                    k = k + 1;
                    assert(r@ + sprintf_from(format@, j + 1, a, k as int) == sprintf(format@, a)) by {
                        assert(r0 + (shown@ + sprintf_from(format@, j + 1, a, k as int)) =~= r@
                            + sprintf_from(format@, j + 1, a, k as int));
                    }
                }
                i = j + 1;
            }
        }
    }
    assert(r@ =~= r@ + Seq::<char>::empty());
    r
}

/// `m[k]`: the map's name and the key text, when the text has a `[` and a
/// later `]` with something between them.
pub open spec fn parse_index_expression(e: Seq<char>) -> Option<(Seq<char>, Seq<char>)> {
    match (find(e, seq!['[']), rfind(e, seq![']'])) {
        (Some(o), Some(c)) => if c <= o + 1 {
            None
        } else {
            Some((trim(e.take(o)), trim(e.subrange(o + 1, c))))
        },
        _ => None,
    }
}

pub fn parse_index_expression_exec(e: &[char]) -> (r: Option<(Vec<char>, Vec<char>)>)
    ensures
        r matches Some(p) ==> parse_index_expression(e@) == Some((p.0@, p.1@)),
        r is None ==> parse_index_expression(e@) is None,
{
    proof {
        crate::text::lemma_find(e@, seq!['[']);
        crate::text::lemma_rfind(e@, seq![']']);
    }
    let o = match find_char_exec(e, '[') {
        Some(o) => o,
        None => return None,
    };
    let c = match rfind_char_exec(e, ']') {
        Some(c) => c,
        None => return None,
    };
    let n = e.len();
    assert(o + 1 <= n);
    if c <= o + 1 {
        return None;
    }
    Some((trim_exec(&slice_chars(e, 0, o)), trim_exec(&slice_chars(e, o + 1, c))))
}

/// `k` is bound in `m` and ends with `suffix`.
pub open spec fn suffix_match(m: Map<Seq<char>, Seq<char>>, suffix: Seq<char>, k: Seq<char>) -> bool {
    m.contains_key(k) && ends_with(k, suffix)
}

/// The value of the one bound name that ends with `suffix`, when exactly
/// one does.
pub open spec fn unique_suffix_value(m: Map<Seq<char>, Seq<char>>, suffix: Seq<char>) -> Option<
    Seq<char>,
> {
    if exists|k: Seq<char>|
        #[trigger] suffix_match(m, suffix, k) && forall|k2: Seq<char>|
            #[trigger] suffix_match(m, suffix, k2) ==> k2 == k {
        Some(
            m[choose|k: Seq<char>|
                #[trigger] suffix_match(m, suffix, k) && forall|k2: Seq<char>|
                    #[trigger] suffix_match(m, suffix, k2) ==> k2 == k],
        )
    } else {
        None
    }
}

/// The value an expression names: the value bound to the trimmed text, or
/// else the value of the one name that ends with `.` and the text's last
/// selector.
pub open spec fn resolve_scope(e: Seq<char>, m: Map<Seq<char>, Seq<char>>) -> Option<Seq<char>> {
    let t = trim(e);
    if m.contains_key(t) {
        Some(m[t])
    } else {
        unique_suffix_value(m, seq!['.'] + after_last(t, '.'))
    }
}

fn unique_suffix_value_exec(scope: &Bindings, suffix: &[char]) -> (r: Option<Vec<char>>)
    ensures
        r matches Some(v) ==> unique_suffix_value(scope@, suffix@) == Some(v@),
        r is None ==> unique_suffix_value(scope@, suffix@) is None,
{
    let n = scope.len();
    let ghost keys = scope.keys();
    let ghost m = scope@;
    let mut found: usize = 0;
    let mut count: usize = 0;
    let mut i: usize = 0;
    while i < n
        invariant
            n == keys.len(),
            keys == scope.keys(),
            m == scope@,
            forall|k: Seq<char>| m.contains_key(k) <==> keys.contains(k),
            keys.no_duplicates(),
            i <= n,
            count <= 1,
            count == 0 ==> forall|j: int| 0 <= j < i ==> !ends_with(#[trigger] keys[j], suffix@),
            count == 1 ==> found < i && ends_with(keys[found as int], suffix@) && forall|j: int|
                0 <= j < i && j != found ==> !ends_with(#[trigger] keys[j], suffix@),
        decreases n - i,
    {
        let key = scope.key_at(i);
        if ends_with_exec(&chars_of(key.as_str()), suffix) {
            if count == 1 {
                proof {
                    let k1 = keys[found as int];
                    let k2 = keys[i as int];
                    assert(keys.contains(k1));
                    assert(keys.contains(k2));
                    assert(k1 != k2);
                    assert(suffix_match(m, suffix@, k1));
                    assert(suffix_match(m, suffix@, k2));
                    assert forall|k: Seq<char>| #[trigger] suffix_match(m, suffix@, k) implies !(
                    forall|q: Seq<char>| #[trigger] suffix_match(m, suffix@, q) ==> q == k) by {
                        if k == k1 {
                            assert(suffix_match(m, suffix@, k2));
                        } else {
                            assert(suffix_match(m, suffix@, k1));
                        }
                    }
                }
                return None;
            }
            count = 1;
            found = i;
        }
        i = i + 1;
    }
    if count == 0 {
        proof {
            assert forall|k: Seq<char>| !#[trigger] suffix_match(m, suffix@, k) by {
                if m.contains_key(k) {
                    assert(keys.contains(k));
                    let j = choose|j: int| 0 <= j < keys.len() && keys[j] == k;
                    assert(!ends_with(keys[j], suffix@));
                }
            }
        }
        return None;
    }
    let value = scope.value_at(found);
    proof {
        let k1 = keys[found as int];
        assert(keys.contains(k1));
        assert(suffix_match(m, suffix@, k1));
        assert forall|q: Seq<char>| #[trigger] suffix_match(m, suffix@, q) implies q == k1 by {
            assert(keys.contains(q));
            let j = choose|j: int| 0 <= j < keys.len() && keys[j] == q;
            if j != found {
                assert(!ends_with(keys[j], suffix@));
            }
        }
        let c = choose|k: Seq<char>|
            #[trigger] suffix_match(m, suffix@, k) && forall|k2: Seq<char>|
                #[trigger] suffix_match(m, suffix@, k2) ==> k2 == k;
        assert(c == k1);
    }
    Some(chars_of(value.as_str()))
}

pub fn resolve_scope_value(e: &[char], scope: &Bindings) -> (r: Option<Vec<char>>)
    ensures
        r matches Some(v) ==> resolve_scope(e@, scope@) == Some(v@),
        r is None ==> resolve_scope(e@, scope@) is None,
{
    let t = trim_exec(e);
    match scope.get(&t) {
        Some(v) => Some(chars_of(v.as_str())),
        None => {
            let field = after_last_exec(&t, '.');
            let mut suffix: Vec<char> = Vec::new();
            suffix.push('.');
            crate::text::append_chars(&mut suffix, &field);
            assert(suffix@ =~= seq!['.'] + after_last(t@, '.'));
            unique_suffix_value_exec(scope, &suffix)
        },
    }
}

pub fn is_token_char(c: char) -> (r: bool)
    ensures
        r == token_char(c),
{
    is_ascii_alnum_exec(c) || c == '_' || c == '.'
}

/// A character of a name or selector: ASCII letter or digit, `_` or `.`.
pub open spec fn token_char(c: char) -> bool {
    crate::text::is_ascii_alnum(c) || c == '_' || c == '.'
}

/// The bound on nested evaluations: deeper nesting is left as text.
pub const EVALUATION_DEPTH: usize = 64;

/// The expression text without surrounding whitespace and trailing commas.
pub open spec fn expr_key(e: Seq<char>) -> Seq<char> {
    trim_end_str(trim(e), seq![','])
}

/// A text quoted at both ends with `"` or with `` ` ``.
pub open spec fn is_quoted_literal(t: Seq<char>) -> bool {
    t.len() > 0 && ((t[0] == '"' && t.last() == '"') || (t[0] == '`' && t.last() == '`'))
}

/// The argument text of a one-line call `prefix...)`.
pub open spec fn call_argument(t: Seq<char>, prefix: Seq<char>) -> Option<Seq<char>> {
    match strip_prefix(t, prefix) {
        Some(rest) => strip_suffix(rest, seq![')']),
        None => None,
    }
}

/// The argument text of `request.PathValue(...)` or `PathValue(...)`.
pub open spec fn path_value_argument(t: Seq<char>) -> Option<Seq<char>> {
    let rest = if starts_with(t, "request.PathValue("@) {
        strip_prefix(t, "request.PathValue("@)
    } else {
        strip_prefix(t, "PathValue("@)
    };
    match rest {
        Some(r) => strip_suffix(r, seq![')']),
        None => None,
    }
}

/// The texts joined end to end.
pub open spec fn concat_all(v: Seq<Seq<char>>) -> Seq<char>
    decreases v.len(),
{
    if v.len() == 0 {
        Seq::empty()
    } else {
        concat_all(v.drop_last()) + v.last()
    }
}

/// The end of the run of name characters that starts at `i`.
pub open spec fn token_end(e: Seq<char>, i: int) -> int
    decreases e.len() - i,
{
    if 0 <= i < e.len() && token_char(e[i]) {
        token_end(e, i + 1)
    } else {
        i
    }
}

pub proof fn lemma_token_end(e: Seq<char>, i: int)
    requires
        0 <= i <= e.len(),
    ensures
        i <= token_end(e, i) <= e.len(),
        i < e.len() && token_char(e[i]) ==> i < token_end(e, i),
    decreases e.len() - i,
{
    if i < e.len() && token_char(e[i]) {
        lemma_token_end(e, i + 1);
    }
}

/// The value of an expression text in scope `m`, with the texts in
/// `stack` under evaluation already and at most `fuel` nested steps: a
/// text met again while it is being evaluated stands for itself.
pub open spec fn eval_text(
    e: Seq<char>,
    m: Map<Seq<char>, Seq<char>>,
    stack: Seq<Seq<char>>,
    fuel: nat,
) -> Seq<char>
    decreases fuel, 0nat, 0nat,
{
    let t = expr_key(e);
    if fuel == 0 || stack.contains(t) {
        t
    } else {
        eval_step(t, m, stack.push(t), (fuel - 1) as nat)
    }
}

/// One evaluation step on a trimmed text, by the first form that applies:
/// a bound name or selector, a top-level `+` concatenation, a quoted
/// literal, `url.PathEscape(x)` as `{x}`, `PathValue("x")` as `{x}`,
/// `strings.TrimRight(x, s)`, `fmt.Sprintf(...)`, a map lookup `m[k]`,
/// and last the text with its bound selectors replaced.
pub open spec fn eval_step(
    t: Seq<char>,
    m: Map<Seq<char>, Seq<char>>,
    stack: Seq<Seq<char>>,
    fuel: nat,
) -> Seq<char>
    decreases fuel, 1nat, 0nat,
{
    match resolve_scope(t, m) {
        Some(v) => if trim(v) == t {
            v
        } else {
            eval_text(v, m, stack, fuel)
        },
        None => match split_top_level_plus(t) {
            Some(parts) => concat_all(eval_list(parts, m, stack, fuel)),
            None => if is_quoted_literal(t) {
                strip_quotes(t)
            } else {
                match call_argument(t, "url.PathEscape("@) {
                    Some(inner) => seq!['{'] + trim(inner) + seq!['}'],
                    None => match path_value_argument(t) {
                        Some(inner) => seq!['{'] + strip_quotes(trim(inner)) + seq!['}'],
                        None => match call_argument(t, "strings.TrimRight("@) {
                            Some(inner) => {
                                let parts = split_argument_text(inner);
                                if parts.len() == 2 {
                                    trim_end_str(
                                        eval_text(parts[0], m, stack, fuel),
                                        strip_quotes(trim(parts[1])),
                                    )
                                } else {
                                    t
                                }
                            },
                            None => match call_argument(t, "fmt.Sprintf("@) {
                                Some(inner) => {
                                    let parts = split_argument_text(inner);
                                    if parts.len() > 0 {
                                        sprintf(
                                            eval_text(parts[0], m, stack, fuel),
                                            eval_list(parts.drop_first(), m, stack, fuel),
                                        )
                                    } else {
                                        t
                                    }
                                },
                                None => match parse_index_expression(t) {
                                    Some((name, key)) => {
                                        let full = name + seq!['['] + eval_text(key, m, stack, fuel)
                                            + seq![']'];
                                        if m.contains_key(full) {
                                            m[full]
                                        } else {
                                            t
                                        }
                                    },
                                    None => {
                                        let s = substitute_from(t, 0, m, fuel);
                                        if s != t {
                                            eval_text(s, m, stack, fuel)
                                        } else {
                                            t
                                        }
                                    },
                                },
                            },
                        },
                    },
                }
            },
        },
    }
}

/// Each text evaluated, in order.
pub open spec fn eval_list(
    ps: Seq<Seq<char>>,
    m: Map<Seq<char>, Seq<char>>,
    stack: Seq<Seq<char>>,
    fuel: nat,
) -> Seq<Seq<char>>
    decreases fuel, 0nat, ps.len(),
{
    if ps.len() == 0 {
        Seq::empty()
    } else {
        eval_list(ps.drop_last(), m, stack, fuel).push(eval_text(ps.last(), m, stack, fuel))
    }
}

/// The text from `i` on with each dotted name that resolves to another
/// text replaced by that text's value (evaluated afresh).
pub open spec fn substitute_from(e: Seq<char>, i: int, m: Map<Seq<char>, Seq<char>>, fuel: nat) -> Seq<
    char,
>
    decreases fuel, 0nat, e.len() - i,
{
    if i < 0 || i >= e.len() {
        Seq::empty()
    } else if token_char(e[i]) {
        let j = token_end(e, i);
        proof {
            lemma_token_end(e, i);
        }
        let tok = e.subrange(i, j);
        let shown = match resolve_scope(tok, m) {
            Some(v) => if tok.contains('.') && trim(v) != trim(tok) {
                eval_text(v, m, Seq::empty(), fuel)
            } else {
                tok
            },
            None => tok,
        };
        shown + substitute_from(e, j, m, fuel)
    } else {
        seq![e[i]] + substitute_from(e, i + 1, m, fuel)
    }
}

pub fn seen_contains(seen: &Vec<Vec<char>>, t: &[char]) -> (r: bool)
    ensures
        r == views(seen@).contains(t@),
{
    let mut i: usize = 0;
    while i < seen.len()
        invariant
            i <= seen@.len(),
            forall|j: int| 0 <= j < i ==> views(seen@)[j] != t@,
        decreases seen.len() - i,
    {
        if crate::text::chars_eq(&seen[i], t) {
            assert(views(seen@)[i as int] == t@);
            return true;
        }
        i = i + 1;
    }
    false
}

pub fn concat_all_exec(v: &Vec<Vec<char>>) -> (r: Vec<char>)
    ensures
        r@ == concat_all(views(v@)),
{
    let mut r: Vec<char> = Vec::new();
    let mut i: usize = 0;
    while i < v.len()
        invariant
            i <= v@.len(),
            r@ == concat_all(views(v@).take(i as int)),
        decreases v.len() - i,
    {
        crate::text::append_chars(&mut r, &v[i]);
        assert(views(v@).take(i + 1).drop_last() =~= views(v@).take(i as int));
        i = i + 1;
    }
    assert(views(v@).take(v@.len() as int) =~= views(v@));
    r
}

fn call_argument_exec(t: &[char], prefix: &str) -> (r: Option<Vec<char>>)
    ensures
        r matches Some(v) ==> call_argument(t@, prefix@) == Some(v@),
        r is None ==> call_argument(t@, prefix@) is None,
{
    match strip_prefix_exec(t, &chars_of(prefix)) {
        Some(rest) => strip_suffix_exec(&rest, &one(')')),
        None => None,
    }
}

fn path_value_argument_exec(t: &[char]) -> (r: Option<Vec<char>>)
    ensures
        r matches Some(v) ==> path_value_argument(t@) == Some(v@),
        r is None ==> path_value_argument(t@) is None,
{
    let long = chars_of("request.PathValue(");
    let rest = if starts_with_exec(t, &long) {
        strip_prefix_exec(t, &long)
    } else {
        strip_prefix_exec(t, &chars_of("PathValue("))
    };
    match rest {
        Some(r) => strip_suffix_exec(&r, &one(')')),
        None => None,
    }
}

fn eval_text_exec(e: &[char], scope: &Bindings, seen: &mut Vec<Vec<char>>, fuel: usize) -> (r: Vec<
    char,
>)
    ensures
        r@ == eval_text(e@, scope@, views(old(seen)@), fuel as nat),
        final(seen)@ == old(seen)@,
    decreases fuel, 0nat, 0nat,
{
    let t = trim_end_str_exec(&trim_exec(e), &one(','));
    if fuel == 0 || seen_contains(seen, &t) {
        return t;
    }
    let ghost seen0 = seen@;
    let copy = slice_chars(&t, 0, t.len());
    seen.push(copy);
    assert(seen@ == seen0.push(copy));
    assert(views(seen@) =~= views(seen0).push(t@)) by {
        assert forall|j: int| 0 <= j < seen@.len() implies views(seen@)[j] == views(seen0).push(t@)[j] by {
            if j < seen0.len() {
                assert(seen@[j] == seen0[j]);
            }
        }
    }
    let r = eval_step_exec(&t, scope, seen, fuel - 1);
    let _ = seen.pop();
    assert(seen@ =~= seen0);
    r
}

fn eval_list_exec(ps: &Vec<Vec<char>>, scope: &Bindings, seen: &mut Vec<Vec<char>>, fuel: usize) -> (r:
    Vec<Vec<char>>)
    ensures
        views(r@) == eval_list(views(ps@), scope@, views(old(seen)@), fuel as nat),
        final(seen)@ == old(seen)@,
    decreases fuel, 0nat, ps@.len(),
{
    let ghost seen0 = seen@;
    let ghost p = views(ps@);
    let mut out: Vec<Vec<char>> = Vec::new();
    let mut i: usize = 0;
    while i < ps.len()
        invariant
            i <= ps@.len(),
            p == views(ps@),
            seen@ == seen0,
            views(out@) == eval_list(p.take(i as int), scope@, views(seen0), fuel as nat),
        decreases ps.len() - i,
    {
        let v = eval_text_exec(&ps[i], scope, seen, fuel);
        out.push(v);
        assert(p.take(i + 1).drop_last() =~= p.take(i as int));
        assert(views(out@) =~= eval_list(p.take(i as int), scope@, views(seen0), fuel as nat).push(
            v@,
        ));
        i = i + 1;
    }
    assert(p.take(ps@.len() as int) =~= p);
    out
}

fn substitute_exec(e: &[char], scope: &Bindings, fuel: usize) -> (r: Vec<char>)
    ensures
        r@ == substitute_from(e@, 0, scope@, fuel as nat),
    decreases fuel, 0nat, e@.len(),
{
    let n = e.len();
    let ghost m = scope@;
    let mut r: Vec<char> = Vec::new();
    let mut i: usize = 0;
    while i < n
        invariant
            n == e@.len(),
            m == scope@,
            i <= n,
            r@ + substitute_from(e@, i as int, m, fuel as nat) == substitute_from(
                e@,
                0,
                m,
                fuel as nat,
            ),
        decreases n - i,
    {
        let ghost r0 = r@;
        if is_token_char(e[i]) {
            proof {
                lemma_token_end(e@, i as int);
            }
            let mut j: usize = i + 1;
            while j < n && is_token_char(e[j])
                invariant
                    n == e@.len(),
                    i < j <= n,
                    token_end(e@, i as int) == token_end(e@, j as int),
                decreases n - j,
            {
                j = j + 1;
            }
            let tok = slice_chars(e, i, j);
            let shown = if crate::text::contains_char_exec(&tok, '.') {
                match resolve_scope_value(&tok, scope) {
                    Some(v) => {
                        if !crate::text::chars_eq(&trim_exec(&v), &trim_exec(&tok)) {
                            let mut fresh: Vec<Vec<char>> = Vec::new();
                            assert(views(fresh@) =~= Seq::<Seq<char>>::empty());
                            eval_text_exec(&v, scope, &mut fresh, fuel)
                        } else {
                            tok
                        }
                    },
                    None => tok,
                }
            } else {
                tok
            };
            crate::text::append_chars(&mut r, &shown);
            assert(r@ + substitute_from(e@, j as int, m, fuel as nat) =~= r0 + substitute_from(
                e@,
                i as int,
                m,
                fuel as nat,
            ));
            i = j;
        } else {
            r.push(e[i]);
            assert(r@ + substitute_from(e@, i + 1, m, fuel as nat) =~= r0 + substitute_from(
                e@,
                i as int,
                m,
                fuel as nat,
            ));
            i = i + 1;
        }
    }
    assert(r@ + Seq::<char>::empty() =~= r@);
    r
}

fn eval_step_exec(t: &[char], scope: &Bindings, seen: &mut Vec<Vec<char>>, fuel: usize) -> (r: Vec<
    char,
>)
    ensures
        r@ == eval_step(t@, scope@, views(old(seen)@), fuel as nat),
        final(seen)@ == old(seen)@,
    decreases fuel, 1nat, 0nat,
{
    let n = t.len();
    match resolve_scope_value(t, scope) {
        Some(v) => {
            if crate::text::chars_eq(&trim_exec(&v), t) {
                return v;
            }
            return eval_text_exec(&v, scope, seen, fuel);
        },
        None => {},
    }
    match split_top_level_plus_exec(t) {
        Some(parts) => {
            let vals = eval_list_exec(&parts, scope, seen, fuel);
            return concat_all_exec(&vals);
        },
        None => {},
    }
    if n > 0 && ((t[0] == '"' && t[n - 1] == '"') || (t[0] == '`' && t[n - 1] == '`')) {
        return strip_quotes_exec(t);
    }
    match call_argument_exec(t, "url.PathEscape(") {
        Some(inner) => {
            let mut r = one('{');
            crate::text::append_chars(&mut r, &trim_exec(&inner));
            r.push('}');
            return r;
        },
        None => {},
    }
    match path_value_argument_exec(t) {
        Some(inner) => {
            let mut r = one('{');
            crate::text::append_chars(&mut r, &strip_quotes_exec(&trim_exec(&inner)));
            r.push('}');
            return r;
        },
        None => {},
    }
    match call_argument_exec(t, "strings.TrimRight(") {
        Some(inner) => {
            let parts = split_argument_text_exec(&inner);
            if parts.len() == 2 {
                let base = eval_text_exec(&parts[0], scope, seen, fuel);
                let suffix = strip_quotes_exec(&trim_exec(&parts[1]));
                return trim_end_str_exec(&base, &suffix);
            }
            return slice_chars(t, 0, n);
        },
        None => {},
    }
    match call_argument_exec(t, "fmt.Sprintf(") {
        Some(inner) => {
            let mut rest = split_argument_text_exec(&inner);
            if rest.len() > 0 {
                let ghost parts = views(rest@);
                let first = rest.remove(0);
                assert(views(rest@) =~= parts.drop_first());
                let format = eval_text_exec(&first, scope, seen, fuel);
                let args = eval_list_exec(&rest, scope, seen, fuel);
                return apply_sprintf(&format, &args);
            }
            return slice_chars(t, 0, n);
        },
        None => {},
    }
    match parse_index_expression_exec(t) {
        Some((name, key)) => {
            let k = eval_text_exec(&key, scope, seen, fuel);
            let ghost name0 = name@;
            let mut full = name;
            full.push('[');
            crate::text::append_chars(&mut full, &k);
            full.push(']');
            assert(full@ =~= name0 + seq!['['] + k@ + seq![']']);
            return match scope.get(&full) {
                Some(v) => chars_of(v.as_str()),
                None => slice_chars(t, 0, n),
            };
        },
        None => {},
    }
    let s = substitute_exec(t, scope, fuel);
    if !crate::text::chars_eq(&s, t) {
        eval_text_exec(&s, scope, seen, fuel)
    } else {
        slice_chars(t, 0, n)
    }
}

/// The text value of a Go expression in a scope of bound names (the
/// evaluation of `eval_text`, nesting at most `EVALUATION_DEPTH` deep).
pub fn evaluate_expression_text(expr: &str, scope: &Bindings) -> (r: String)
    ensures
        r@ == eval_text(expr@, scope@, Seq::empty(), EVALUATION_DEPTH as nat),
{
    let mut seen: Vec<Vec<char>> = Vec::new();
    assert(views(seen@) =~= Seq::<Seq<char>>::empty());
    let r = eval_text_exec(&chars_of(expr), scope, &mut seen, EVALUATION_DEPTH);
    crate::text::string_of(&r)
}

/// The method a route selector such as `GetItems` or `Post` names by its
/// prefix (`Get`, `Post`, `Put`, `Delete`).
pub open spec fn web_route_method(sel: Seq<char>) -> Option<HttpMethod> {
    if starts_with(sel, "Get"@) {
        Some(HttpMethod::GET)
    } else if starts_with(sel, "Post"@) {
        Some(HttpMethod::POST)
    } else if starts_with(sel, "Put"@) {
        Some(HttpMethod::PUT)
    } else if starts_with(sel, "Delete"@) {
        Some(HttpMethod::DELETE)
    } else {
        None
    }
}

pub fn web_route_method_exec(sel: &[char]) -> (r: Option<HttpMethod>)
    ensures
        r == web_route_method(sel@),
{
    if starts_with_exec(sel, &chars_of("Get")) {
        Some(HttpMethod::GET)
    } else if starts_with_exec(sel, &chars_of("Post")) {
        Some(HttpMethod::POST)
    } else if starts_with_exec(sel, &chars_of("Put")) {
        Some(HttpMethod::PUT)
    } else if starts_with_exec(sel, &chars_of("Delete")) {
        Some(HttpMethod::DELETE)
    } else {
        None
    }
}

/// The selector is the upper-case name of a method (`GET`, `POST`, ...).
pub open spec fn is_http_method_selector(sel: Seq<char>) -> bool {
    method_named(sel) is Some
}

pub fn is_http_method_selector_exec(sel: &[char]) -> (r: bool)
    ensures
        r == is_http_method_selector(sel@),
{
    method_named_exec(sel).is_some()
}

/// The upper-case form of a text by Unicode case mapping (`str::to_uppercase`).
pub uninterp spec fn unicode_upper(s: Seq<char>) -> Seq<char>;

/// `str::to_uppercase`: the text mapped to upper case by the Unicode
/// tables of the standard library.  Only the name of the result is stated.
#[verifier::external_body]
pub(crate) fn to_uppercase(s: &[char]) -> (r: Vec<char>)
    ensures
        r@ == unicode_upper(s@),
{
    let t: String = s.iter().collect();
    t.to_uppercase().chars().collect()
}

/// The method an HTTP method value names: `http.MethodPost`, `"POST"`,
/// `` `post` `` and the like.
pub open spec fn parse_http_method_value(v: Seq<char>) -> Option<HttpMethod> {
    let t = trim(v);
    let n = match strip_prefix(t, "http.Method"@) {
        Some(rest) => rest,
        None => t,
    };
    method_named(unicode_upper(trim_str(trim_str(n, seq!['"']), seq!['`'])))
}

pub fn parse_http_method_value_exec(v: &[char]) -> (r: Option<HttpMethod>)
    ensures
        r == parse_http_method_value(v@),
{
    let t = trim_exec(v);
    let n = match strip_prefix_exec(&t, &chars_of("http.Method")) {
        Some(rest) => rest,
        None => t,
    };
    let n = trim_str_exec(&trim_str_exec(&n, &one('"')), &one('`'));
    method_named_exec(&to_uppercase(&n))
}

/// `METHOD path`: the method (any ASCII case) and the text after the first
/// space.
pub open spec fn split_method_and_path(v: Seq<char>) -> Option<(HttpMethod, Seq<char>)> {
    match split_once(v, ' ') {
        Some((method, path)) => match method_named(upper(method)) {
            Some(m) => Some((m, path)),
            None => None,
        },
        None => None,
    }
}

pub fn split_method_and_path_exec(v: &[char]) -> (r: Option<(HttpMethod, Vec<char>)>)
    ensures
        r matches Some(p) ==> split_method_and_path(v@) == Some((p.0, p.1@)),
        r is None ==> split_method_and_path(v@) is None,
{
    match split_once_exec(v, ' ') {
        Some((method, path)) => match method_named_exec(&upper_exec(&method)) {
            Some(m) => Some((m, path)),
            None => None,
        },
        None => None,
    }
}

/// Some hint occurs in the text.
pub open spec fn contains_any(value: Seq<char>, hints: Seq<Seq<char>>) -> bool {
    exists|i: int| 0 <= i < hints.len() && #[trigger] contains(value, hints[i])
}

fn contains_any_exec(value: &[char], hints: &Vec<Vec<char>>) -> (r: bool)
    ensures
        r == contains_any(value@, views(hints@)),
{
    let ghost h = views(hints@);
    let mut i: usize = 0;
    while i < hints.len()
        invariant
            h == views(hints@),
            i <= hints@.len(),
            forall|j: int| 0 <= j < i ==> !#[trigger] contains(value@, h[j]),
        decreases hints.len() - i,
    {
        if contains_exec(value, &hints[i]) {
            assert(contains(value@, h[i as int]));
            return true;
        }
        i = i + 1;
    }
    false
}

pub open spec fn post_hints() -> Seq<Seq<char>> {
    seq!["Post"@, "Create"@, "Add"@]
}

pub open spec fn put_hints() -> Seq<Seq<char>> {
    seq!["Put"@, "Update"@]
}

pub open spec fn delete_hints() -> Seq<Seq<char>> {
    seq!["Delete"@, "Remove"@]
}

pub open spec fn patch_hints() -> Seq<Seq<char>> {
    seq!["Patch"@]
}

/// The method a handler's name suggests: POST for `Post`, `Create` or
/// `Add`, then PUT for `Put` or `Update`, DELETE for `Delete` or `Remove`,
/// PATCH for `Patch`, and GET otherwise.
pub open spec fn infer_http_method_from_name(name: Seq<char>) -> HttpMethod {
    if contains_any(name, post_hints()) {
        HttpMethod::POST
    } else if contains_any(name, put_hints()) {
        HttpMethod::PUT
    } else if contains_any(name, delete_hints()) {
        HttpMethod::DELETE
    } else if contains_any(name, patch_hints()) {
        HttpMethod::PATCH
    } else {
        HttpMethod::GET
    }
}

pub fn infer_http_method_from_name_exec(name: &[char]) -> (r: HttpMethod)
    ensures
        r == infer_http_method_from_name(name@),
{
    let mut post: Vec<Vec<char>> = Vec::new();
    post.push(chars_of("Post"));
    post.push(chars_of("Create"));
    post.push(chars_of("Add"));
    assert(views(post@) =~= post_hints());
    let mut put: Vec<Vec<char>> = Vec::new();
    put.push(chars_of("Put"));
    put.push(chars_of("Update"));
    assert(views(put@) =~= put_hints());
    let mut delete: Vec<Vec<char>> = Vec::new();
    delete.push(chars_of("Delete"));
    delete.push(chars_of("Remove"));
    assert(views(delete@) =~= delete_hints());
    let mut patch: Vec<Vec<char>> = Vec::new();
    patch.push(chars_of("Patch"));
    assert(views(patch@) =~= patch_hints());
    if contains_any_exec(name, &post) {
        HttpMethod::POST
    } else if contains_any_exec(name, &put) {
        HttpMethod::PUT
    } else if contains_any_exec(name, &delete) {
        HttpMethod::DELETE
    } else if contains_any_exec(name, &patch) {
        HttpMethod::PATCH
    } else {
        HttpMethod::GET
    }
}

/// The name of a callable signature: the last word before the first `(`.
pub open spec fn simple_callable_name(signature: Seq<char>) -> Option<Seq<char>> {
    last_word(before_first(signature, '('))
}

pub fn simple_callable_name_exec(signature: &[char]) -> (r: Option<Vec<char>>)
    ensures
        r matches Some(w) ==> simple_callable_name(signature@) == Some(w@),
        r is None ==> simple_callable_name(signature@) is None,
{
    last_word_exec(&before_first_exec(signature, '('))
}

/// The parent directory of a path, as `Path::parent` gives it.
pub uninterp spec fn path_parent(p: Seq<char>) -> Option<Seq<char>>;

/// `Path::new(p).parent()`, as text.  Only the name of the result is
/// stated.
#[verifier::external_body]
fn parent_of(p: &str) -> (r: Option<String>)
    ensures
        opt_view(r) == path_parent(p@),
{
    std::path::Path::new(p).parent().map(|q| q.to_string_lossy().into_owned())
}

/// The directory of a file path (empty when it has none): the package a
/// Go file belongs to.
pub open spec fn package_path(file_path: Seq<char>) -> Seq<char> {
    match path_parent(file_path) {
        Some(d) => d,
        None => Seq::empty(),
    }
}

pub fn package_path_exec(file_path: &str) -> (r: String)
    ensures
        r@ == package_path(file_path@),
{
    match parent_of(file_path) {
        Some(d) => d,
        None => String::new(),
    }
}

} // verus!
