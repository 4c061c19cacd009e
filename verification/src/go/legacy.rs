//! The line- and pattern-based Go extractor: functions found by a
//! signature pattern and brace matching, string constants, `HandleFunc`
//! and `web.*` route registrations, and `exchange`, `http.Get`,
//! `http.Post` and `http.NewRequest` calls.
use vstd::prelude::*;

use crate::bindings::Bindings;
use crate::model::{
    bare_callable, callable_view, callables_view, copy_callable, endpoint_view, endpoints_view,
    method_named, method_named_exec, opt_view, parsed_view, Callable, CallableView, Endpoint,
    EndpointView, HttpMethod, Namespace, ParsedCallable, RestCall, RestCallView, restcall_view,
    restcalls_view,
};
use crate::regexes::{first_captures, first_captures_exec, group, group_exec, groups_view};
use crate::text::{
    after_last, before_first, before_first_exec, chars_of, last_word, last_word_exec, one,
    replace_all, replace_all_exec, slice_chars, string_of, text_of, trim, trim_end_str,
    trim_end_str_exec, trim_exec, trim_start_str, trim_start_str_exec, upper, upper_exec, views,
};

verus! {

/// A top-level `const name = "..."` line.
pub const SIMPLE_CONST_PATTERN: &'static str = r#"(?m)^\s*const\s+([A-Za-z_]\w*)\s*(?:[A-Za-z_][\w\[\]\*]*)?\s*=\s*("([^"\\]|\\.)*")\s*$"#;

/// A `const ( ... )` block.
pub const CONST_BLOCK_PATTERN: &'static str = r#"(?s)const\s*\((.*?)\)"#;

/// A `name = "..."` line inside a const block.
pub const BLOCK_CONST_ENTRY_PATTERN: &'static str = r#"(?m)^\s*([A-Za-z_]\w*)\s*(?:[A-Za-z_][\w\[\]\*]*)?\s*=\s*("([^"\\]|\\.)*")\s*$"#;

/// A function header up to its opening brace, with its receiver.
pub const FUNC_PATTERN: &'static str = r#"func\s*(?:\(([^)]*)\)\s*)?([A-Za-z_]\w*)\s*\(([^)]*)\)\s*(?:\([^)]*\)|[\w\.\*\[\]]+)?\s*\{"#;

/// A function's name after `func` and an optional receiver.
pub const FUNC_NAME_PATTERN: &'static str = r#"func\s*(?:\([^)]*\)\s*)?([A-Za-z_]\w*)"#;

/// A local `name := value` or `var name = value` line.
pub const LOCAL_ASSIGN_PATTERN: &'static str = r#"^\s*(?:var\s+)?([A-Za-z_]\w*)\s*(?::=|=)\s*(.+?)\s*$"#;

/// A `web.Get(`-style route registration.
pub const WEB_METHOD_PATTERN: &'static str = r#"web\.(Get|Post|Put|Delete)\("#;

/// An `exchange(ctx, service, method, path, ...)` call.
pub const EXCHANGE_PATTERN: &'static str = r#"(?s)\.exchange\(\s*[^,]+,\s*([^,]+?)\s*,\s*([^,]+?)\s*,\s*([^,]+?)\s*,"#;

/// An `http.Get(url)` call.
pub const HTTP_GET_PATTERN: &'static str = r#"http\.Get\(\s*(.+?)\s*\)"#;

/// An `http.Post(url, type, body)` call.
pub const HTTP_POST_PATTERN: &'static str = r#"http\.Post\(\s*(.+?)\s*,\s*[^,]+,\s*.+?\)"#;

/// An `http.NewRequest(method, url, body)` call, with or without a context.
pub const HTTP_NEW_REQUEST_PATTERN: &'static str = r#"http\.NewRequest(?:WithContext)?\(\s*(?:[^,]+,\s*)?([^,]+?)\s*,\s*(.+?)\s*,\s*.+?\)"#;

/// An `http.MethodGet`-style constant.
pub const HTTP_METHOD_CONST_PATTERN: &'static str = r#"http\.Method(Get|Post|Put|Delete|Patch)"#;

/// A whole double-quoted string literal.
pub const STRING_LITERAL_PATTERN: &'static str = r#"^"((?:[^"\\]|\\.)*)"$"#;

/// `url.PathEscape(name)`.
pub const URL_PATH_ESCAPE_PATTERN: &'static str = r#"url\.PathEscape\(\s*([A-Za-z_]\w*)\s*\)"#;

/// `PathValue("name")`, possibly on `request`.
pub const PATH_VALUE_PATTERN: &'static str = r#"(?:request\.)?PathValue\(\s*"([^"]+)"\s*\)"#;

/// `strings.TrimRight(x, "/")`.
pub const TRIM_RIGHT_PATTERN: &'static str = r#"strings\.TrimRight\(\s*([^,]+?)\s*,\s*"/"\s*\)"#;

/// What the legacy scanner knows before a character: inside a `"` string,
/// just after a backslash in one, and the parenthesis depth.
pub open spec fn legacy_step(st: (bool, bool, int), c: char) -> (bool, bool, int) {
    if c == '"' && !st.1 {
        (!st.0, false, st.2)
    } else if c == '\\' && st.0 {
        (st.0, !st.1, st.2)
    } else if c == '(' && !st.0 {
        (st.0, false, st.2 + 1)
    } else if c == ')' && !st.0 {
        (st.0, false, st.2 - 1)
    } else {
        (st.0, false, st.2)
    }
}

pub open spec fn legacy_state(s: Seq<char>, i: int) -> (bool, bool, int)
    decreases i,
{
    if i <= 0 {
        (false, false, 0)
    } else {
        legacy_step(legacy_state(s, i - 1), s[i - 1])
    }
}

/// `d` at `i` stands outside strings and parentheses.
pub open spec fn legacy_cut(s: Seq<char>, d: char, i: int) -> bool {
    0 <= i < s.len() && s[i] == d && !legacy_state(s, i).0 && legacy_state(s, i).2 == 0
}

/// A `)` at `i` closes the argument list being scanned.
pub open spec fn legacy_close(s: Seq<char>, i: int) -> bool {
    0 <= i < s.len() && s[i] == ')' && !legacy_state(s, i).0 && legacy_state(s, i).2 == 0
}

pub open spec fn legacy_cuts(s: Seq<char>, d: char, n: int) -> Seq<int>
    decreases n,
{
    if n <= 0 {
        Seq::empty()
    } else if legacy_cut(s, d, n - 1) {
        legacy_cuts(s, d, n - 1).push(n - 1)
    } else {
        legacy_cuts(s, d, n - 1)
    }
}

/// The trimmed pieces of the first `n` characters around top-level `d`.
pub open spec fn legacy_pieces(s: Seq<char>, d: char, n: int) -> Seq<Seq<char>> {
    let c = legacy_cuts(s, d, n);
    Seq::new(
        c.len() + 1,
        |j: int|
            trim(
                s.subrange(
                    crate::go::shared::piece_start(c, j),
                    crate::go::shared::piece_end(c, j, n),
                ),
            ),
    )
}

/// The first closing `)` of the argument list from `i` on.
pub open spec fn first_close(s: Seq<char>, i: int) -> Option<int>
    decreases s.len() - i,
{
    if i < 0 || i >= s.len() {
        None
    } else if legacy_close(s, i) {
        Some(i)
    } else {
        first_close(s, i + 1)
    }
}

/// The pieces around top-level `d`, when there is one.
pub open spec fn split_top_level(s: Seq<char>, d: char) -> Option<Seq<Seq<char>>> {
    if legacy_cuts(s, d, s.len() as int).len() > 0 {
        Some(legacy_pieces(s, d, s.len() as int))
    } else {
        None
    }
}

/// The arguments of an argument list up to its closing `)`; without a
/// closing `)`, those before the last top-level comma.
pub open spec fn split_args(s: Seq<char>) -> Seq<Seq<char>> {
    match first_close(s, 0) {
        Some(e) => legacy_pieces(s, ',', e),
        None => legacy_pieces(s, ',', s.len() as int).drop_last(),
    }
}

proof fn lemma_legacy_cuts(s: Seq<char>, d: char, n: int)
    requires
        0 <= n <= s.len(),
    ensures
        forall|j: int| 0 <= j < legacy_cuts(s, d, n).len() ==> 0 <= #[trigger] legacy_cuts(s, d, n)[j] < n,
        forall|a: int, b: int|
            0 <= a < b < legacy_cuts(s, d, n).len() ==> #[trigger] legacy_cuts(s, d, n)[a]
                < #[trigger] legacy_cuts(s, d, n)[b],
    decreases n,
{
    if n > 0 {
        lemma_legacy_cuts(s, d, n - 1);
        let p = legacy_cuts(s, d, n - 1);
        if legacy_cut(s, d, n - 1) {
            let q = p.push(n - 1);
            assert(legacy_cuts(s, d, n) == q);
            assert forall|a: int, b: int| 0 <= a < b < q.len() implies #[trigger] q[a] < #[trigger] q[b] by {
                if b < p.len() {
                    assert(q[a] == p[a] && q[b] == p[b]);
                } else {
                    assert(q[a] == p[a]);
                }
            }
            assert forall|j: int| 0 <= j < q.len() implies 0 <= #[trigger] q[j] < n by {
                if j < p.len() {
                    assert(q[j] == p[j]);
                }
            }
        }
    }
}

/// Scans `s` for top-level `d`, stopping at a closing `)` when
/// `stop_at_close`: the pieces up to the end (or the close), whether any `d`
/// was cut, and the close's position.
fn legacy_scan(s: &[char], d: char, stop_at_close: bool) -> (r: (Vec<Vec<char>>, bool, Option<usize>))
    requires
        d != '"' && d != '\\' && d != '(' && d != ')',
    ensures
        stop_at_close ==> (r.2 matches Some(e) ==> first_close(s@, 0) == Some(e as int)),
        stop_at_close ==> (r.2 is None ==> first_close(s@, 0) is None),
        !stop_at_close ==> r.2 is None,
        r.2 is None ==> views(r.0@) == legacy_pieces(s@, d, s@.len() as int) && r.1 == (legacy_cuts(
            s@,
            d,
            s@.len() as int,
        ).len() > 0),
        r.2 matches Some(e) ==> views(r.0@) == legacy_pieces(s@, d, e as int),
{
    let n = s.len();
    let mut parts: Vec<Vec<char>> = Vec::new();
    let mut in_string = false;
    let mut escaped = false;
    let mut opens: usize = 0;
    let mut closes: usize = 0;
    let mut start: usize = 0;
    let mut i: usize = 0;
    while i < n
        invariant
            n == s@.len(),
            d != '"' && d != '\\' && d != '(' && d != ')',
            i <= n,
            opens <= i,
            closes <= i,
            in_string == legacy_state(s@, i as int).0,
            escaped == legacy_state(s@, i as int).1,
            opens - closes == legacy_state(s@, i as int).2,
            stop_at_close ==> first_close(s@, 0) == first_close(s@, i as int),
            parts@.len() == legacy_cuts(s@, d, i as int).len(),
            forall|j: int|
                0 <= j < parts@.len() ==> (#[trigger] parts@[j])@ == trim(
                    s@.subrange(
                        crate::go::shared::piece_start(legacy_cuts(s@, d, i as int), j),
                        legacy_cuts(s@, d, i as int)[j],
                    ),
                ),
            start == crate::go::shared::piece_start(legacy_cuts(s@, d, i as int), parts@.len() as int),
            start <= i,
        decreases n - i,
    {
        proof {
            lemma_legacy_cuts(s@, d, i as int);
        }
        let ch = s[i];
        let ghost before = legacy_cuts(s@, d, i as int);
        if stop_at_close && ch == ')' && !in_string && opens == closes {
            let piece = trim_exec(&slice_chars(s, start, i));
            parts.push(piece);
            proof {
                let c = legacy_cuts(s@, d, i as int);
                assert(views(parts@) =~= legacy_pieces(s@, d, i as int)) by {
                    assert forall|j: int| 0 <= j < parts@.len() implies views(parts@)[j] == legacy_pieces(
                        s@,
                        d,
                        i as int,
                    )[j] by {
                        if j < c.len() {
                            assert(crate::go::shared::piece_end(c, j, i as int) == c[j]);
                        }
                    }
                }
            }
            return (parts, true, Some(i));
        }
        if ch == '"' && !escaped {
            in_string = !in_string;
            escaped = false;
        } else if ch == '\\' && in_string {
            escaped = !escaped;
        } else if ch == '(' && !in_string {
            opens = opens + 1;
            escaped = false;
        } else if ch == ')' && !in_string {
            closes = closes + 1;
            escaped = false;
        } else {
            if ch == d && !in_string && opens == closes {
                let piece = trim_exec(&slice_chars(s, start, i));
                parts.push(piece);
                start = i + 1;
            }
            escaped = false;
        }
        proof {
            let after = legacy_cuts(s@, d, i + 1);
            if legacy_cut(s@, d, i as int) {
                assert(after == before.push(i as int));
                assert forall|j: int| 0 <= j < parts@.len() implies (#[trigger] parts@[j])@ == trim(
                    s@.subrange(crate::go::shared::piece_start(after, j), after[j]),
                ) by {
                    if j < before.len() {
                        assert(after[j] == before[j]);
                        if j > 0 {
                            assert(after[j - 1] == before[j - 1]);
                        }
                    }
                }
            } else {
                assert(after == before);
            }
        }
        i = i + 1;
    }
    proof {
        lemma_legacy_cuts(s@, d, n as int);
    }
    let tail = trim_exec(&slice_chars(s, start, n));
    let saw = parts.len() > 0;
    parts.push(tail);
    proof {
        let c = legacy_cuts(s@, d, n as int);
        assert(views(parts@) =~= legacy_pieces(s@, d, n as int)) by {
            assert forall|j: int| 0 <= j < parts@.len() implies views(parts@)[j] == legacy_pieces(
                s@,
                d,
                n as int,
            )[j] by {
                if j < c.len() {
                    assert(crate::go::shared::piece_end(c, j, n as int) == c[j]);
                }
            }
        }
    }
    (parts, saw, None)
}

pub fn split_top_level_exec(s: &[char], d: char) -> (r: Option<Vec<Vec<char>>>)
    requires
        d != '"' && d != '\\' && d != '(' && d != ')',
    ensures
        r matches Some(v) ==> split_top_level(s@, d) == Some(views(v@)),
        r is None ==> split_top_level(s@, d) is None,
{
    let (parts, saw, _) = legacy_scan(s, d, false);
    if saw {
        Some(parts)
    } else {
        None
    }
}

pub fn split_args_exec(s: &[char]) -> (r: Vec<Vec<char>>)
    ensures
        views(r@) == split_args(s@),
{
    let (mut parts, _, close) = legacy_scan(s, ',', true);
    match close {
        Some(_) => parts,
        None => {
            assert(views(parts@).len() == parts@.len());
            let _ = parts.pop();
            assert(views(parts@) =~= legacy_pieces(s@, ',', s@.len() as int).drop_last());
            parts
        },
    }
}

/// The position of the `}` that closes the block opened at or after `i`,
/// with string literals (and their escapes) skipped.
pub open spec fn brace_from(s: Seq<char>, i: int, in_string: bool, escaped: bool, depth: nat) -> Option<
    int,
>
    decreases s.len() - i,
{
    if i < 0 || i >= s.len() {
        None
    } else {
        let c = s[i];
        if c == '"' && !escaped {
            brace_from(s, i + 1, !in_string, false, depth)
        } else if c == '\\' && in_string {
            brace_from(s, i + 1, in_string, !escaped, depth)
        } else if c == '{' && !in_string {
            brace_from(s, i + 1, in_string, false, depth + 1)
        } else if c == '}' && !in_string {
            let d: nat = if depth == 0 {
                0
            } else {
                (depth - 1) as nat
            };
            if d == 0 {
                Some(i)
            } else {
                brace_from(s, i + 1, in_string, false, d)
            }
        } else {
            brace_from(s, i + 1, in_string, false, depth)
        }
    }
}

pub open spec fn matching_brace(s: Seq<char>, open: int) -> Option<int> {
    brace_from(s, open, false, false, 0)
}

pub fn find_matching_brace(code: &[char], open: usize) -> (r: Option<usize>)
    ensures
        r matches Some(c) ==> matching_brace(code@, open as int) == Some(c as int),
        r is None ==> matching_brace(code@, open as int) is None,
{
    let n = code.len();
    let mut in_string = false;
    let mut escaped = false;
    let mut depth: usize = 0;
    let mut i: usize = open;
    while i < n
        invariant
            n == code@.len(),
            open <= i,
            depth <= i - open,
            matching_brace(code@, open as int) == brace_from(
                code@,
                i as int,
                in_string,
                escaped,
                depth as nat,
            ),
        decreases n - i,
    {
        let c = code[i];
        if c == '"' && !escaped {
            in_string = !in_string;
            escaped = false;
        } else if c == '\\' && in_string {
            escaped = !escaped;
        } else if c == '{' && !in_string {
            depth = depth + 1;
            escaped = false;
        } else if c == '}' && !in_string {
            if depth > 0 {
                depth = depth - 1;
            }
            if depth == 0 {
                return Some(i);
            }
            escaped = false;
        } else {
            escaped = false;
        }
        i = i + 1;
    }
    None
}

/// The decimal digits of a number.
pub open spec fn decimal(n: nat) -> Seq<char>
    decreases n,
{
    if n < 10 {
        seq![crate::hashing::hex_digit(n as int)]
    } else {
        decimal(n / 10) + seq![crate::hashing::hex_digit((n % 10) as int)]
    }
}

pub fn decimal_exec(n: usize) -> (r: Vec<char>)
    ensures
        r@ == decimal(n as nat),
    decreases n,
{
    let digits = chars_of("0123456789abcdef");
    proof {
        reveal_strlit("0123456789abcdef");
    }
    assert(digits@.len() == 16);
    if n < 10 {
        crate::text::one(digits[n])
    } else {
        let mut r = decimal_exec(n / 10);
        r.push(digits[n % 10]);
        r
    }
}

/// The namespace a function block belongs to, as (class?, name): its
/// receiver's type, or — as this extractor records it — the whole source
/// text when there is no receiver, with `#` and the byte offset of the
/// function when the receiver names no type.
pub open spec fn parse_namespace(receiver: Seq<char>, code: Seq<char>, offset: nat) -> (bool, Seq<char>) {
    if receiver.len() == 0 {
        (false, code)
    } else {
        let rt = trim_start_str(
            match last_word(receiver) {
                Some(w) => w,
                None => receiver,
            },
            seq!['*'],
        );
        if rt.len() == 0 {
            (false, code + seq!['#'] + decimal(offset))
        } else {
            (true, rt)
        }
    }
}

pub fn parse_namespace_exec(receiver: &[char], code: &[char], offset: usize) -> (r:
    crate::model::Namespace)
    ensures
        crate::model::namespace_view(r) == parse_namespace(receiver@, code@, offset as nat),
{
    if receiver.len() == 0 {
        return crate::model::Namespace::Module(string_of(code));
    }
    let w = match last_word_exec(receiver) {
        Some(w) => w,
        None => slice_chars(receiver, 0, receiver.len()),
    };
    assert(w@ == match last_word(receiver@) {
        Some(x) => x,
        None => receiver@,
    }) by {
        assert(receiver@.subrange(0, receiver@.len() as int) =~= receiver@);
    }
    let rt = trim_start_str_exec(&w, &crate::text::one('*'));
    if rt.len() == 0 {
        let mut m = slice_chars(code, 0, code.len());
        m.push('#');
        crate::text::append_chars(&mut m, &decimal_exec(offset));
        assert(m@ =~= code@ + seq!['#'] + decimal(offset as nat));
        crate::model::Namespace::Module(string_of(&m))
    } else {
        crate::model::Namespace::Class(string_of(&rt))
    }
}

/// The `\\"` and then the `\\n` escapes of a literal's contents replaced.
pub open spec fn unescape_basic(s: Seq<char>) -> Seq<char> {
    replace_all(replace_all(s, seq!['\\', '"'], seq!['"']), seq!['\\', 'n'], seq!['\n'])
}

fn pair(a: char, b: char) -> (r: Vec<char>)
    ensures
        r@ == seq![a, b],
{
    let mut r: Vec<char> = Vec::new();
    r.push(a);
    r.push(b);
    assert(r@ =~= seq![a, b]);
    r
}

pub fn unescape_basic_exec(s: &[char]) -> (r: Vec<char>)
    ensures
        r@ == unescape_basic(s@),
{
    let quote = pair('\\', '"');
    let a = replace_all_exec(s, &quote, &one('"'));
    let newline = pair('\\', 'n');
    replace_all_exec(&a, &newline, &one('\n'))
}

/// Group `i` of a capture list, or `d` when it took no part in the match.
pub open spec fn group_or(g: Seq<Option<Seq<char>>>, i: int, d: Seq<char>) -> Seq<char> {
    match group(g, i) {
        Some(x) => x,
        None => d,
    }
}

fn group_or_exec(g: &Vec<Option<String>>, i: usize, d: &[char]) -> (r: Vec<char>)
    ensures
        r@ == group_or(groups_view(g@), i as int, d@),
{
    match group_exec(g, i) {
        Some(x) => text_of(&x),
        None => slice_chars(d, 0, d.len()),
    }
}

/// The contents of a whole double-quoted literal, unescaped; any other
/// text as it is.
pub open spec fn unquote(s: Seq<char>) -> Seq<char> {
    match first_captures(STRING_LITERAL_PATTERN@, s) {
        Some(g) => match group(g, 1) {
            Some(x) => unescape_basic(x),
            None => s,
        },
        None => s,
    }
}

pub fn unquote_exec(s: &[char]) -> (r: Vec<char>)
    ensures
        r@ == unquote(s@),
{
    let text = string_of(s);
    match first_captures_exec(STRING_LITERAL_PATTERN, text.as_str()) {
        Some(g) => match group_exec(&g, 1) {
            Some(x) => unescape_basic_exec(&text_of(&x)),
            None => slice_chars(s, 0, s.len()),
        },
        None => slice_chars(s, 0, s.len()),
    }
}

/// `{name}`.
pub open spec fn braced(name: Seq<char>) -> Seq<char> {
    seq!['{'] + name + seq!['}']
}

fn braced_exec(name: &[char]) -> (r: Vec<char>)
    ensures
        r@ == braced(name@),
{
    let mut r = one('{');
    crate::text::append_chars(&mut r, name);
    r.push('}');
    assert(r@ =~= braced(name@));
    r
}

/// The text an expression of this extractor evaluates to under `scope`:
/// the trimmed expression without trailing commas is split at top-level
/// `+` and its parts evaluated and joined; otherwise a string literal gives
/// its unescaped contents, `url.PathEscape(x)` and `PathValue("x")` give
/// `{x}`, `strings.TrimRight(x, "/")` gives the value of `x` without
/// trailing slashes, a bound name its value, and anything else itself.
/// (A part, and the argument of `TrimRight`, is always shorter than the
/// expression; the recursion is stated on that.)
pub open spec fn legacy_eval(e: Seq<char>, scope: Map<Seq<char>, Seq<char>>) -> Seq<char>
    decreases e.len() as int, 1int, 0int,
{
    let t = trim_end_str(trim(e), seq![',']);
    match split_top_level(t, '+') {
        Some(parts) => legacy_eval_parts(parts, e.len() as int, scope),
        None => match first_captures(STRING_LITERAL_PATTERN@, t) {
            Some(g) => unescape_basic(group_or(g, 1, Seq::empty())),
            None => match first_captures(URL_PATH_ESCAPE_PATTERN@, t) {
                Some(g) => braced(group_or(g, 1, "value"@)),
                None => match first_captures(PATH_VALUE_PATTERN@, t) {
                    Some(g) => braced(group_or(g, 1, "value"@)),
                    None => match first_captures(TRIM_RIGHT_PATTERN@, t) {
                        Some(g) => {
                            let x = group_or(g, 1, Seq::empty());
                            let v = if x.len() < e.len() {
                                legacy_eval(x, scope)
                            } else {
                                x
                            };
                            trim_end_str(v, seq!['/'])
                        },
                        None => if scope.contains_key(t) {
                            scope[t]
                        } else {
                            t
                        },
                    },
                },
            },
        },
    }
}

/// The evaluated parts joined, each part shorter than `n` evaluated.
pub open spec fn legacy_eval_parts(
    ps: Seq<Seq<char>>,
    n: int,
    scope: Map<Seq<char>, Seq<char>>,
) -> Seq<char>
    decreases n, 0int, ps.len(),
{
    if ps.len() == 0 {
        Seq::empty()
    } else {
        let p = ps.last();
        legacy_eval_parts(ps.drop_last(), n, scope) + if p.len() < n {
            legacy_eval(p, scope)
        } else {
            p
        }
    }
}

pub fn legacy_eval_exec(e: &[char], scope: &Bindings) -> (r: Vec<char>)
    ensures
        r@ == legacy_eval(e@, scope@),
    decreases e@.len(),
{
    let t = trim_end_str_exec(&trim_exec(e), &one(','));
    match split_top_level_exec(&t, '+') {
        Some(parts) => {
            let ghost ps = views(parts@);
            let mut acc: Vec<char> = Vec::new();
            let mut i: usize = 0;
            while i < parts.len()
                invariant
                    i <= parts@.len(),
                    ps == views(parts@),
                    acc@ == legacy_eval_parts(ps.take(i as int), e@.len() as int, scope@),
                decreases parts.len() - i,
            {
                let part = &parts[i];
                let v = if part.len() < e.len() {
                    legacy_eval_exec(part, scope)
                } else {
                    slice_chars(part, 0, part.len())
                };
                crate::text::append_chars(&mut acc, &v);
                assert(ps.take(i + 1).drop_last() =~= ps.take(i as int));
                assert(ps.take(i + 1).last() == part@);
                i = i + 1;
            }
            assert(ps.take(parts@.len() as int) =~= ps);
            acc
        },
        None => {
            let text = string_of(&t);
            if let Some(g) = first_captures_exec(STRING_LITERAL_PATTERN, text.as_str()) {
                return unescape_basic_exec(&group_or_exec(&g, 1, &Vec::new()));
            }
            if let Some(g) = first_captures_exec(URL_PATH_ESCAPE_PATTERN, text.as_str()) {
                return braced_exec(&group_or_exec(&g, 1, &chars_of("value")));
            }
            if let Some(g) = first_captures_exec(PATH_VALUE_PATTERN, text.as_str()) {
                return braced_exec(&group_or_exec(&g, 1, &chars_of("value")));
            }
            if let Some(g) = first_captures_exec(TRIM_RIGHT_PATTERN, text.as_str()) {
                let x = group_or_exec(&g, 1, &Vec::new());
                let v = if x.len() < e.len() {
                    legacy_eval_exec(&x, scope)
                } else {
                    x
                };
                return trim_end_str_exec(&v, &one('/'));
            }
            match scope.get(&t) {
                Some(v) => text_of(&v),
                None => t,
            }
        },
    }
}

/// The method an expression names: an `http.Method*` constant, a quoted
/// method name or a bare one, in any case.
pub open spec fn legacy_method(expr: Seq<char>) -> Option<HttpMethod> {
    let t = trim(expr);
    match first_captures(HTTP_METHOD_CONST_PATTERN@, t) {
        Some(g) => match group(g, 1) {
            Some(x) => method_named(upper(x)),
            None => None,
        },
        None => match first_captures(STRING_LITERAL_PATTERN@, t) {
            Some(g) => match group(g, 1) {
                Some(x) => method_named(upper(x)),
                None => None,
            },
            None => method_named(upper(t)),
        },
    }
}

pub fn legacy_method_exec(expr: &[char]) -> (r: Option<HttpMethod>)
    ensures
        r == legacy_method(expr@),
{
    let t = trim_exec(expr);
    let text = string_of(&t);
    if let Some(g) = first_captures_exec(HTTP_METHOD_CONST_PATTERN, text.as_str()) {
        return match group_exec(&g, 1) {
            Some(x) => method_named_exec(&upper_exec(&text_of(&x))),
            None => None,
        };
    }
    if let Some(g) = first_captures_exec(STRING_LITERAL_PATTERN, text.as_str()) {
        return match group_exec(&g, 1) {
            Some(x) => method_named_exec(&upper_exec(&text_of(&x))),
            None => None,
        };
    }
    method_named_exec(&upper_exec(&t))
}

/// The name a handler is looked up by: the name after `func` (and a
/// receiver); failing that, the last word before the first `(`; failing
/// that, the whole signature.
pub open spec fn legacy_simple_name(signature: Seq<char>) -> Seq<char> {
    let fallback = match last_word(before_first(signature, '(')) {
        Some(w) => w,
        None => signature,
    };
    match first_captures(FUNC_NAME_PATTERN@, signature) {
        Some(g) => match group(g, 1) {
            Some(x) => x,
            None => fallback,
        },
        None => fallback,
    }
}

pub fn legacy_simple_name_exec(signature: &[char]) -> (r: Vec<char>)
    ensures
        r@ == legacy_simple_name(signature@),
{
    let text = string_of(signature);
    if let Some(g) = first_captures_exec(FUNC_NAME_PATTERN, text.as_str()) {
        if let Some(x) = group_exec(&g, 1) {
            return text_of(&x);
        }
    }
    match last_word_exec(&before_first_exec(signature, '(')) {
        Some(w) => w,
        None => slice_chars(signature, 0, signature.len()),
    }
}

/// A function found in the source: its header without the brace, the hash
/// of the matched header, its namespace and the text between its braces.
pub struct FunctionBlock {
    pub signature: String,
    pub hash: String,
    pub namespace: crate::model::Namespace,
    pub body: String,
}

pub type BlockView = (Seq<char>, Seq<char>, (bool, Seq<char>), Seq<char>);

pub open spec fn block_view(b: FunctionBlock) -> BlockView {
    (b.signature@, b.hash@, crate::model::namespace_view(b.namespace), b.body@)
}

pub open spec fn blocks_view(v: Seq<FunctionBlock>) -> Seq<BlockView> {
    v.map_values(|b: FunctionBlock| block_view(b))
}

/// The function block of one header match: the body runs from after the
/// header's last character (its `{`) to the matching `}`; without one the
/// match gives no block.
pub open spec fn legacy_block(code: Seq<char>, m: crate::regexes::MatchView) -> Option<BlockView> {
    match group(m.3, 0) {
        None => None,
        Some(full) => if m.1 < 1 {
            None
        } else {
            let open = m.1 - 1;
            match matching_brace(code, open) {
                None => None,
                Some(close) => if close < open + 1 {
                    None
                } else {
                    let receiver = trim(group_or(m.3, 1, Seq::empty()));
                    Some(
                        (
                            trim(trim_end_str(full, seq!['{'])),
                            crate::hashing::text_hash(full),
                            parse_namespace(receiver, code, m.2 as nat),
                            code.subrange(open + 1, close),
                        ),
                    )
                },
            }
        },
    }
}

pub open spec fn legacy_blocks(code: Seq<char>, ms: Seq<crate::regexes::MatchView>) -> Seq<BlockView>
    decreases ms.len(),
{
    if ms.len() == 0 {
        Seq::empty()
    } else {
        legacy_blocks(code, ms.drop_last()) + match legacy_block(code, ms.last()) {
            Some(b) => seq![b],
            None => Seq::empty(),
        }
    }
}

/// Every function of the source, in order.
pub open spec fn find_functions(code: Seq<char>) -> Seq<BlockView> {
    legacy_blocks(code, crate::regexes::regex_matches(FUNC_PATTERN@, code))
}

fn block_of(code: &str, chars: &Vec<char>, m: &crate::regexes::RegexMatch) -> (r: Option<FunctionBlock>)
    requires
        chars@ == code@,
        m.start <= m.end <= code@.len(),
    ensures
        r matches Some(b) ==> legacy_block(code@, crate::regexes::match_view(*m)) == Some(block_view(b)),
        r is None ==> legacy_block(code@, crate::regexes::match_view(*m)) is None,
{
    let full = match group_exec(&m.groups, 0) {
        Some(f) => f,
        None => return None,
    };
    if m.end < 1 {
        return None;
    }
    let open = m.end - 1;
    let close = match find_matching_brace(chars, open) {
        Some(c) => c,
        None => return None,
    };
    if close < open + 1 {
        return None;
    }
    proof {
        lemma_brace_from_closes(code@, open as int, false, false, 0);
    }
    let receiver = trim_exec(&group_or_exec(&m.groups, 1, &Vec::new()));
    let full_chars = text_of(&full);
    let signature = string_of(&trim_exec(&trim_end_str_exec(&full_chars, &one('{'))));
    let hash = crate::hashing::hash_text(full.as_str());
    let namespace = parse_namespace_exec(&receiver, chars, m.start_byte);
    let body = string_of(&slice_chars(chars, open + 1, close));
    Some(FunctionBlock { signature, hash, namespace, body })
}

/// The function blocks of the matches of the function pattern over a
/// source: each match whose opening brace is closed gives its signature,
/// hash, namespace and body.
pub fn blocks_from_matches(code: &str, ms: &Vec<crate::regexes::RegexMatch>) -> (r: Vec<FunctionBlock>)
    requires
        forall|k: int| 0 <= k < ms@.len() ==> (#[trigger] ms@[k]).start <= ms@[k].end <= code@.len(),
    ensures
        blocks_view(r@) == legacy_blocks(code@, crate::regexes::matches_view(ms@)),
{
    let chars = chars_of(code);
    let ghost mv = crate::regexes::matches_view(ms@);
    let mut out: Vec<FunctionBlock> = Vec::new();
    let mut i: usize = 0;
    while i < ms.len()
        invariant
            i <= ms@.len(),
            chars@ == code@,
            mv == crate::regexes::matches_view(ms@),
            forall|k: int| 0 <= k < ms@.len() ==> (#[trigger] ms@[k]).start <= ms@[k].end <= code@.len(),
            blocks_view(out@) == legacy_blocks(code@, mv.take(i as int)),
        decreases ms.len() - i,
    {
        let ghost before = out@;
        assert(ms@[i as int].start <= ms@[i as int].end <= code@.len());
        let b = block_of(code, &chars, &ms[i]);
        assert(mv.take(i + 1).drop_last() =~= mv.take(i as int));
        assert(mv.take(i + 1).last() == crate::regexes::match_view(ms@[i as int]));
        match b {
            Some(b) => {
                out.push(b);
                assert(blocks_view(out@) =~= blocks_view(before) + seq![block_view(out@.last())]);
            },
            None => {},
        }
        assert(blocks_view(out@) =~= legacy_blocks(code@, mv.take(i + 1)));
        i = i + 1;
    }
    assert(mv.take(ms@.len() as int) =~= mv);
    out
}

pub fn find_functions_exec(code: &str) -> (r: Vec<FunctionBlock>)
    ensures
        blocks_view(r@) == find_functions(code@),
{
    let ms = crate::regexes::find_matches(FUNC_PATTERN, code);
    blocks_from_matches(code, &ms)
}

/// The scope after the lines `ls` of a body: each local `name := value` (or
/// `var name = value`) line binds `name` to its value evaluated so far;
/// `return` and `if` lines bind nothing.
pub open spec fn scope_lines(globals: Map<Seq<char>, Seq<char>>, ls: Seq<Seq<char>>) -> Map<
    Seq<char>,
    Seq<char>,
>
    decreases ls.len(),
{
    if ls.len() == 0 {
        globals
    } else {
        let m = scope_lines(globals, ls.drop_last());
        let t = trim(ls.last());
        if crate::text::starts_with(t, "return "@) || crate::text::starts_with(t, "if "@) {
            m
        } else {
            match first_captures(LOCAL_ASSIGN_PATTERN@, t) {
                Some(g) => match (group(g, 1), group(g, 2)) {
                    (Some(n), Some(x)) => m.insert(n, legacy_eval(x, m)),
                    _ => m,
                },
                None => m,
            }
        }
    }
}

/// The globals with the local bindings of a function body added.
pub open spec fn merged_scope(globals: Map<Seq<char>, Seq<char>>, body: Seq<char>) -> Map<
    Seq<char>,
    Seq<char>,
> {
    scope_lines(globals, crate::text::lines(body))
}

pub fn merged_scope_exec(globals: &Bindings, body: &[char]) -> (r: Bindings)
    ensures
        r@ == merged_scope(globals@, body@),
{
    let mut scope = globals.duplicate();
    let ls = crate::text::lines_exec(body);
    let ghost lv = views(ls@);
    let ret = chars_of("return ");
    let cond = chars_of("if ");
    let mut i: usize = 0;
    while i < ls.len()
        invariant
            i <= ls@.len(),
            lv == views(ls@),
            lv == crate::text::lines(body@),
            ret@ == "return "@,
            cond@ == "if "@,
            scope@ == scope_lines(globals@, lv.take(i as int)),
        decreases ls.len() - i,
    {
        assert(lv.take(i + 1).drop_last() =~= lv.take(i as int));
        assert(lv.take(i + 1).last() == ls@[i as int]@);
        let t = trim_exec(&ls[i]);
        if !crate::text::starts_with_exec(&t, &ret) && !crate::text::starts_with_exec(&t, &cond) {
            let text = string_of(&t);
            if let Some(g) = first_captures_exec(LOCAL_ASSIGN_PATTERN, text.as_str()) {
                match (group_exec(&g, 1), group_exec(&g, 2)) {
                    (Some(n), Some(x)) => {
                        let v = legacy_eval_exec(&text_of(&x), &scope);
                        scope.insert(n, string_of(&v));
                    },
                    _ => {},
                }
            }
        }
        i = i + 1;
    }
    assert(lv.take(ls@.len() as int) =~= lv);
    scope
}

/// The bindings that name/literal capture lists add to `m`, each literal
/// unquoted.
pub open spec fn const_entries(m: Map<Seq<char>, Seq<char>>, caps: Seq<Seq<Option<Seq<char>>>>) -> Map<
    Seq<char>,
    Seq<char>,
>
    decreases caps.len(),
{
    if caps.len() == 0 {
        m
    } else {
        let before = const_entries(m, caps.drop_last());
        match (group(caps.last(), 1), group(caps.last(), 2)) {
            (Some(n), Some(v)) => before.insert(n, unquote(v)),
            _ => before,
        }
    }
}

/// The bindings of the entries of `const ( ... )` blocks added to `m`.
pub open spec fn block_entries(m: Map<Seq<char>, Seq<char>>, blocks: Seq<Seq<Option<Seq<char>>>>) -> Map<
    Seq<char>,
    Seq<char>,
>
    decreases blocks.len(),
{
    if blocks.len() == 0 {
        m
    } else {
        let before = block_entries(m, blocks.drop_last());
        match group(blocks.last(), 1) {
            Some(body) => const_entries(
                before,
                crate::regexes::regex_captures(BLOCK_CONST_ENTRY_PATTERN@, body),
            ),
            None => before,
        }
    }
}

/// The string constants of a source: single `const` lines first, then the
/// entries of `const` blocks, a later binding of a name replacing an
/// earlier one.
pub open spec fn string_bindings(code: Seq<char>) -> Map<Seq<char>, Seq<char>> {
    block_entries(
        const_entries(Map::empty(), crate::regexes::regex_captures(SIMPLE_CONST_PATTERN@, code)),
        crate::regexes::regex_captures(CONST_BLOCK_PATTERN@, code),
    )
}

fn add_const_entries(m: &mut Bindings, caps: &Vec<Vec<Option<String>>>)
    ensures
        final(m)@ == const_entries(old(m)@, crate::regexes::captures_view(caps@)),
{
    let ghost cv = crate::regexes::captures_view(caps@);
    let ghost m0 = m@;
    let mut i: usize = 0;
    while i < caps.len()
        invariant
            i <= caps@.len(),
            cv == crate::regexes::captures_view(caps@),
            m@ == const_entries(m0, cv.take(i as int)),
        decreases caps.len() - i,
    {
        assert(cv.take(i + 1).drop_last() =~= cv.take(i as int));
        assert(cv.take(i + 1).last() == groups_view(caps@[i as int]@));
        match (group_exec(&caps[i], 1), group_exec(&caps[i], 2)) {
            (Some(n), Some(v)) => {
                let u = unquote_exec(&text_of(&v));
                m.insert(n, string_of(&u));
            },
            _ => {},
        }
        i = i + 1;
    }
    assert(cv.take(caps@.len() as int) =~= cv);
}

pub fn collect_string_bindings(code: &str) -> (r: Bindings)
    ensures
        r@ == string_bindings(code@),
{
    let mut m = Bindings::new();
    add_const_entries(&mut m, &crate::regexes::captures_all(SIMPLE_CONST_PATTERN, code));
    let blocks = crate::regexes::captures_all(CONST_BLOCK_PATTERN, code);
    let ghost bv = crate::regexes::captures_view(blocks@);
    let ghost m0 = m@;
    let mut i: usize = 0;
    while i < blocks.len()
        invariant
            i <= blocks@.len(),
            bv == crate::regexes::captures_view(blocks@),
            m@ == block_entries(m0, bv.take(i as int)),
        decreases blocks.len() - i,
    {
        assert(bv.take(i + 1).drop_last() =~= bv.take(i as int));
        assert(bv.take(i + 1).last() == groups_view(blocks@[i as int]@));
        if let Some(body) = group_exec(&blocks[i], 1) {
            add_const_entries(&mut m, &crate::regexes::captures_all(BLOCK_CONST_ENTRY_PATTERN, body.as_str()));
        }
        i = i + 1;
    }
    assert(bv.take(blocks@.len() as int) =~= bv);
    m
}

/// A route registration: method, path and handler expression.
pub struct RouteRegistration {
    pub http_method: HttpMethod,
    pub uri: String,
    pub handler_expr: String,
}

pub type RouteView = (HttpMethod, Seq<char>, Seq<char>);

pub open spec fn route_view(r: RouteRegistration) -> RouteView {
    (r.http_method, r.uri@, r.handler_expr@)
}

pub open spec fn routes_view(v: Seq<RouteRegistration>) -> Seq<RouteView> {
    v.map_values(|r: RouteRegistration| route_view(r))
}

/// One route per argument of `.Methods(...)` that names a method.
pub open spec fn method_routes(vs: Seq<Seq<char>>, path: Seq<char>, handler: Seq<char>) -> Seq<RouteView>
    decreases vs.len(),
{
    if vs.len() == 0 {
        Seq::empty()
    } else {
        method_routes(vs.drop_last(), path, handler) + match legacy_method(trim(vs.last())) {
            Some(m) => seq![(m, path, handler)],
            None => Seq::empty(),
        }
    }
}

/// The routes a line with `.HandleFunc(path, handler)` registers: one per
/// method of a following `.Methods(...)`, or else the one that a
/// `"METHOD path"` pattern names.
pub open spec fn handlefunc_line_routes(line: Seq<char>, globals: Map<Seq<char>, Seq<char>>) -> Seq<RouteView> {
    match crate::text::find(line, ".HandleFunc("@) {
        None => Seq::empty(),
        Some(idx) => {
            let args = split_args(line.skip(idx + ".HandleFunc("@.len()));
            if args.len() < 2 {
                Seq::empty()
            } else {
                let handler = trim(args[1]);
                let path = legacy_eval(args[0], globals);
                match crate::text::find(line, ".Methods("@) {
                    Some(mi) => method_routes(split_args(line.skip(mi + ".Methods("@.len())), path, handler),
                    None => match crate::go::shared::split_method_and_path(path) {
                        Some((m, uri)) => seq![(m, uri, handler)],
                        None => Seq::empty(),
                    },
                }
            }
        },
    }
}

/// The route a `web.Get(path, handler)`-style line registers.
pub open spec fn web_line_routes(line: Seq<char>, globals: Map<Seq<char>, Seq<char>>) -> Seq<RouteView> {
    match first_captures(WEB_METHOD_PATTERN@, line) {
        None => Seq::empty(),
        Some(g) => match group(g, 1) {
            None => Seq::empty(),
            Some(mt) => {
                let needle = "web."@ + mt + "("@;
                match crate::text::find(line, needle) {
                    None => Seq::empty(),
                    Some(st) => {
                        let args = split_args(line.skip(st + needle.len()));
                        if args.len() < 2 {
                            Seq::empty()
                        } else {
                            match method_named(upper(crate::go::shared::unicode_upper(mt))) {
                                None => Seq::empty(),
                                Some(m) => seq![(m, legacy_eval(args[0], globals), trim(args[1]))],
                            }
                        }
                    },
                }
            },
        },
    }
}

pub open spec fn handlefunc_routes_of(ls: Seq<Seq<char>>, globals: Map<Seq<char>, Seq<char>>) -> Seq<RouteView>
    decreases ls.len(),
{
    if ls.len() == 0 {
        Seq::empty()
    } else {
        handlefunc_routes_of(ls.drop_last(), globals) + handlefunc_line_routes(ls.last(), globals)
    }
}

pub open spec fn web_routes_of(ls: Seq<Seq<char>>, globals: Map<Seq<char>, Seq<char>>) -> Seq<RouteView>
    decreases ls.len(),
{
    if ls.len() == 0 {
        Seq::empty()
    } else {
        web_routes_of(ls.drop_last(), globals) + web_line_routes(ls.last(), globals)
    }
}

/// The `HandleFunc` routes of a source, line by line.
pub open spec fn find_handlefunc_routes(code: Seq<char>, globals: Map<Seq<char>, Seq<char>>) -> Seq<RouteView> {
    handlefunc_routes_of(crate::text::lines(code), globals)
}

/// The `web.*` routes of a source, line by line.
pub open spec fn find_web_routes(code: Seq<char>, globals: Map<Seq<char>, Seq<char>>) -> Seq<RouteView> {
    web_routes_of(crate::text::lines(code), globals)
}

fn push_route(out: &mut Vec<RouteRegistration>, m: HttpMethod, uri: &[char], handler: &[char])
    ensures
        routes_view(final(out)@) == routes_view(old(out)@).push((m, uri@, handler@)),
{
    out.push(RouteRegistration { http_method: m, uri: string_of(uri), handler_expr: string_of(handler) });
    assert(routes_view(out@) =~= routes_view(old(out)@).push((m, uri@, handler@)));
}

fn handlefunc_line_routes_exec(line: &[char], globals: &Bindings, out: &mut Vec<RouteRegistration>)
    ensures
        routes_view(final(out)@) == routes_view(old(out)@) + handlefunc_line_routes(line@, globals@),
{
    let needle = chars_of(".HandleFunc(");
    let idx = match crate::text::find_exec(line, &needle) {
        Some(i) => i,
        None => {
            assert(routes_view(out@) =~= routes_view(out@) + Seq::<RouteView>::empty());
            return;
        },
    };
    proof {
        crate::text::lemma_find(line@, needle@);
        assert(crate::text::find(line@, needle@) == Some(idx as int));
    }
    let n = line.len();
    assert(idx + needle@.len() <= n);
    let args = split_args_exec(&slice_chars(line, idx + needle.len(), n));
    assert(line@.subrange((idx + needle.len()) as int, line@.len() as int) =~= line@.skip(
        idx + ".HandleFunc("@.len(),
    ));
    if args.len() < 2 {
        assert(routes_view(out@) =~= routes_view(out@) + Seq::<RouteView>::empty());
        return;
    }
    let handler = trim_exec(&args[1]);
    let path = legacy_eval_exec(&args[0], globals);
    let methods = chars_of(".Methods(");
    match crate::text::find_exec(line, &methods) {
        Some(mi) => {
            proof {
                crate::text::lemma_find(line@, methods@);
            }
            let vs = split_args_exec(&slice_chars(line, mi + methods.len(), line.len()));
            let ghost vv = views(vs@);
            assert(vv =~= split_args(line@.skip(mi + ".Methods("@.len())));
            let ghost start = routes_view(out@);
            let mut j: usize = 0;
            while j < vs.len()
                invariant
                    j <= vs@.len(),
                    vv == views(vs@),
                    routes_view(out@) == start + method_routes(vv.take(j as int), path@, handler@),
                decreases vs.len() - j,
            {
                assert(vv.take(j + 1).drop_last() =~= vv.take(j as int));
                assert(vv.take(j + 1).last() == vs@[j as int]@);
                match legacy_method_exec(&trim_exec(&vs[j])) {
                    Some(m) => {
                        push_route(out, m, &path, &handler);
                        assert(routes_view(out@) =~= start + method_routes(vv.take(j + 1), path@, handler@));
                    },
                    None => {
                        assert(routes_view(out@) =~= start + method_routes(vv.take(j + 1), path@, handler@));
                    },
                }
                j = j + 1;
            }
            assert(vv.take(vs@.len() as int) =~= vv);
        },
        None => match crate::go::shared::split_method_and_path_exec(&path) {
            Some((m, uri)) => {
                push_route(out, m, &uri, &handler);
                assert(routes_view(out@) =~= routes_view(old(out)@) + seq![(m, uri@, handler@)]);
            },
            None => {
                assert(routes_view(out@) =~= routes_view(out@) + Seq::<RouteView>::empty());
            },
        },
    }
}

fn web_line_routes_exec(line: &[char], globals: &Bindings, out: &mut Vec<RouteRegistration>)
    ensures
        routes_view(final(out)@) == routes_view(old(out)@) + web_line_routes(line@, globals@),
{
    assert(routes_view(out@) =~= routes_view(out@) + Seq::<RouteView>::empty());
    let text = string_of(line);
    let g = match first_captures_exec(WEB_METHOD_PATTERN, text.as_str()) {
        Some(g) => g,
        None => return,
    };
    let mt = match group_exec(&g, 1) {
        Some(x) => text_of(&x),
        None => return,
    };
    let mut needle = chars_of("web.");
    crate::text::append_chars(&mut needle, &mt);
    needle.push('(');
    assert(needle@ =~= "web."@ + mt@ + "("@) by {
        reveal_strlit("(");
    }
    let st = match crate::text::find_exec(line, &needle) {
        Some(st) => st,
        None => return,
    };
    proof {
        crate::text::lemma_find(line@, needle@);
        assert(crate::text::find(line@, needle@) == Some(st as int));
    }
    let n = line.len();
    assert(st + needle@.len() <= n);
    let args = split_args_exec(&slice_chars(line, st + needle.len(), n));
    assert(line@.subrange((st + needle.len()) as int, line@.len() as int) =~= line@.skip(
        st + needle@.len(),
    ));
    if args.len() < 2 {
        return;
    }
    match method_named_exec(&upper_exec(&crate::go::shared::to_uppercase(&mt))) {
        Some(m) => {
            let uri = legacy_eval_exec(&args[0], globals);
            push_route(out, m, &uri, &trim_exec(&args[1]));
            assert(routes_view(out@) =~= routes_view(old(out)@) + web_line_routes(line@, globals@));
        },
        None => {},
    }
}

pub fn find_handlefunc_routes_exec(code: &[char], globals: &Bindings) -> (r: Vec<RouteRegistration>)
    ensures
        routes_view(r@) == find_handlefunc_routes(code@, globals@),
{
    let ls = crate::text::lines_exec(code);
    let ghost lv = views(ls@);
    let mut out: Vec<RouteRegistration> = Vec::new();
    let mut i: usize = 0;
    while i < ls.len()
        invariant
            i <= ls@.len(),
            lv == views(ls@),
            routes_view(out@) == handlefunc_routes_of(lv.take(i as int), globals@),
        decreases ls.len() - i,
    {
        assert(lv.take(i + 1).drop_last() =~= lv.take(i as int));
        assert(lv.take(i + 1).last() == ls@[i as int]@);
        handlefunc_line_routes_exec(&ls[i], globals, &mut out);
        i = i + 1;
    }
    assert(lv.take(ls@.len() as int) =~= lv);
    out
}

pub fn find_web_routes_exec(code: &[char], globals: &Bindings) -> (r: Vec<RouteRegistration>)
    ensures
        routes_view(r@) == find_web_routes(code@, globals@),
{
    let ls = crate::text::lines_exec(code);
    let ghost lv = views(ls@);
    let mut out: Vec<RouteRegistration> = Vec::new();
    let mut i: usize = 0;
    while i < ls.len()
        invariant
            i <= ls@.len(),
            lv == views(ls@),
            routes_view(out@) == web_routes_of(lv.take(i as int), globals@),
        decreases ls.len() - i,
    {
        assert(lv.take(i + 1).drop_last() =~= lv.take(i as int));
        assert(lv.take(i + 1).last() == ls@[i as int]@);
        web_line_routes_exec(&ls[i], globals, &mut out);
        i = i + 1;
    }
    assert(lv.take(ls@.len() as int) =~= lv);
    out
}

/// The callable of a function block in file `file_path`.
pub open spec fn block_callable(b: BlockView, file_path: Seq<char>) -> CallableView {
    bare_callable(b.0, b.0, b.2, b.1, file_path)
}

/// The callables of a source: one per function block.
pub open spec fn legacy_callables(code: Seq<char>, file_path: Seq<char>) -> Seq<CallableView> {
    find_functions(code).map_values(|b: BlockView| block_callable(b, file_path))
}

pub open spec fn no_statements(v: Seq<ParsedCallable>) -> bool {
    forall|i: int| 0 <= i < v.len() ==> (#[trigger] v[i]).statements@.len() == 0
}

fn callable_of_block(b: &FunctionBlock, file_path: &str) -> (r: ParsedCallable)
    ensures
        callable_view(r.metadata) == block_callable(block_view(*b), file_path@),
        r.statements@.len() == 0,
{
    let r = ParsedCallable {
        metadata: Callable {
            name: b.signature.clone(),
            signature: b.signature.clone(),
            namespace: crate::model::copy_namespace(&b.namespace),
            parameters: Vec::new(),
            return_type: None,
            is_async: false,
            is_constructor: false,
            hash: b.hash.clone(),
            file_path: file_path.to_string(),
        },
        statements: Vec::new(),
    };
    assert(crate::model::parameters_view(r.metadata.parameters@) =~= Seq::empty());
    r
}

pub fn extract_callables(code: &str, file_path: &str) -> (r: Vec<ParsedCallable>)
    ensures
        parsed_view(r@) == legacy_callables(code@, file_path@),
        no_statements(r@),
{
    let blocks = find_functions_exec(code);
    let ghost bv = blocks_view(blocks@);
    let mut out: Vec<ParsedCallable> = Vec::new();
    let mut i: usize = 0;
    while i < blocks.len()
        invariant
            i <= blocks@.len(),
            bv == blocks_view(blocks@),
            bv == find_functions(code@),
            out@.len() == i,
            parsed_view(out@) == bv.take(i as int).map_values(
                |b: BlockView| block_callable(b, file_path@),
            ),
            no_statements(out@),
        decreases blocks.len() - i,
    {
        let ghost before = out@;
        out.push(callable_of_block(&blocks[i], file_path));
        assert forall|j: int| 0 <= j < i + 1 implies parsed_view(out@)[j] == bv.take(i + 1).map_values(
            |b: BlockView| block_callable(b, file_path@),
        )[j] by {
            if j < i {
                assert(out@[j] == before[j]);
                assert(parsed_view(before)[j] == bv.take(i as int).map_values(
                    |b: BlockView| block_callable(b, file_path@),
                )[j]);
            }
        }
        assert(parsed_view(out@) =~= bv.take(i + 1).map_values(
            |b: BlockView| block_callable(b, file_path@),
        ));
        i = i + 1;
    }
    assert(bv.take(blocks@.len() as int) =~= bv);
    out
}

/// The callables in the order a lookup by simple name sees them (a later
/// one of the same name shadows an earlier one).
pub fn build_callable_index(callables: &Vec<ParsedCallable>) -> (r: Vec<Callable>)
    ensures
        callables_view(r@) == parsed_view(callables@),
{
    let mut out: Vec<Callable> = Vec::new();
    let mut i: usize = 0;
    while i < callables.len()
        invariant
            i <= callables@.len(),
            out@.len() == i,
            callables_view(out@) == parsed_view(callables@.take(i as int)),
        decreases callables.len() - i,
    {
        let ghost before = out@;
        out.push(copy_callable(&callables[i].metadata));
        assert forall|j: int| 0 <= j < i + 1 implies callables_view(out@)[j] == parsed_view(
            callables@.take(i + 1),
        )[j] by {
            if j < i {
                assert(out@[j] == before[j]);
                assert(callables_view(before)[j] == parsed_view(callables@.take(i as int))[j]);
            }
        }
        assert(callables_view(out@) =~= parsed_view(callables@.take(i + 1)));
        i = i + 1;
    }
    assert(callables@.take(callables@.len() as int) =~= callables@);
    out
}

/// The last callable whose simple name is `key`.
pub open spec fn last_named(cs: Seq<CallableView>, key: Seq<char>) -> Option<int>
    decreases cs.len(),
{
    if cs.len() == 0 {
        None
    } else if legacy_simple_name(cs.last().0.0) == key {
        Some(cs.len() - 1)
    } else {
        last_named(cs.drop_last(), key)
    }
}

proof fn lemma_last_named(cs: Seq<CallableView>, key: Seq<char>)
    ensures
        last_named(cs, key) matches Some(i) ==> 0 <= i < cs.len(),
    decreases cs.len(),
{
    if cs.len() > 0 {
        lemma_last_named(cs.drop_last(), key);
    }
}

/// The name a handler expression is looked up by: its last `.` segment.
pub open spec fn handler_key(handler: Seq<char>) -> Seq<char> {
    trim(after_last(trim(handler), '.'))
}

/// The callable a handler expression names, when one of that simple name
/// is indexed.
pub open spec fn lookup_callable(handler: Seq<char>, index: Seq<CallableView>) -> Option<CallableView> {
    match last_named(index, handler_key(handler)) {
        Some(i) => Some(index[i]),
        None => None,
    }
}

pub fn lookup_callable_exec(handler: &[char], index: &Vec<Callable>) -> (r: Option<Callable>)
    ensures
        r matches Some(c) ==> lookup_callable(handler@, callables_view(index@)) == Some(callable_view(c)),
        r is None ==> lookup_callable(handler@, callables_view(index@)) is None,
{
    let key = trim_exec(&crate::text::after_last_exec(&trim_exec(handler), '.'));
    proof {
        lemma_last_named(callables_view(index@), key@);
    }
    lookup_named_exec(index, &key)
}

/// `handler METHOD uri`: the signature of a handler the source does not
/// define.
pub open spec fn synthetic_signature(m: HttpMethod, uri: Seq<char>) -> Seq<char> {
    "handler "@ + m.name() + " "@ + uri
}

/// The callable that stands for an undefined handler of a route: named by
/// its signature, hashed from file, signature and handler expression.
pub open spec fn synthetic_callable(file_path: Seq<char>, route: RouteView) -> CallableView {
    let sig = synthetic_signature(route.0, route.1);
    bare_callable(
        sig,
        sig,
        (false, file_path),
        crate::hashing::text_hash(file_path + "::"@ + sig + "::"@ + route.2),
        file_path,
    )
}

/// The callable that handles a route: the indexed one its handler names,
/// or else the synthetic one.
pub open spec fn resolved_handler(file_path: Seq<char>, route: RouteView, index: Seq<CallableView>) -> CallableView {
    match lookup_callable(route.2, index) {
        Some(c) => c,
        None => synthetic_callable(file_path, route),
    }
}

pub open spec fn hashes_of(cs: Seq<CallableView>) -> Seq<Seq<char>> {
    cs.map_values(|c: CallableView| c.2.0)
}

/// The synthetic callables the routes add, each hash once.
pub open spec fn synthetic_fold(file_path: Seq<char>, routes: Seq<RouteView>, index: Seq<CallableView>) -> Seq<
    CallableView,
>
    decreases routes.len(),
{
    if routes.len() == 0 {
        Seq::empty()
    } else {
        let prev = synthetic_fold(file_path, routes.drop_last(), index);
        let r = routes.last();
        if lookup_callable(r.2, index) is Some {
            prev
        } else {
            let c = synthetic_callable(file_path, r);
            if hashes_of(prev).contains(c.2.0) {
                prev
            } else {
                prev.push(c)
            }
        }
    }
}

/// The endpoint of a route served by `handler`.
pub open spec fn route_endpoint(route: RouteView, handler: CallableView, file_path: Seq<char>) -> EndpointView {
    (handler.0.0, handler.2.0, route.0, Seq::empty(), route.1, file_path, None)
}

/// The routes of a source: `HandleFunc` registrations, then `web.*` ones.
pub open spec fn legacy_routes(code: Seq<char>, globals: Map<Seq<char>, Seq<char>>) -> Seq<RouteView> {
    find_handlefunc_routes(code, globals) + find_web_routes(code, globals)
}

/// The endpoints of a source, one per route.
pub open spec fn legacy_endpoints(
    code: Seq<char>,
    file_path: Seq<char>,
    globals: Map<Seq<char>, Seq<char>>,
    index: Seq<CallableView>,
) -> Seq<EndpointView> {
    legacy_routes(code, globals).map_values(
        |r: RouteView| route_endpoint(r, resolved_handler(file_path, r, index), file_path),
    )
}

fn synthetic_parsed(file_path: &str, sig: &[char], hash: &String) -> (r: ParsedCallable)
    ensures
        callable_view(r.metadata) == bare_callable(sig@, sig@, (false, file_path@), hash@, file_path@),
        r.statements@.len() == 0,
{
    let r = ParsedCallable {
        metadata: Callable {
            name: string_of(sig),
            signature: string_of(sig),
            namespace: Namespace::Module(file_path.to_string()),
            parameters: Vec::new(),
            return_type: None,
            is_async: false,
            is_constructor: false,
            hash: hash.clone(),
            file_path: file_path.to_string(),
        },
        statements: Vec::new(),
    };
    assert(crate::model::parameters_view(r.metadata.parameters@) =~= Seq::empty());
    r
}

fn resolve_handler_callable(
    file_path: &str,
    route: &RouteRegistration,
    index: &Vec<Callable>,
    fresh: &mut Vec<ParsedCallable>,
    seen: &mut Vec<Vec<char>>,
) -> (r: Callable)
    requires
        views(old(seen)@) == hashes_of(parsed_view(old(fresh)@)),
    ensures
        callable_view(r) == resolved_handler(file_path@, route_view(*route), callables_view(index@)),
        views(final(seen)@) == hashes_of(parsed_view(final(fresh)@)),
        no_statements(old(fresh)@) ==> no_statements(final(fresh)@),
        lookup_callable(route.handler_expr@, callables_view(index@)) is Some ==> final(fresh)@
            == old(fresh)@,
        lookup_callable(route.handler_expr@, callables_view(index@)) is None ==> {
            let c = synthetic_callable(file_path@, route_view(*route));
            if hashes_of(parsed_view(old(fresh)@)).contains(c.2.0) {
                final(fresh)@ == old(fresh)@
            } else {
                parsed_view(final(fresh)@) == parsed_view(old(fresh)@).push(c)
            }
        },
{
    let handler = text_of(&route.handler_expr);
    if let Some(actual) = lookup_callable_exec(&handler, index) {
        return actual;
    }
    let mut sig = chars_of("handler ");
    crate::text::append_chars(&mut sig, &chars_of(route.http_method.as_str()));
    sig.push(' ');
    crate::text::append_chars(&mut sig, &text_of(&route.uri));
    assert(sig@ =~= synthetic_signature(route.http_method, route.uri@)) by {
        reveal_strlit(" ");
    }
    let mut keyed = chars_of(file_path);
    crate::text::append_chars(&mut keyed, &chars_of("::"));
    crate::text::append_chars(&mut keyed, &sig);
    crate::text::append_chars(&mut keyed, &chars_of("::"));
    crate::text::append_chars(&mut keyed, &handler);
    assert(keyed@ =~= file_path@ + "::"@ + sig@ + "::"@ + route.handler_expr@);
    let keyed_text = string_of(&keyed);
    let hash = crate::hashing::hash_text(keyed_text.as_str());
    let hash_chars = text_of(&hash);
    if !crate::go::shared::seen_contains(seen, &hash_chars) {
        let ghost before = fresh@;
        let ghost seen_before = seen@;
        fresh.push(synthetic_parsed(file_path, &sig, &hash));
        seen.push(hash_chars);
        assert(views(seen@) =~= views(seen_before).push(hash@));
        assert(parsed_view(fresh@) =~= parsed_view(before).push(
            synthetic_callable(file_path@, route_view(*route)),
        ));
        assert(hashes_of(parsed_view(fresh@)) =~= hashes_of(parsed_view(before)).push(hash@));
    }
    let r = Callable {
        name: string_of(&sig),
        signature: string_of(&sig),
        namespace: Namespace::Module(file_path.to_string()),
        parameters: Vec::new(),
        return_type: None,
        is_async: false,
        is_constructor: false,
        hash,
        file_path: file_path.to_string(),
    };
    assert(crate::model::parameters_view(r.parameters@) =~= Seq::empty());
    r
}

fn route_endpoint_exec(route: &RouteRegistration, handler: Callable, file_path: &str) -> (r: Endpoint)
    ensures
        endpoint_view(r) == route_endpoint(route_view(*route), callable_view(handler), file_path@),
{
    let r = Endpoint {
        function_name: handler.name,
        function_hash: handler.hash,
        http_method: route.http_method,
        parameters: Vec::new(),
        uri: route.uri.clone(),
        file_path: file_path.to_string(),
        router_variable: None,
    };
    assert(crate::model::parameters_view(r.parameters@) =~= Seq::empty());
    r
}

/// The endpoints of a source file: each `HandleFunc` and `web.*` route
/// with the callable that handles it.  A handler the index does not name
/// gets a synthetic callable, added to `synthetic` once per hash.
pub fn extract_endpoints(
    code: &str,
    file_path: &str,
    globals: &Bindings,
    index: &Vec<Callable>,
    synthetic: &mut Vec<ParsedCallable>,
) -> (r: Vec<Endpoint>)
    requires
        no_statements(old(synthetic)@),
    ensures
        endpoints_view(r@) == legacy_endpoints(code@, file_path@, globals@, callables_view(index@)),
        parsed_view(final(synthetic)@) == parsed_view(old(synthetic)@) + synthetic_fold(
            file_path@,
            legacy_routes(code@, globals@),
            callables_view(index@),
        ),
        no_statements(final(synthetic)@),
{
    let chars = chars_of(code);
    let mut routes = find_handlefunc_routes_exec(&chars, globals);
    let mut web = find_web_routes_exec(&chars, globals);
    let ghost hf = routes_view(routes@);
    routes.append(&mut web);
    let ghost rv = routes_view(routes@);
    assert(rv =~= legacy_routes(code@, globals@));
    let ghost iv = callables_view(index@);
    let mut fresh: Vec<ParsedCallable> = Vec::new();
    let mut seen: Vec<Vec<char>> = Vec::new();
    let mut endpoints: Vec<Endpoint> = Vec::new();
    let mut i: usize = 0;
    while i < routes.len()
        invariant
            i <= routes@.len(),
            rv == routes_view(routes@),
            iv == callables_view(index@),
            endpoints@.len() == i,
            endpoints_view(endpoints@) == rv.take(i as int).map_values(
                |r: RouteView| route_endpoint(r, resolved_handler(file_path@, r, iv), file_path@),
            ),
            parsed_view(fresh@) == synthetic_fold(file_path@, rv.take(i as int), iv),
            views(seen@) == hashes_of(parsed_view(fresh@)),
            no_statements(fresh@),
        decreases routes.len() - i,
    {
        assert(rv.take(i + 1).drop_last() =~= rv.take(i as int));
        assert(rv.take(i + 1).last() == route_view(routes@[i as int]));
        let h = resolve_handler_callable(file_path, &routes[i], index, &mut fresh, &mut seen);
        let ghost before_eps = endpoints@;
        endpoints.push(route_endpoint_exec(&routes[i], h, file_path));
        assert forall|j: int| 0 <= j < i + 1 implies endpoints_view(endpoints@)[j] == rv.take(i + 1).map_values(
            |r: RouteView| route_endpoint(r, resolved_handler(file_path@, r, iv), file_path@),
        )[j] by {
            if j < i {
                assert(endpoints@[j] == before_eps[j]);
                assert(endpoints_view(before_eps)[j] == rv.take(i as int).map_values(
                    |r: RouteView| route_endpoint(r, resolved_handler(file_path@, r, iv), file_path@),
                )[j]);
            }
        }
        assert(endpoints_view(endpoints@) =~= rv.take(i + 1).map_values(
            |r: RouteView| route_endpoint(r, resolved_handler(file_path@, r, iv), file_path@),
        ));
        i = i + 1;
    }
    let ghost base = synthetic@;
    let ghost fv = fresh@;
    synthetic.append(&mut fresh);
    assert(synthetic@ =~= base + fv);
    assert(parsed_view(synthetic@) =~= parsed_view(base) + parsed_view(fv));
    assert forall|k: int| 0 <= k < synthetic@.len() implies (#[trigger] synthetic@[k]).statements@.len() == 0 by {
        if k >= base.len() {
            assert(synthetic@[k] == fv[k - base.len()]);
        }
    }
    assert(rv.take(routes@.len() as int) =~= rv);
    endpoints
}

/// The signature and hash a function's calls are recorded under: those of
/// the indexed callable of its simple name, or else the block's own.
pub open spec fn block_caller(b: BlockView, index: Seq<CallableView>) -> (Seq<char>, Seq<char>) {
    match last_named(index, legacy_simple_name(b.0)) {
        Some(i) => (index[i].0.1, index[i].2.0),
        None => (b.0, b.1),
    }
}

pub open spec fn legacy_call(
    caller: (Seq<char>, Seq<char>),
    m: HttpMethod,
    target: Seq<char>,
    file_path: Seq<char>,
) -> RestCallView {
    (caller.0, caller.1, Seq::empty(), m, target, file_path)
}

/// The calls of `exchange(ctx, service, method, path, ...)` matches whose
/// method is known.
pub open spec fn exchange_calls(
    caps: Seq<Seq<Option<Seq<char>>>>,
    scope: Map<Seq<char>, Seq<char>>,
    caller: (Seq<char>, Seq<char>),
    file_path: Seq<char>,
) -> Seq<RestCallView>
    decreases caps.len(),
{
    if caps.len() == 0 {
        Seq::empty()
    } else {
        let g = caps.last();
        exchange_calls(caps.drop_last(), scope, caller, file_path) + match (
            group(g, 1),
            group(g, 2),
            group(g, 3),
        ) {
            (Some(service), Some(method), Some(path)) => match legacy_method(method) {
                Some(m) => seq![
                    legacy_call(
                        caller,
                        m,
                        crate::go::identify::exchange_uri(
                            legacy_eval(service, scope),
                            legacy_eval(path, scope),
                        ),
                        file_path,
                    ),
                ],
                None => Seq::empty(),
            },
            _ => Seq::empty(),
        }
    }
}

/// The calls with method `m` to the URL of group 1 of each match.
pub open spec fn url_calls(
    caps: Seq<Seq<Option<Seq<char>>>>,
    scope: Map<Seq<char>, Seq<char>>,
    caller: (Seq<char>, Seq<char>),
    m: HttpMethod,
    file_path: Seq<char>,
) -> Seq<RestCallView>
    decreases caps.len(),
{
    if caps.len() == 0 {
        Seq::empty()
    } else {
        url_calls(caps.drop_last(), scope, caller, m, file_path) + match group(caps.last(), 1) {
            Some(u) => seq![legacy_call(caller, m, legacy_eval(u, scope), file_path)],
            None => Seq::empty(),
        }
    }
}

/// The calls of `http.NewRequest(method, url, ...)` matches whose method is
/// known.
pub open spec fn new_request_calls(
    caps: Seq<Seq<Option<Seq<char>>>>,
    scope: Map<Seq<char>, Seq<char>>,
    caller: (Seq<char>, Seq<char>),
    file_path: Seq<char>,
) -> Seq<RestCallView>
    decreases caps.len(),
{
    if caps.len() == 0 {
        Seq::empty()
    } else {
        let g = caps.last();
        new_request_calls(caps.drop_last(), scope, caller, file_path) + match (group(g, 1), group(g, 2)) {
            (Some(method), Some(u)) => match legacy_method(method) {
                Some(m) => seq![legacy_call(caller, m, legacy_eval(u, scope), file_path)],
                None => Seq::empty(),
            },
            _ => Seq::empty(),
        }
    }
}

/// The calls of one function: `exchange`, then `http.Get`, `http.Post` and
/// `http.NewRequest`, each evaluated in the function's merged scope.
pub open spec fn function_restcalls(
    b: BlockView,
    file_path: Seq<char>,
    globals: Map<Seq<char>, Seq<char>>,
    index: Seq<CallableView>,
) -> Seq<RestCallView> {
    let scope = merged_scope(globals, b.3);
    let caller = block_caller(b, index);
    let caps = |p: Seq<char>| crate::regexes::regex_captures(p, b.3);
    exchange_calls(caps(EXCHANGE_PATTERN@), scope, caller, file_path) + url_calls(
        caps(HTTP_GET_PATTERN@),
        scope,
        caller,
        HttpMethod::GET,
        file_path,
    ) + url_calls(caps(HTTP_POST_PATTERN@), scope, caller, HttpMethod::POST, file_path)
        + new_request_calls(caps(HTTP_NEW_REQUEST_PATTERN@), scope, caller, file_path)
}

pub open spec fn blocks_restcalls(
    bs: Seq<BlockView>,
    file_path: Seq<char>,
    globals: Map<Seq<char>, Seq<char>>,
    index: Seq<CallableView>,
) -> Seq<RestCallView>
    decreases bs.len(),
{
    if bs.len() == 0 {
        Seq::empty()
    } else {
        blocks_restcalls(bs.drop_last(), file_path, globals, index) + function_restcalls(
            bs.last(),
            file_path,
            globals,
            index,
        )
    }
}

/// The outgoing calls of a source, function by function.
pub open spec fn legacy_restcalls(
    code: Seq<char>,
    file_path: Seq<char>,
    globals: Map<Seq<char>, Seq<char>>,
    index: Seq<CallableView>,
) -> Seq<RestCallView> {
    blocks_restcalls(find_functions(code), file_path, globals, index)
}

fn push_call(
    out: &mut Vec<RestCall>,
    caller: &(Vec<char>, Vec<char>),
    m: HttpMethod,
    target: &[char],
    file_path: &str,
)
    ensures
        restcalls_view(final(out)@) == restcalls_view(old(out)@).push(
            legacy_call((caller.0@, caller.1@), m, target@, file_path@),
        ),
{
    let c = RestCall {
        function_name: string_of(&caller.0),
        function_hash: string_of(&caller.1),
        call_arguments: Vec::new(),
        http_method: m,
        target_uri: string_of(target),
        file_path: file_path.to_string(),
    };
    assert(restcall_view(c).2 =~= Seq::empty());
    out.push(c);
    assert(restcalls_view(out@) =~= restcalls_view(old(out)@).push(
        legacy_call((caller.0@, caller.1@), m, target@, file_path@),
    ));
}

fn exchange_uri_exec(service: &[char], path: &[char]) -> (r: Vec<char>)
    ensures
        r@ == crate::go::identify::exchange_uri(service@, path@),
{
    if crate::text::starts_with_exec(service, &chars_of("http://")) || crate::text::starts_with_exec(
        service,
        &chars_of("https://"),
    ) {
        crate::text::concat(&trim_end_str_exec(service, &one('/')), path)
    } else {
        let mut u = chars_of("http://");
        let ghost u0 = u@;
        crate::text::append_chars(&mut u, service);
        crate::text::append_chars(&mut u, path);
        assert(u@ =~= u0 + service@ + path@);
        u
    }
}

/// 0: exchange, 1: one-URL calls with method `m`, 2: `NewRequest`.
fn add_calls(
    out: &mut Vec<RestCall>,
    kind: u8,
    caps: &Vec<Vec<Option<String>>>,
    scope: &Bindings,
    caller: &(Vec<char>, Vec<char>),
    m: HttpMethod,
    file_path: &str,
)
    requires
        kind <= 2,
    ensures
        restcalls_view(final(out)@) == restcalls_view(old(out)@) + if kind == 0 {
            exchange_calls(crate::regexes::captures_view(caps@), scope@, (caller.0@, caller.1@), file_path@)
        } else if kind == 1 {
            url_calls(crate::regexes::captures_view(caps@), scope@, (caller.0@, caller.1@), m, file_path@)
        } else {
            new_request_calls(crate::regexes::captures_view(caps@), scope@, (caller.0@, caller.1@), file_path@)
        },
{
    let ghost cv = crate::regexes::captures_view(caps@);
    let ghost cl = (caller.0@, caller.1@);
    let ghost start = restcalls_view(out@);
    let ghost f = |c: Seq<Seq<Option<Seq<char>>>>| if kind == 0 {
        exchange_calls(c, scope@, cl, file_path@)
    } else if kind == 1 {
        url_calls(c, scope@, cl, m, file_path@)
    } else {
        new_request_calls(c, scope@, cl, file_path@)
    };
    let mut i: usize = 0;
    assert(start =~= start + f(cv.take(0)));
    while i < caps.len()
        invariant
            i <= caps@.len(),
            kind <= 2,
            cv == crate::regexes::captures_view(caps@),
            cl == (caller.0@, caller.1@),
            f == (|c: Seq<Seq<Option<Seq<char>>>>| if kind == 0 {
                exchange_calls(c, scope@, cl, file_path@)
            } else if kind == 1 {
                url_calls(c, scope@, cl, m, file_path@)
            } else {
                new_request_calls(c, scope@, cl, file_path@)
            }),
            restcalls_view(out@) == start + f(cv.take(i as int)),
        decreases caps.len() - i,
    {
        let ghost before = restcalls_view(out@);
        assert(cv.take(i + 1).drop_last() =~= cv.take(i as int));
        assert(cv.take(i + 1).last() == groups_view(caps@[i as int]@));
        let g = &caps[i];
        if kind == 0 {
            match (group_exec(g, 1), group_exec(g, 2), group_exec(g, 3)) {
                (Some(service), Some(method), Some(path)) => match legacy_method_exec(&text_of(&method)) {
                    Some(mm) => {
                        let sv = legacy_eval_exec(&text_of(&service), scope);
                        let pv = legacy_eval_exec(&text_of(&path), scope);
                        push_call(out, caller, mm, &exchange_uri_exec(&sv, &pv), file_path);
                    },
                    None => {},
                },
                _ => {},
            }
        } else if kind == 1 {
            match group_exec(g, 1) {
                Some(u) => {
                    let uv = legacy_eval_exec(&text_of(&u), scope);
                    push_call(out, caller, m, &uv, file_path);
                },
                None => {},
            }
        } else {
            match (group_exec(g, 1), group_exec(g, 2)) {
                (Some(method), Some(u)) => match legacy_method_exec(&text_of(&method)) {
                    Some(mm) => {
                        let uv = legacy_eval_exec(&text_of(&u), scope);
                        push_call(out, caller, mm, &uv, file_path);
                    },
                    None => {},
                },
                _ => {},
            }
        }
        assert(restcalls_view(out@) =~= start + f(cv.take(i + 1)));
        i = i + 1;
    }
    assert(cv.take(caps@.len() as int) =~= cv);
}

/// The calls read from the matches of the `exchange`, `http.Get`,
/// `http.Post` and `http.NewRequest` patterns over a function body, in that
/// order, each URL evaluated in `scope` and attributed to the caller with
/// the given signature and hash.
pub fn calls_from_captures(
    exchanges: &Vec<Vec<Option<String>>>,
    gets: &Vec<Vec<Option<String>>>,
    posts: &Vec<Vec<Option<String>>>,
    requests: &Vec<Vec<Option<String>>>,
    scope: &Bindings,
    caller_signature: &Vec<char>,
    caller_hash: &Vec<char>,
    file_path: &str,
) -> (r: Vec<RestCall>)
    ensures
        ({
            let cl = (caller_signature@, caller_hash@);
            restcalls_view(r@) == exchange_calls(crate::regexes::captures_view(exchanges@), scope@, cl, file_path@)
                + url_calls(crate::regexes::captures_view(gets@), scope@, cl, HttpMethod::GET, file_path@)
                + url_calls(crate::regexes::captures_view(posts@), scope@, cl, HttpMethod::POST, file_path@)
                + new_request_calls(crate::regexes::captures_view(requests@), scope@, cl, file_path@)
        }),
{
    let caller = (slice_chars(caller_signature, 0, caller_signature.len()), slice_chars(caller_hash, 0, caller_hash.len()));
    assert(caller.0@ =~= caller_signature@);
    assert(caller.1@ =~= caller_hash@);
    let mut out: Vec<RestCall> = Vec::new();
    assert(restcalls_view(out@) =~= Seq::empty());
    add_calls(&mut out, 0, exchanges, scope, &caller, HttpMethod::GET, file_path);
    let ghost s1 = restcalls_view(out@);
    assert(s1 =~= exchange_calls(crate::regexes::captures_view(exchanges@), scope@, (caller_signature@, caller_hash@), file_path@));
    add_calls(&mut out, 1, gets, scope, &caller, HttpMethod::GET, file_path);
    add_calls(&mut out, 1, posts, scope, &caller, HttpMethod::POST, file_path);
    add_calls(&mut out, 2, requests, scope, &caller, HttpMethod::GET, file_path);
    out
}

fn function_restcalls_exec(
    out: &mut Vec<RestCall>,
    b: &FunctionBlock,
    file_path: &str,
    globals: &Bindings,
    index: &Vec<Callable>,
)
    ensures
        restcalls_view(final(out)@) == restcalls_view(old(out)@) + function_restcalls(
            block_view(*b),
            file_path@,
            globals@,
            callables_view(index@),
        ),
{
    let body = text_of(&b.body);
    let scope = merged_scope_exec(globals, &body);
    let sig = text_of(&b.signature);
    let caller = match lookup_named_exec(index, &legacy_simple_name_exec(&sig)) {
        Some(c) => (text_of(&c.signature), text_of(&c.hash)),
        None => (sig, text_of(&b.hash)),
    };
    assert((caller.0@, caller.1@) == block_caller(block_view(*b), callables_view(index@)));
    let ghost s0 = restcalls_view(out@);
    let body_text = b.body.as_str();
    let mut calls = calls_from_captures(
        &crate::regexes::captures_all(EXCHANGE_PATTERN, body_text),
        &crate::regexes::captures_all(HTTP_GET_PATTERN, body_text),
        &crate::regexes::captures_all(HTTP_POST_PATTERN, body_text),
        &crate::regexes::captures_all(HTTP_NEW_REQUEST_PATTERN, body_text),
        &scope,
        &caller.0,
        &caller.1,
        file_path,
    );
    let ghost cv = restcalls_view(calls@);
    out.append(&mut calls);
    assert(restcalls_view(out@) =~= s0 + cv);
    assert(restcalls_view(out@) =~= s0 + function_restcalls(
        block_view(*b),
        file_path@,
        globals@,
        callables_view(index@),
    ));
}

/// The last indexed callable whose simple name is `key`.
fn lookup_named_exec(index: &Vec<Callable>, key: &[char]) -> (r: Option<Callable>)
    ensures
        r matches Some(c) ==> (last_named(callables_view(index@), key@) matches Some(i) && callable_view(c)
            == callables_view(index@)[i]),
        r is None ==> last_named(callables_view(index@), key@) is None,
{
    let ghost cv = callables_view(index@);
    let mut i: usize = index.len();
    assert(cv.take(i as int) =~= cv);
    while i > 0
        invariant
            i <= index@.len(),
            cv == callables_view(index@),
            last_named(cv, key@) == last_named(cv.take(i as int), key@),
        decreases i,
    {
        assert(cv.take(i as int).drop_last() =~= cv.take(i - 1));
        assert(cv.take(i as int).last() == callable_view(index@[i - 1]));
        let name = legacy_simple_name_exec(&text_of(&index[i - 1].name));
        if crate::text::chars_eq(&name, key) {
            assert(last_named(cv.take(i as int), key@) == Some(i - 1));
            assert(cv[i - 1] == callable_view(index@[i - 1]));
            return Some(copy_callable(&index[i - 1]));
        }
        i = i - 1;
    }
    assert(cv.take(0) =~= Seq::<CallableView>::empty());
    None
}

/// The outgoing calls of a source file, function by function: `exchange`
/// calls, `http.Get`, `http.Post` and `http.NewRequest`, their URLs
/// evaluated in each function's scope.
pub fn extract_restcalls(code: &str, file_path: &str, globals: &Bindings, index: &Vec<Callable>) -> (r: Vec<
    RestCall,
>)
    ensures
        restcalls_view(r@) == legacy_restcalls(code@, file_path@, globals@, callables_view(index@)),
{
    let blocks = find_functions_exec(code);
    let ghost bv = blocks_view(blocks@);
    let mut out: Vec<RestCall> = Vec::new();
    let mut i: usize = 0;
    while i < blocks.len()
        invariant
            i <= blocks@.len(),
            bv == blocks_view(blocks@),
            bv == find_functions(code@),
            restcalls_view(out@) == blocks_restcalls(bv.take(i as int), file_path@, globals@, callables_view(index@)),
        decreases blocks.len() - i,
    {
        assert(bv.take(i + 1).drop_last() =~= bv.take(i as int));
        assert(bv.take(i + 1).last() == block_view(blocks@[i as int]));
        function_restcalls_exec(&mut out, &blocks[i], file_path, globals, index);
        i = i + 1;
    }
    assert(bv.take(blocks@.len() as int) =~= bv);
    out
}

/// The name of the assignment that carries a file's source text.
pub const GO_SOURCE_SENTINEL: &'static str = "__go_source__";

/// The record of a source file: its endpoints, its callables followed by
/// the synthetic handlers its routes need, and its whole text as the global
/// assignment of `GO_SOURCE_SENTINEL`.
pub fn extract_syntactic(text: &str, file_path: &str) -> (r: crate::model::FileRecord)
    ensures
        r.file_path@ == file_path@,
        r.language == crate::model::Language::Go,
        r.imports@.len() == 0,
        r.entities@.len() == 0,
        r.call_statements@.len() == 0,
        r.raw_message_edges@.len() == 0,
        endpoints_view(r.endpoints@) == legacy_endpoints(
            text@,
            file_path@,
            string_bindings(text@),
            legacy_callables(text@, file_path@),
        ),
        parsed_view(r.callables@) == legacy_callables(text@, file_path@) + synthetic_fold(
            file_path@,
            legacy_routes(text@, string_bindings(text@)),
            legacy_callables(text@, file_path@),
        ),
        no_statements(r.callables@),
        r.assignments@.len() == 1,
        crate::model::scope_view(r.assignments@[0].0.scope) == (0int, Seq::<char>::empty()),
        r.assignments@[0].0.variable_name@ == GO_SOURCE_SENTINEL@,
        r.assignments@[0].1.variable_name@ == GO_SOURCE_SENTINEL@,
        r.assignments@[0].1.variable_type@ == "string"@,
        r.assignments@[0].1.value@ == text@,
{
    let globals = collect_string_bindings(text);
    let mut callables = extract_callables(text, file_path);
    let index = build_callable_index(&callables);
    let mut synthetic: Vec<ParsedCallable> = Vec::new();
    let endpoints = extract_endpoints(text, file_path, &globals, &index, &mut synthetic);
    let ghost own = callables@;
    let ghost syn = synthetic@;
    callables.append(&mut synthetic);
    assert(callables@ =~= own + syn);
    assert(parsed_view(callables@) =~= parsed_view(own) + parsed_view(syn));
    assert forall|k: int| 0 <= k < callables@.len() implies (#[trigger] callables@[k]).statements@.len() == 0 by {
        if k >= own.len() {
            assert(callables@[k] == syn[k - own.len()]);
        } else {
            assert(callables@[k] == own[k]);
        }
    }
    let mut assignments: Vec<(crate::model::AssignmentKey, crate::model::Assignment)> = Vec::new();
    assignments.push(
        (
            crate::model::AssignmentKey {
                scope: crate::model::Scope::Global,
                variable_name: GO_SOURCE_SENTINEL.to_string(),
            },
            crate::model::Assignment {
                variable_name: GO_SOURCE_SENTINEL.to_string(),
                variable_type: "string".to_string(),
                value: text.to_string(),
            },
        ),
    );
    crate::model::FileRecord {
        file_path: file_path.to_string(),
        language: crate::model::Language::Go,
        imports: Vec::new(),
        entities: Vec::new(),
        endpoints,
        callables,
        call_statements: Vec::new(),
        assignments,
        raw_message_edges: Vec::new(),
    }
}

/// Records the outgoing calls of a file's source `code`, attributed to the
/// file's callables; nothing else of the record changes.
pub fn identify(file: &mut crate::model::TypedFileRecord, code: &str)
    ensures
        restcalls_view(final(file).raw_restcalls@) == legacy_restcalls(
            code@,
            old(file).file_path@,
            string_bindings(code@),
            parsed_view(old(file).callables@),
        ),
        final(file).file_path == old(file).file_path,
        final(file).imports == old(file).imports,
        final(file).endpoints == old(file).endpoints,
        final(file).callables == old(file).callables,
        final(file).call_statements == old(file).call_statements,
        final(file).assignments == old(file).assignments,
        final(file).raw_message_edges == old(file).raw_message_edges,
        final(file).language == old(file).language,
{
    let globals = collect_string_bindings(code);
    let index = build_callable_index(&file.callables);
    let fp = file.file_path.clone();
    file.raw_restcalls = extract_restcalls(code, fp.as_str(), &globals, &index);
}

/// The position of the first global assignment of `GO_SOURCE_SENTINEL`.
pub open spec fn sentinel_position(a: Seq<(crate::model::AssignmentKey, crate::model::Assignment)>, n: int) -> Option<int>
    decreases n,
{
    if n <= 0 {
        None
    } else {
        match sentinel_position(a, n - 1) {
            Some(i) => Some(i),
            None => if crate::model::scope_view(a[n - 1].0.scope) == (0int, Seq::<char>::empty())
                && a[n - 1].0.variable_name@ == GO_SOURCE_SENTINEL@ {
                Some(n - 1)
            } else {
                None
            },
        }
    }
}

proof fn lemma_sentinel_stable(
    a: Seq<(crate::model::AssignmentKey, crate::model::Assignment)>,
    m: int,
    n: int,
)
    requires
        m <= n,
        sentinel_position(a, m) is Some,
    ensures
        sentinel_position(a, n) == sentinel_position(a, m),
    decreases n - m,
{
    if m < n {
        lemma_sentinel_stable(a, m, n - 1);
    }
}

/// The source text a record carries as its `GO_SOURCE_SENTINEL` assignment.
pub fn source_from_assignments(file: &crate::model::TypedFileRecord) -> (r: Option<String>)
    ensures
        r matches Some(v) ==> (sentinel_position(file.assignments@, file.assignments@.len() as int) matches Some(
            i,
        ) && 0 <= i < file.assignments@.len() && v@ == file.assignments@[i].1.value@),
        r is None ==> sentinel_position(file.assignments@, file.assignments@.len() as int) is None,
{
    let key = chars_of(GO_SOURCE_SENTINEL);
    let n = file.assignments.len();
    let mut i: usize = 0;
    while i < n
        invariant
            i <= n,
            n == file.assignments@.len(),
            key@ == GO_SOURCE_SENTINEL@,
            sentinel_position(file.assignments@, i as int) is None,
        decreases n - i,
    {
        let (k, a) = &file.assignments[i];
        let global = match k.scope {
            crate::model::Scope::Global => true,
            _ => false,
        };
        if global && crate::text::chars_eq(&text_of(&k.variable_name), &key) {
            assert(sentinel_position(file.assignments@, i + 1) == Some(i as int));
            proof {
                lemma_sentinel_stable(file.assignments@, i + 1, n as int);
            }
            return Some(a.value.clone());
        }
        i = i + 1;
    }
    None
}

/// The synthetic handlers a file's routes add have pairwise different
/// hashes.
pub proof fn lemma_synthetic_distinct(file_path: Seq<char>, routes: Seq<RouteView>, index: Seq<CallableView>)
    ensures
        forall|a: int, b: int|
            0 <= a < b < synthetic_fold(file_path, routes, index).len() ==> #[trigger] synthetic_fold(
                file_path,
                routes,
                index,
            )[a].2.0 != #[trigger] synthetic_fold(file_path, routes, index)[b].2.0,
    decreases routes.len(),
{
    if routes.len() > 0 {
        let prev = synthetic_fold(file_path, routes.drop_last(), index);
        lemma_synthetic_distinct(file_path, routes.drop_last(), index);
        let r = synthetic_fold(file_path, routes, index);
        let c = synthetic_callable(file_path, routes.last());
        if r != prev {
            assert(r == prev.push(c));
            assert(!hashes_of(prev).contains(c.2.0));
            assert forall|a: int, b: int| 0 <= a < b < r.len() implies #[trigger] r[a].2.0 != #[trigger] r[b].2.0 by {
                if b == prev.len() {
                    assert(hashes_of(prev)[a] == prev[a].2.0);
                    assert(r[a] == prev[a]);
                } else {
                    assert(r[a] == prev[a] && r[b] == prev[b]);
                }
            }
        }
    }
}

proof fn lemma_brace_from_closes(s: Seq<char>, i: int, in_string: bool, escaped: bool, depth: nat)
    requires
        0 <= i,
    ensures
        brace_from(s, i, in_string, escaped, depth) matches Some(c) ==> i <= c < s.len() && s[c] == '}',
    decreases s.len() - i,
{
    if i < s.len() {
        let c = s[i];
        if c == '"' && !escaped {
            lemma_brace_from_closes(s, i + 1, !in_string, false, depth);
        } else if c == '\\' && in_string {
            lemma_brace_from_closes(s, i + 1, in_string, !escaped, depth);
        } else if c == '{' && !in_string {
            lemma_brace_from_closes(s, i + 1, in_string, false, depth + 1);
        } else if c == '}' && !in_string {
            let d: nat = if depth == 0 {
                0
            } else {
                (depth - 1) as nat
            };
            if d != 0 {
                lemma_brace_from_closes(s, i + 1, in_string, false, d);
            }
        } else {
            lemma_brace_from_closes(s, i + 1, in_string, false, depth);
        }
    }
}

/// The brace that matches an opening position is a `}` at or after it.
pub proof fn lemma_matching_brace_closes(s: Seq<char>, open: int)
    requires
        0 <= open,
    ensures
        matching_brace(s, open) matches Some(c) ==> open <= c < s.len() && s[c] == '}',
{
    lemma_brace_from_closes(s, open, false, false, 0);
}

} // verus!
