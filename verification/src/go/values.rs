//! Static configuration values behind Go selectors: composite literals,
//! parameter bindings and constants.
use vstd::prelude::*;

use crate::bindings::Bindings;
use crate::sorting::texts;
use crate::text::{
    chars_eq, chars_of, concat, find, find_char_exec, find_exec, join, join_exec, one, rfind,
    rfind_char_exec, slice_chars, split_char, split_char_exec, split_once, split_once_exec,
    string_of, text_of, trim, trim_exec,
};

verus! {

/// Where the contents of the outer composite literal of `v` start and end:
/// after the first `{` and at the last `}`.
pub open spec fn composite_bounds(v: Seq<char>) -> Option<(int, int)> {
    match (find(v, seq!['{']), rfind(v, seq!['}'])) {
        (Some(a), Some(b)) => Some((a + 1, b)),
        _ => None,
    }
}

/// The braces of `v` leave a (possibly empty) body between them; reading a
/// composite literal whose last `}` stands before its first `{` is refused.
pub open spec fn composite_ok(v: Seq<char>) -> bool {
    composite_bounds(v) matches Some((s, e)) ==> s <= e
}

pub open spec fn is_open(c: char) -> bool {
    c == '{' || c == '[' || c == '('
}

pub open spec fn is_close(c: char) -> bool {
    c == '}' || c == ']' || c == ')'
}

/// The value of the top-level item `field: value` of a literal body, scanning
/// from `i`; the body is read as if it ended with a `,`.
pub open spec fn field_scan(body: Seq<char>, field: Seq<char>, i: nat, depth: nat, start: nat) -> Option<Seq<char>>
    decreases body.len() + 1 - i,
{
    if i > body.len() {
        None
    } else {
        let c = if i == body.len() {
            ','
        } else {
            body[i as int]
        };
        if is_open(c) {
            field_scan(body, field, i + 1, depth + 1, start)
        } else if is_close(c) {
            field_scan(body, field, i + 1, if depth == 0 { 0 } else { (depth - 1) as nat }, start)
        } else if c == ',' && depth == 0 {
            let item = trim(body.subrange(start as int, i as int));
            match split_once(item, ':') {
                Some((name, value)) if trim(name) == field => Some(trim(value)),
                _ => field_scan(body, field, i + 1, depth, i + 1),
            }
        } else {
            field_scan(body, field, i + 1, depth, start)
        }
    }
}

/// The value of the named top-level field of a Go composite literal.
pub open spec fn composite_field_value(v: Seq<char>, field: Seq<char>) -> Option<Seq<char>> {
    match composite_bounds(v) {
        Some((s, e)) => field_scan(v.subrange(s, e), field, 0, 0, 0),
        None => None,
    }
}

proof fn lemma_bounds(v: Seq<char>)
    ensures
        composite_bounds(v) matches Some((s, e)) ==> 1 <= s <= v.len() && 0 <= e < v.len(),
{
    crate::text::lemma_find(v, seq!['{']);
    crate::text::lemma_rfind(v, seq!['}']);
}

/// The bounds of the outer composite literal of `v`.
fn composite_bounds_exec(v: &[char]) -> (r: Option<(usize, usize)>)
    ensures
        r matches Some((s, e)) ==> composite_bounds(v@) == Some((s as int, e as int)) && 1 <= s && e < v@.len(),
        r is None ==> composite_bounds(v@) is None,
{
    proof {
        lemma_bounds(v@);
    }
    let _n = v.len();
    let a = match find_char_exec(v, '{') {
        Some(a) => a,
        None => return None,
    };
    let b = match rfind_char_exec(v, '}') {
        Some(b) => b,
        None => return None,
    };
    Some((a + 1, b))
}

/// Reads a named top-level field from a Go composite literal without
/// flattening nested values.
pub fn composite_field_value_exec(v: &[char], field: &[char]) -> (r: Option<Vec<char>>)
    requires
        composite_ok(v@),
    ensures
        r matches Some(x) ==> composite_field_value(v@, field@) == Some(x@),
        r is None ==> composite_field_value(v@, field@) is None,
{
    let (s, e) = match composite_bounds_exec(v) {
        Some(b) => b,
        None => return None,
    };
    let body = slice_chars(v, s, e);
    let n = body.len();
    let mut depth: usize = 0;
    let mut start: usize = 0;
    let mut i: usize = 0;
    while i <= n
        invariant
            n == body@.len(),
            i <= n + 1,
            start <= i,
            start <= n,
            depth <= i,
            composite_field_value(v@, field@) == field_scan(body@, field@, i as nat, depth as nat, start as nat),
        decreases n + 1 - i,
    {
        let c = if i == n {
            ','
        } else {
            body[i]
        };
        let ghost d0 = depth;
        let ghost s0 = start;
        if c == '{' || c == '[' || c == '(' {
            depth = depth + 1;
        } else if c == '}' || c == ']' || c == ')' {
            if depth > 0 {
                depth = depth - 1;
            }
        } else if c == ',' && depth == 0 {
            let item = trim_exec(&slice_chars(&body, start, i));
            match split_once_exec(&item, ':') {
                Some((name, value)) => {
                    if chars_eq(&trim_exec(&name), field) {
                        return Some(trim_exec(&value));
                    }
                },
                None => {},
            }
            start = if i < n { i + 1 } else { n };
        }
        if i == n {
            assert(field_scan(body@, field@, n as nat, d0 as nat, s0 as nat) is None) by {
                assert(field_scan(body@, field@, (n + 1) as nat, d0 as nat, (n + 1) as nat) is None);
                assert(field_scan(body@, field@, (n + 1) as nat, d0 as nat, s0 as nat) is None);
            }
            return None;
        }
        i = i + 1;
    }
    None
}

/// Reading `selector` (fields joined by `.`) out of `v` never meets a
/// refused composite literal.
pub open spec fn selector_ok(v: Seq<char>, selector: Seq<char>) -> bool
    decreases selector.len(),
{
    composite_ok(v) && match split_once(selector, '.') {
        Some((field, rest)) => {
            proof {
                crate::text::lemma_find(selector, seq!['.']);
            }
            match composite_field_value(v, field) {
                Some(selected) => selector_ok(selected, rest),
                None => true,
            }
        },
        None => true,
    }
}

/// Whether the braces of `v` can be read as a composite literal.
pub fn composite_ok_exec(v: &[char]) -> (r: bool)
    ensures
        r == composite_ok(v@),
{
    match composite_bounds_exec(v) {
        Some((s, e)) => s <= e,
        None => true,
    }
}

/// Whether reading `selector` out of `v` meets only readable composite
/// literals.
pub fn selector_ok_exec(v: &[char], selector: &[char]) -> (r: bool)
    ensures
        r == selector_ok(v@, selector@),
    decreases selector@.len(),
{
    if !composite_ok_exec(v) {
        return false;
    }
    proof {
        crate::text::lemma_find(selector@, seq!['.']);
    }
    match split_once_exec(selector, '.') {
        Some((field, rest)) => match composite_field_value_exec(v, &field) {
            Some(selected) => selector_ok_exec(&selected, &rest),
            None => true,
        },
        None => true,
    }
}

/// The value a selector path (fields joined by `.`) reads from nested
/// composite literals.
pub open spec fn selector_value(v: Seq<char>, selector: Seq<char>) -> Option<Seq<char>>
    decreases selector.len(),
{
    match split_once(selector, '.') {
        Some((field, rest)) => {
            proof {
                crate::text::lemma_find(selector, seq!['.']);
            }
            match composite_field_value(v, field) {
                Some(selected) => selector_value(selected, rest),
                None => None,
            }
        },
        None => composite_field_value(v, selector),
    }
}

/// Resolves a selector path from a Go struct literal passed through a
/// constructor: the one value that the path names.
pub fn composite_selector_values(value: &str, selector: &str) -> (r: Option<Vec<String>>)
    requires
        selector_ok(value@, selector@),
    ensures
        r matches Some(vs) ==> selector_value(value@, selector@) == Some(vs@[0]@) && vs.len() == 1,
        r is None ==> selector_value(value@, selector@) is None,
{
    let v = chars_of(value);
    let s = chars_of(selector);
    match selector_value_exec(&v, &s) {
        Some(x) => {
            let mut out: Vec<String> = Vec::new();
            out.push(string_of(&x));
            Some(out)
        },
        None => None,
    }
}

fn selector_value_exec(v: &[char], selector: &[char]) -> (r: Option<Vec<char>>)
    requires
        selector_ok(v@, selector@),
    ensures
        r matches Some(x) ==> selector_value(v@, selector@) == Some(x@),
        r is None ==> selector_value(v@, selector@) is None,
    decreases selector@.len(),
{
    proof {
        crate::text::lemma_find(selector@, seq!['.']);
    }
    match split_once_exec(selector, '.') {
        Some((field, rest)) => {
            match composite_field_value_exec(v, &field) {
                Some(selected) => selector_value_exec(&selected, &rest),
                None => None,
            }
        },
        None => composite_field_value_exec(v, selector),
    }
}

/// The non-empty top-level items of a literal body, scanning from `i`.
pub open spec fn items_scan(body: Seq<char>, i: nat, depth: nat, start: nat) -> Seq<Seq<char>>
    decreases body.len() - i,
{
    if i >= body.len() {
        let item = trim(body.subrange(start as int, body.len() as int));
        if item.len() > 0 {
            seq![item]
        } else {
            Seq::empty()
        }
    } else {
        let c = body[i as int];
        if is_open(c) {
            items_scan(body, i + 1, depth + 1, start)
        } else if is_close(c) {
            items_scan(body, i + 1, if depth == 0 { 0 } else { (depth - 1) as nat }, start)
        } else if c == ',' && depth == 0 {
            let item = trim(body.subrange(start as int, i as int));
            (if item.len() > 0 {
                seq![item]
            } else {
                Seq::empty()
            }) + items_scan(body, i + 1, depth, i + 1)
        } else {
            items_scan(body, i + 1, depth, start)
        }
    }
}

/// The top-level items of a Go composite literal such as `[]QueueConfig{a, b}`.
pub open spec fn composite_items(v: Seq<char>) -> Seq<Seq<char>> {
    match composite_bounds(v) {
        Some((s, e)) => items_scan(v.subrange(s, e), 0, 0, 0),
        None => Seq::empty(),
    }
}

/// Extracts the top-level items of a Go composite literal.
pub fn composite_items_exec(v: &[char]) -> (r: Vec<String>)
    requires
        composite_ok(v@),
    ensures
        texts(r@) == composite_items(v@),
{
    let (s, e) = match composite_bounds_exec(v) {
        Some(b) => b,
        None => return Vec::new(),
    };
    let body = slice_chars(v, s, e);
    let n = body.len();
    let mut items: Vec<String> = Vec::new();
    let mut depth: usize = 0;
    let mut start: usize = 0;
    let mut i: usize = 0;
    while i < n
        invariant
            n == body@.len(),
            i <= n,
            start <= i,
            depth <= i,
            composite_items(v@) == texts(items@) + items_scan(body@, i as nat, depth as nat, start as nat),
        decreases n - i,
    {
        let c = body[i];
        if c == '{' || c == '[' || c == '(' {
            depth = depth + 1;
        } else if c == '}' || c == ']' || c == ')' {
            if depth > 0 {
                depth = depth - 1;
            }
        } else if c == ',' && depth == 0 {
            let item = trim_exec(&slice_chars(&body, start, i));
            let ghost before = texts(items@);
            if item.len() > 0 {
                items.push(string_of(&item));
                assert(texts(items@) =~= before + seq![item@]);
            } else {
                assert(texts(items@) =~= before + Seq::<Seq<char>>::empty());
            }
            start = i + 1;
        }
        i = i + 1;
    }
    let item = trim_exec(&slice_chars(&body, start, n));
    let ghost before = texts(items@);
    if item.len() > 0 {
        items.push(string_of(&item));
        assert(texts(items@) =~= before + seq![item@]);
    } else {
        assert(texts(items@) =~= before + Seq::<Seq<char>>::empty());
    }
    items
}

/// The suffixes of a dotted selector made of whole segments, shortest first:
/// for `a.b.c`, `c`, `b.c`, `a.b.c`.
pub open spec fn selector_suffixes(v: Seq<char>) -> Seq<Seq<char>> {
    let parts = split_char(v, '.');
    Seq::new(parts.len(), |k: int| join(parts.skip(parts.len() - (k + 1)), seq!['.']))
}

/// Produces selector suffixes that are specific enough to avoid field-name
/// collisions.
pub fn selector_suffixes_exec(v: &[char]) -> (r: Vec<String>)
    ensures
        texts(r@) == selector_suffixes(v@),
{
    let parts = split_char_exec(v, '.');
    let ghost views = parts@.map_values(|p: Vec<char>| p@);
    let dot = one('.');
    let n = parts.len();
    let mut r: Vec<String> = Vec::new();
    let mut k: usize = 0;
    while k < n
        invariant
            k <= n,
            n == parts@.len(),
            views == parts@.map_values(|p: Vec<char>| p@),
            views == split_char(v@, '.'),
            dot@ == seq!['.'],
            r.len() == k,
            forall|k: int| 0 <= k < r.len() ==> #[trigger] r@[k]@ == join(views.skip(views.len() - (k + 1)), seq!['.']),
        decreases n - k,
    {
        let length = k + 1;
        let tail = vstd::slice::slice_subrange(parts.as_slice(), n - length, n);
        assert(tail@.map_values(|p: Vec<char>| p@) =~= views.skip(views.len() - length));
        let joined = join_exec(tail, &dot);
        r.push(string_of(&joined));
        k = k + 1;
    }
    assert(texts(r@) =~= selector_suffixes(v@));
    r
}

/// The path prefix preceding a Go service's `internal` package.
pub open spec fn service_root(file_path: Seq<char>) -> Option<Seq<char>> {
    match find(file_path, "/internal/"@) {
        Some(k) => Some(file_path.take(k)),
        None => None,
    }
}

pub fn service_root_exec(file_path: &[char]) -> (r: Option<Vec<char>>)
    ensures
        r matches Some(x) ==> service_root(file_path@) == Some(x@),
        r is None ==> service_root(file_path@) is None,
{
    proof {
        crate::text::lemma_find(file_path@, "/internal/"@);
    }
    match find_exec(file_path, &chars_of("/internal/")) {
        Some(k) => Some(slice_chars(file_path, 0, k)),
        None => None,
    }
}

} // verus!
