//! Reading Java annotation arguments and call arguments.
use vstd::prelude::*;

use crate::bindings::Bindings;
use crate::sorting::texts;
use crate::text::{
    after_last, after_last_exec, before_first, before_first_exec, chars_eq, chars_of, ends_with,
    ends_with_exec, find, find_char_exec, one, rfind, rfind_char_exec, slice_chars, split_once,
    split_once_exec, starts_with, starts_with_exec, string_of, text_of, trim, trim_exec,
    trim_str, trim_str_exec,
};

verus! {

/// `raw` trimmed, without surrounding double and single quote runs.
pub open spec fn clean_java_value(raw: Seq<char>) -> Seq<char> {
    trim(trim_str(trim_str(trim(raw), seq!['"']), seq!['\'']))
}

pub fn clean_java_value_exec(raw: &[char]) -> (r: Vec<char>)
    ensures
        r@ == clean_java_value(raw@),
{
    let t = trim_exec(raw);
    let t = trim_str_exec(&t, &one('"'));
    let t = trim_str_exec(&t, &one('\''));
    trim_exec(&t)
}

/// The name of the invoked method: the last dotted segment before the
/// argument list.
pub open spec fn method_name(function_name: Seq<char>) -> Seq<char> {
    after_last(before_first(function_name, '('), '.')
}

pub fn method_name_exec(function_name: &[char]) -> (r: Vec<char>)
    ensures
        r@ == method_name(function_name@),
{
    after_last_exec(&before_first_exec(function_name, '('), '.')
}

/// The trimmed non-empty pieces between top-level `,` (outside `(...)` and
/// `{...}`), scanning from `i`.
pub open spec fn top_level_scan(s: Seq<char>, i: nat, depth: nat, start: nat) -> Seq<Seq<char>>
    decreases s.len() - i,
{
    if i >= s.len() {
        let piece = trim(s.subrange(start as int, s.len() as int));
        if piece.len() > 0 {
            seq![piece]
        } else {
            Seq::empty()
        }
    } else {
        let c = s[i as int];
        if c == '(' || c == '{' {
            top_level_scan(s, i + 1, depth + 1, start)
        } else if c == ')' || c == '}' {
            top_level_scan(s, i + 1, if depth == 0 { 0 } else { (depth - 1) as nat }, start)
        } else if c == ',' && depth == 0 {
            let piece = trim(s.subrange(start as int, i as int));
            (if piece.len() > 0 {
                seq![piece]
            } else {
                Seq::empty()
            }) + top_level_scan(s, i + 1, depth, i + 1)
        } else {
            top_level_scan(s, i + 1, depth, start)
        }
    }
}

/// The trimmed non-empty comma-separated pieces of `s` at the top level.
pub open spec fn split_top_level(s: Seq<char>) -> Seq<Seq<char>> {
    top_level_scan(s, 0, 0, 0)
}

pub fn split_top_level_exec(s: &[char]) -> (r: Vec<String>)
    ensures
        texts(r@) == split_top_level(s@),
{
    let n = s.len();
    let mut parts: Vec<String> = Vec::new();
    let mut depth: usize = 0;
    let mut start: usize = 0;
    let mut i: usize = 0;
    while i < n
        invariant
            n == s@.len(),
            i <= n,
            start <= i,
            depth <= i,
            split_top_level(s@) == texts(parts@) + top_level_scan(s@, i as nat, depth as nat, start as nat),
        decreases n - i,
    {
        let c = s[i];
        if c == '(' || c == '{' {
            depth = depth + 1;
        } else if c == ')' || c == '}' {
            if depth > 0 {
                depth = depth - 1;
            }
        } else if c == ',' && depth == 0 {
            let piece = trim_exec(&slice_chars(s, start, i));
            let ghost before = texts(parts@);
            if piece.len() > 0 {
                parts.push(string_of(&piece));
                assert(texts(parts@) =~= before + seq![piece@]);
            } else {
                assert(texts(parts@) =~= before + Seq::<Seq<char>>::empty());
            }
            start = i + 1;
        }
        i = i + 1;
    }
    let piece = trim_exec(&slice_chars(s, start, n));
    let ghost before = texts(parts@);
    if piece.len() > 0 {
        parts.push(string_of(&piece));
        assert(texts(parts@) =~= before + seq![piece@]);
    } else {
        assert(texts(parts@) =~= before + Seq::<Seq<char>>::empty());
    }
    parts
}

/// `s` without one pair of outer braces (trimmed inside), when it has them.
pub open spec fn strip_outer_braces(s: Seq<char>) -> Seq<char> {
    if s.len() >= 2 && s[0] == '{' && s.last() == '}' {
        trim(s.subrange(1, s.len() - 1))
    } else {
        s
    }
}

/// The values of an annotation argument: the pieces of an array
/// initializer `{a, b}` or the single value.
pub open spec fn annotation_values(value: Seq<char>) -> Seq<Seq<char>> {
    split_top_level(strip_outer_braces(trim(value)))
}

pub fn split_annotation_values(value: &[char]) -> (r: Vec<String>)
    ensures
        texts(r@) == annotation_values(value@),
{
    let v = trim_exec(value);
    let n = v.len();
    let inner = if n >= 2 && v[0] == '{' && v[n - 1] == '}' {
        trim_exec(&slice_chars(&v, 1, n - 1))
    } else {
        v
    };
    split_top_level_exec(&inner)
}

/// `${key}` placeholders are read as `key`; other values are kept (cleaned).
pub open spec fn placeholder_key(value: Seq<char>) -> Seq<char> {
    let t = clean_java_value(value);
    if starts_with(t, "${"@) && ends_with(t, seq!['}']) {
        t.subrange(2, t.len() - 1)
    } else {
        t
    }
}

pub fn placeholder_key_exec(value: &[char]) -> (r: Vec<char>)
    ensures
        r@ == placeholder_key(value@),
{
    let t = clean_java_value_exec(value);
    if starts_with_exec(&t, &chars_of("${")) && ends_with_exec(&t, &one('}')) {
        proof {
            reveal_strlit("${");
            assert(t@.subrange(0, 2)[1] == t@[1]);
            assert(t@.subrange(t@.len() - 1, t@.len() as int)[0] == t@[t@.len() - 1]);
            assert(t@.len() >= 3);
        }
        slice_chars(&t, 2, t.len() - 1)
    } else {
        t
    }
}

/// A placeholder alias: a field bound by `@Value("${key}")` resolves to its
/// key; anything else to its own placeholder key.
pub open spec fn resolve_placeholder_alias(raw: Seq<char>, placeholders: Map<Seq<char>, Seq<char>>) -> Seq<char> {
    let cleaned = clean_java_value(raw);
    if placeholders.contains_key(cleaned) {
        placeholders[cleaned]
    } else {
        placeholder_key(cleaned)
    }
}

pub fn resolve_placeholder_alias_exec(raw: &[char], placeholders: &Bindings) -> (r: Vec<char>)
    ensures
        r@ == resolve_placeholder_alias(raw@, placeholders@),
{
    let cleaned = clean_java_value_exec(raw);
    match placeholders.get(&cleaned) {
        Some(v) => text_of(&v),
        None => placeholder_key_exec(&cleaned),
    }
}

} // verus!
