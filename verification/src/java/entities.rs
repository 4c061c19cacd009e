//! Field types of Java entities.
use vstd::prelude::*;

use crate::text::{
    before_first, before_first_exec, chars_eq, chars_of, concat, ends_with, ends_with_exec, find, one,
    text_of, trim, trim_exec,
};

verus! {

/// The base names of the Java collection types.
pub open spec fn collection_keywords() -> Seq<Seq<char>> {
    seq![
        "List"@, "ArrayList"@, "LinkedList"@, "Vector"@, "Set"@, "HashSet"@, "TreeSet"@,
        "LinkedHashSet"@, "Map"@, "HashMap"@, "TreeMap"@, "Hashtable"@, "LinkedHashMap"@,
        "Queue"@, "Deque"@, "PriorityQueue"@, "Collection"@, "Iterable"@, "Stack"@
    ]
}

/// Arrays, varargs, and the well-known collection types by their base name
/// (the text before the first `<`), simple or fully qualified.
pub open spec fn is_collection_type(datatype: Seq<char>) -> bool {
    let d = trim(datatype);
    if d.len() == 0 {
        false
    } else if ends_with(d, seq![']']) || ends_with(d, "..."@) {
        true
    } else {
        let base = trim(before_first(d, '<'));
        exists|k: int|
            0 <= k < collection_keywords().len() && (base == #[trigger] collection_keywords()[k]
                || ends_with(base, seq!['.'] + collection_keywords()[k]))
    }
}

fn keywords() -> (r: Vec<Vec<char>>)
    ensures
        r@.map_values(|v: Vec<char>| v@) == collection_keywords(),
{
    let mut r: Vec<Vec<char>> = Vec::new();
    r.push(chars_of("List"));
    r.push(chars_of("ArrayList"));
    r.push(chars_of("LinkedList"));
    r.push(chars_of("Vector"));
    r.push(chars_of("Set"));
    r.push(chars_of("HashSet"));
    r.push(chars_of("TreeSet"));
    r.push(chars_of("LinkedHashSet"));
    r.push(chars_of("Map"));
    r.push(chars_of("HashMap"));
    r.push(chars_of("TreeMap"));
    r.push(chars_of("Hashtable"));
    r.push(chars_of("LinkedHashMap"));
    r.push(chars_of("Queue"));
    r.push(chars_of("Deque"));
    r.push(chars_of("PriorityQueue"));
    r.push(chars_of("Collection"));
    r.push(chars_of("Iterable"));
    r.push(chars_of("Stack"));
    assert(r@.map_values(|v: Vec<char>| v@) =~= collection_keywords());
    r
}

/// Returns `true` if `datatype` represents a Java collection: an array
/// (`String[]`, `int[][]`), varargs (`String...`), or a well-known generic
/// collection base type (`List`, `Map`, `Set`, `Queue`, ...) matched against
/// the token before the first `<`, fully qualified names included.
pub fn is_java_collection_type(datatype: &str) -> (r: bool)
    ensures
        r == is_collection_type(datatype@),
{
    let d = trim_exec(&chars_of(datatype));
    if d.len() == 0 {
        return false;
    }
    if ends_with_exec(&d, &one(']')) || ends_with_exec(&d, &chars_of("...")) {
        return true;
    }
    let base = trim_exec(&before_first_exec(&d, '<'));
    let keys = keywords();
    let ghost kv = keys@.map_values(|v: Vec<char>| v@);
    let mut k: usize = 0;
    while k < keys.len()
        invariant
            k <= keys@.len(),
            kv == keys@.map_values(|v: Vec<char>| v@),
            kv == collection_keywords(),
            base@ == trim(before_first(trim(datatype@), '<')),
            d@ == trim(datatype@),
            d@.len() > 0,
            !ends_with(d@, seq![']']) && !ends_with(d@, "..."@),
            forall|j: int|
                0 <= j < k ==> !(base@ == #[trigger] kv[j] || ends_with(base@, seq!['.'] + kv[j])),
        decreases keys.len() - k,
    {
        let dotted = concat(&one('.'), &keys[k]);
        if chars_eq(&base, &keys[k]) || ends_with_exec(&base, &dotted) {
            assert(kv[k as int] == keys@[k as int]@);
            assert(base@ == collection_keywords()[k as int] || ends_with(
                base@,
                seq!['.'] + collection_keywords()[k as int],
            ));
            assert(d@ == trim(datatype@));
            assert(!ends_with(d@, seq![']']) && !ends_with(d@, "..."@));
            assert(is_collection_type(datatype@));
            return true;
        }
        k = k + 1;
    }
    false
}

/// Whether a type name is fully qualified (holds a `.`).
pub open spec fn is_fqdn(datatype: Seq<char>) -> bool {
    datatype.contains('.')
}

pub fn is_fqdn_exec(datatype: &[char]) -> (r: bool)
    ensures
        r == is_fqdn(datatype@),
{
    crate::text::contains_char_exec(datatype, '.')
}

/// The start of the last top-level piece of a type-argument list, scanning
/// from `i`: the position after the last `,` outside nested `<...>`.
pub open spec fn last_arg_start(body: Seq<char>, i: nat, depth: nat, start: nat) -> nat
    decreases body.len() - i,
{
    if i >= body.len() {
        start
    } else if body[i as int] == '<' {
        last_arg_start(body, i + 1, depth + 1, start)
    } else if body[i as int] == '>' {
        last_arg_start(body, i + 1, if depth == 0 { 0 } else { (depth - 1) as nat }, start)
    } else if body[i as int] == ',' && depth == 0 {
        last_arg_start(body, i + 1, depth, i + 1)
    } else {
        last_arg_start(body, i + 1, depth, start)
    }
}

pub proof fn lemma_last_arg_start(body: Seq<char>, i: nat, depth: nat, start: nat)
    requires
        start <= i <= body.len(),
    ensures
        start <= last_arg_start(body, i, depth, start) <= body.len(),
    decreases body.len() - i,
{
    if i < body.len() {
        if body[i as int] == '<' {
            lemma_last_arg_start(body, i + 1, depth + 1, start);
        } else if body[i as int] == '>' {
            lemma_last_arg_start(body, i + 1, if depth == 0 { 0 } else { (depth - 1) as nat }, start);
        } else if body[i as int] == ',' && depth == 0 {
            lemma_last_arg_start(body, i + 1, depth, i + 1);
        } else {
            lemma_last_arg_start(body, i + 1, depth, start);
        }
    }
}

/// The innermost last type argument of a generic type: `List<User>` gives
/// `User`, `Map<String, List<User>>` gives `User`, `String` gives `String`.
pub open spec fn generic_inner(d: Seq<char>) -> Seq<char>
    decreases d.len(),
{
    let t = trim(d);
    match find(t, seq!['<']) {
        Some(a) => if ends_with(t, seq!['>']) && a + 1 <= t.len() - 1 {
            let body = t.subrange(a + 1, t.len() - 1);
            proof {
                crate::text::lemma_trim_len(d);
                crate::text::lemma_find(t, seq!['<']);
                lemma_last_arg_start(body, 0, 0, 0);
            }
            generic_inner(body.skip(last_arg_start(body, 0, 0, 0) as int))
        } else {
            t
        },
        None => t,
    }
}

/// The element type of a field type: arrays and generic wrappers are
/// unwrapped, the last type argument standing for a map's values.
pub open spec fn inner_type(d: Seq<char>) -> Seq<char>
    decreases d.len(),
{
    let t = trim(d);
    if ends_with(t, seq![']']) {
        match find(t, seq!['[']) {
            Some(k) => {
                proof {
                    crate::text::lemma_trim_len(d);
                    crate::text::lemma_find(t, seq!['[']);
                    crate::text::lemma_trim_len(t.take(k));
                }
                if k < t.len() {
                    inner_type(trim(t.take(k)))
                } else {
                    generic_inner(t)
                }
            },
            None => generic_inner(t),
        }
    } else {
        generic_inner(t)
    }
}

fn generic_inner_exec(d: &[char]) -> (r: Vec<char>)
    ensures
        r@ == generic_inner(d@),
    decreases d@.len(),
{
    let t = trim_exec(d);
    proof {
        crate::text::lemma_trim_len(d@);
    }
    let tn = t.len();
    match crate::text::find_char_exec(&t, '<') {
        Some(a) => {
            if ends_with_exec(&t, &one('>')) && a + 1 <= tn - 1 {
                let body = crate::text::slice_chars(&t, a + 1, t.len() - 1);
                let n = body.len();
                let mut depth: usize = 0;
                let mut start: usize = 0;
                let mut i: usize = 0;
                while i < n
                    invariant
                        n == body@.len(),
                        start <= i <= n,
                        depth <= i,
                        last_arg_start(body@, 0, 0, 0) == last_arg_start(body@, i as nat, depth as nat, start as nat),
                    decreases n - i,
                {
                    let c = body[i];
                    if c == '<' {
                        depth = depth + 1;
                    } else if c == '>' {
                        if depth > 0 {
                            depth = depth - 1;
                        }
                    } else if c == ',' && depth == 0 {
                        start = i + 1;
                    }
                    i = i + 1;
                }
                let last = crate::text::slice_chars(&body, start, n);
                assert(last@ =~= body@.skip(start as int));
                generic_inner_exec(&last)
            } else {
                t
            }
        },
        None => t,
    }
}

/// Recursively unwraps arrays and generic wrappers to find the element type:
/// `List<User>` gives `User`, `Map<String, User>` gives `User` (the value
/// type), `User[]` gives `User`, `String` gives `String`.
pub fn extract_java_inner_type(datatype: &str) -> (r: String)
    ensures
        r@ == inner_type(datatype@),
{
    crate::text::string_of(&inner_type_exec(&chars_of(datatype)))
}

pub fn inner_type_exec(d: &[char]) -> (r: Vec<char>)
    ensures
        r@ == inner_type(d@),
    decreases d@.len(),
{
    let t = trim_exec(d);
    proof {
        crate::text::lemma_trim_len(d@);
    }
    if ends_with_exec(&t, &one(']')) {
        proof {
            crate::text::lemma_find(t@, seq!['[']);
        }
        match crate::text::find_char_exec(&t, '[') {
            Some(k) => {
                let head = crate::text::slice_chars(&t, 0, k);
                proof {
                    crate::text::lemma_trim_len(head@);
                    assert(head@ == t@.take(k as int));
                }
                inner_type_exec(&trim_exec(&head))
            },
            None => generic_inner_exec(&t),
        }
    } else {
        generic_inner_exec(&t)
    }
}

} // verus!
