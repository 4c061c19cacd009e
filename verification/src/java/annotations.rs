//! Spring MVC and JAX-RS annotations that declare HTTP endpoints.
use vstd::prelude::*;

use crate::java::source::SyntaxChild;
use crate::model::{Endpoint, HttpMethod};
use crate::text::{
    chars_eq, chars_of, find, find_char_exec, rfind, rfind_char_exec, slice_chars, split_once,
    split_once_exec, starts_with, starts_with_exec, string_of, text_of, trim, trim_exec,
    trim_str, trim_str_exec, one,
};

verus! {

/// The method an annotation prefix declares.
pub open spec fn method_prefix(annot: Seq<char>) -> Option<HttpMethod> {
    if starts_with(annot, "@GetMapping"@) || starts_with(annot, "@GET"@) {
        Some(HttpMethod::GET)
    } else if starts_with(annot, "@PostMapping"@) || starts_with(annot, "@POST"@) {
        Some(HttpMethod::POST)
    } else if starts_with(annot, "@PutMapping"@) || starts_with(annot, "@PUT"@) {
        Some(HttpMethod::PUT)
    } else if starts_with(annot, "@DeleteMapping"@) || starts_with(annot, "@DELETE"@) {
        Some(HttpMethod::DELETE)
    } else if starts_with(annot, "@PatchMapping"@) || starts_with(annot, "@PATCH"@) {
        Some(HttpMethod::PATCH)
    } else {
        None
    }
}

/// Whether an annotation can carry the URI path of an endpoint.
pub open spec fn is_path_annotation(annot: Seq<char>) -> bool {
    ||| starts_with(annot, "@RequestMapping"@)
    ||| starts_with(annot, "@Path"@)
    ||| starts_with(annot, "@GetMapping"@)
    ||| starts_with(annot, "@PostMapping"@)
    ||| starts_with(annot, "@PutMapping"@)
    ||| starts_with(annot, "@DeleteMapping"@)
    ||| starts_with(annot, "@PatchMapping"@)
}

/// Whether an annotation marks an endpoint.
pub open spec fn is_endpoint_annotation(annot: Seq<char>) -> bool {
    is_path_annotation(annot) || method_prefix(annot) is Some
}

fn starts(annot: &[char], prefix: &str) -> (r: bool)
    ensures
        r == starts_with(annot@, prefix@),
{
    starts_with_exec(annot, &chars_of(prefix))
}

fn method_prefix_exec(annot: &[char]) -> (r: Option<HttpMethod>)
    ensures
        r == method_prefix(annot@),
{
    if starts(annot, "@GetMapping") || starts(annot, "@GET") {
        Some(HttpMethod::GET)
    } else if starts(annot, "@PostMapping") || starts(annot, "@POST") {
        Some(HttpMethod::POST)
    } else if starts(annot, "@PutMapping") || starts(annot, "@PUT") {
        Some(HttpMethod::PUT)
    } else if starts(annot, "@DeleteMapping") || starts(annot, "@DELETE") {
        Some(HttpMethod::DELETE)
    } else if starts(annot, "@PatchMapping") || starts(annot, "@PATCH") {
        Some(HttpMethod::PATCH)
    } else {
        None
    }
}

pub fn is_path_annotation_exec(annot: &[char]) -> (r: bool)
    ensures
        r == is_path_annotation(annot@),
{
    starts(annot, "@RequestMapping") || starts(annot, "@Path") || starts(annot, "@GetMapping")
        || starts(annot, "@PostMapping") || starts(annot, "@PutMapping") || starts(
        annot,
        "@DeleteMapping",
    ) || starts(annot, "@PatchMapping")
}

/// Whether any of the annotations marks an endpoint (a URI path mapping or
/// an HTTP method annotation).
pub fn are_annotations_specifying_endpoint(annotations: &[String]) -> (r: bool)
    ensures
        r == exists|i: int| 0 <= i < annotations@.len() && is_endpoint_annotation(#[trigger] annotations@[i]@),
{
    let mut i: usize = 0;
    while i < annotations.len()
        invariant
            i <= annotations@.len(),
            forall|j: int| 0 <= j < i ==> !is_endpoint_annotation(#[trigger] annotations@[j]@),
        decreases annotations.len() - i,
    {
        let a = text_of(&annotations[i]);
        if is_path_annotation_exec(&a) || method_prefix_exec(&a).is_some() {
            assert(is_endpoint_annotation(annotations@[i as int]@));
            return true;
        }
        i = i + 1;
    }
    false
}

/// The parentheses of an annotation enclose its arguments: when it has
/// both a `(` and a `)`, the last `)` stands after the first `(`.
pub open spec fn parens_ok(annot: Seq<char>) -> bool {
    match (find(annot, seq!['(']), rfind(annot, seq![')'])) {
        (Some(a), Some(b)) => a < b,
        _ => true,
    }
}

/// The URI an annotation's arguments name: an unnamed string argument, or
/// a `value =` or `path =` argument; surrounding quotes are dropped.
pub open spec fn annotation_uri(annot: Seq<char>) -> Option<Seq<char>> {
    match (find(annot, seq!['(']), rfind(annot, seq![')'])) {
        (Some(a), Some(b)) => {
            let inside = trim(annot.subrange(a + 1, b));
            if starts_with(inside, seq!['"']) {
                Some(trim_str(inside, seq!['"']))
            } else {
                match split_once(inside, '=') {
                    Some((name, value)) => if trim(name) == "value"@ || trim(name) == "path"@ {
                        Some(trim_str(trim(value), seq!['"']))
                    } else {
                        None
                    },
                    None => None,
                }
            }
        },
        _ => None,
    }
}

/// Extracts the URI named by a mapping annotation such as
/// `@GetMapping("/users")` or `@RequestMapping(path = "/users")`.
pub fn extract_uri(annot: &str) -> (r: Option<String>)
    requires
        parens_ok(annot@),
    ensures
        r matches Some(u) ==> annotation_uri(annot@) == Some(u@),
        r is None ==> annotation_uri(annot@) is None,
{
    let s = chars_of(annot);
    proof {
        crate::text::lemma_find(s@, seq!['(']);
        crate::text::lemma_rfind(s@, seq![')']);
    }
    let a = match find_char_exec(&s, '(') {
        Some(a) => a,
        None => return None,
    };
    let b = match rfind_char_exec(&s, ')') {
        Some(b) => b,
        None => return None,
    };
    let inside = trim_exec(&slice_chars(&s, a + 1, b));
    if starts_with_exec(&inside, &one('"')) {
        return Some(string_of(&trim_str_exec(&inside, &one('"'))));
    }
    match split_once_exec(&inside, '=') {
        Some((name, value)) => {
            let name = trim_exec(&name);
            if chars_eq(&name, &chars_of("value")) || chars_eq(&name, &chars_of("path")) {
                Some(string_of(&trim_str_exec(&trim_exec(&value), &one('"'))))
            } else {
                None
            }
        },
        None => None,
    }
}

/// The method and URI an endpoint has after its annotations are applied in
/// order: each method annotation sets the method, each path annotation with
/// a readable URI sets the URI.
pub open spec fn applied(
    method: HttpMethod,
    uri: Seq<char>,
    annots: Seq<Seq<char>>,
) -> (HttpMethod, Seq<char>)
    decreases annots.len(),
{
    if annots.len() == 0 {
        (method, uri)
    } else {
        let (m, u) = applied(method, uri, annots.drop_last());
        let a = annots.last();
        let m2 = match method_prefix(a) {
            Some(x) => x,
            None => m,
        };
        let u2 = if is_path_annotation(a) {
            match annotation_uri(a) {
                Some(x) => x,
                None => u,
            }
        } else {
            u
        };
        (m2, u2)
    }
}

/// Sets an endpoint's method and URI from its annotations.
pub fn apply_annotations(endpoint: &mut Endpoint, annotations: &[String])
    requires
        forall|i: int|
            0 <= i < annotations@.len() && is_path_annotation(#[trigger] annotations@[i]@) ==> parens_ok(
                annotations@[i]@,
            ),
    ensures
        (final(endpoint).http_method, final(endpoint).uri@) == applied(
            old(endpoint).http_method,
            old(endpoint).uri@,
            annotations@.map_values(|a: String| a@),
        ),
        final(endpoint).function_name == old(endpoint).function_name,
        final(endpoint).function_hash == old(endpoint).function_hash,
        final(endpoint).file_path == old(endpoint).file_path,
        final(endpoint).parameters == old(endpoint).parameters,
        final(endpoint).router_variable == old(endpoint).router_variable,
{
    let ghost views = annotations@.map_values(|a: String| a@);
    let mut i: usize = 0;
    while i < annotations.len()
        invariant
            i <= annotations@.len(),
            views == annotations@.map_values(|a: String| a@),
            forall|k: int|
                0 <= k < annotations@.len() && is_path_annotation(#[trigger] annotations@[k]@) ==> parens_ok(
                    annotations@[k]@,
                ),
            (endpoint.http_method, endpoint.uri@) == applied(
                old(endpoint).http_method,
                old(endpoint).uri@,
                views.take(i as int),
            ),
            endpoint.function_name == old(endpoint).function_name,
            endpoint.function_hash == old(endpoint).function_hash,
            endpoint.file_path == old(endpoint).file_path,
            endpoint.parameters == old(endpoint).parameters,
            endpoint.router_variable == old(endpoint).router_variable,
        decreases annotations.len() - i,
    {
        assert(views.take(i + 1).drop_last() =~= views.take(i as int));
        let a = text_of(&annotations[i]);
        match method_prefix_exec(&a) {
            Some(m) => {
                endpoint.http_method = m;
            },
            None => {},
        }
        if is_path_annotation_exec(&a) {
            match extract_uri(annotations[i].as_str()) {
                Some(uri) => {
                    endpoint.uri = uri;
                },
                None => {},
            }
        }
        i = i + 1;
    }
    assert(views.take(annotations.len() as int) =~= views);
}

/// A child node kind that holds an annotation.
pub open spec fn is_annotation_kind(kind: Seq<char>) -> bool {
    kind == "annotation"@ || kind == "marker_annotation"@
}

/// The texts of the annotations among the children of a modifiers node,
/// in order.
pub open spec fn annotations_among(children: Seq<SyntaxChild>) -> Seq<Seq<char>>
    decreases children.len(),
{
    if children.len() == 0 {
        Seq::empty()
    } else {
        let rest = annotations_among(children.drop_last());
        if is_annotation_kind(children.last().kind@) {
            rest.push(children.last().text@)
        } else {
            rest
        }
    }
}

pub fn get_annotations_from_modifiers(children: &[SyntaxChild]) -> (r: Vec<String>)
    ensures
        r@.map_values(|s: String| s@) == annotations_among(children@),
{
    let mut r: Vec<String> = Vec::new();
    let mut i: usize = 0;
    while i < children.len()
        invariant
            i <= children@.len(),
            r@.map_values(|s: String| s@) == annotations_among(children@.take(i as int)),
        decreases children@.len() - i,
    {
        assert(children@.take(i + 1).drop_last() =~= children@.take(i as int));
        let k = text_of(&children[i].kind);
        if chars_eq(&k, &chars_of("annotation")) || chars_eq(&k, &chars_of("marker_annotation")) {
            let ghost before = r@;
            r.push(children[i].text.clone());
            assert(r@.map_values(|s: String| s@) =~= before.map_values(|s: String| s@).push(children@[i as int].text@));
        }
        i = i + 1;
    }
    assert(children@.take(children@.len() as int) =~= children@);
    r
}

proof fn lemma_prefix_char(a: Seq<char>, p: Seq<char>, k: int)
    requires
        starts_with(a, p),
        0 <= k < p.len(),
    ensures
        a[k] == p[k],
{
    assert(a.subrange(0, p.len() as int)[k] == a[k]);
}

/// A Spring mapping annotation or a JAX-RS method annotation declares its
/// own method: `@GetMapping`/`@GET` GET, `@PostMapping`/`@POST` POST,
/// `@PutMapping`/`@PUT` PUT, `@DeleteMapping`/`@DELETE` DELETE and
/// `@PatchMapping`/`@PATCH` PATCH; any other annotation declares none.
pub proof fn lemma_annotation_methods(a: Seq<char>)
    ensures
        starts_with(a, "@GetMapping"@) || starts_with(a, "@GET"@) ==> method_prefix(a) == Some(HttpMethod::GET),
        starts_with(a, "@PostMapping"@) || starts_with(a, "@POST"@) ==> method_prefix(a) == Some(HttpMethod::POST),
        starts_with(a, "@PutMapping"@) || starts_with(a, "@PUT"@) ==> method_prefix(a) == Some(HttpMethod::PUT),
        starts_with(a, "@DeleteMapping"@) || starts_with(a, "@DELETE"@) ==> method_prefix(a) == Some(HttpMethod::DELETE),
        starts_with(a, "@PatchMapping"@) || starts_with(a, "@PATCH"@) ==> method_prefix(a) == Some(HttpMethod::PATCH),
        method_prefix(a) is Some ==> {
            ||| starts_with(a, "@GetMapping"@) ||| starts_with(a, "@GET"@)
            ||| starts_with(a, "@PostMapping"@) ||| starts_with(a, "@POST"@)
            ||| starts_with(a, "@PutMapping"@) ||| starts_with(a, "@PUT"@)
            ||| starts_with(a, "@DeleteMapping"@) ||| starts_with(a, "@DELETE"@)
            ||| starts_with(a, "@PatchMapping"@) ||| starts_with(a, "@PATCH"@)
        },
{
    reveal_strlit("@GetMapping");
    reveal_strlit("@GET");
    reveal_strlit("@PostMapping");
    reveal_strlit("@POST");
    reveal_strlit("@PutMapping");
    reveal_strlit("@PUT");
    reveal_strlit("@DeleteMapping");
    reveal_strlit("@DELETE");
    reveal_strlit("@PatchMapping");
    reveal_strlit("@PATCH");
    if a.len() >= 3 {
        let ps = seq![
            "@GetMapping"@, "@GET"@, "@PostMapping"@, "@POST"@, "@PutMapping"@, "@PUT"@, "@DeleteMapping"@,
            "@DELETE"@, "@PatchMapping"@, "@PATCH"@,
        ];
        assert forall|i: int| 0 <= i < 10 && starts_with(a, #[trigger] ps[i]) implies a[1] == ps[i][1] && a[2] == ps[i][2] by {
            lemma_prefix_char(a, ps[i], 1);
            lemma_prefix_char(a, ps[i], 2);
        }
        assert(ps[0] == "@GetMapping"@ && ps[1] == "@GET"@ && ps[2] == "@PostMapping"@ && ps[3] == "@POST"@);
        assert(ps[4] == "@PutMapping"@ && ps[5] == "@PUT"@ && ps[6] == "@DeleteMapping"@ && ps[7] == "@DELETE"@);
        assert(ps[8] == "@PatchMapping"@ && ps[9] == "@PATCH"@);
        if starts_with(a, "@PostMapping"@) || starts_with(a, "@POST"@) || starts_with(a, "@PutMapping"@)
            || starts_with(a, "@PUT"@) || starts_with(a, "@PatchMapping"@) || starts_with(a, "@PATCH"@) {
            assert(a[1] == 'P');
        }
        if starts_with(a, "@PostMapping"@) || starts_with(a, "@POST"@) {
            assert(a[2] == 'o' || a[2] == 'O');
        }
        if starts_with(a, "@PutMapping"@) || starts_with(a, "@PUT"@) {
            assert(a[2] == 'u' || a[2] == 'U');
        }
        if starts_with(a, "@PatchMapping"@) || starts_with(a, "@PATCH"@) {
            assert(a[2] == 'a' || a[2] == 'A');
        }
        if starts_with(a, "@DeleteMapping"@) || starts_with(a, "@DELETE"@) {
            assert(a[1] == 'D');
        }
        if starts_with(a, "@GetMapping"@) || starts_with(a, "@GET"@) {
            assert(a[1] == 'G');
        }
    }
}

/// The method of an endpoint is that of its last annotation that declares
/// one; its URI is that of its last path annotation with a readable URI.
pub proof fn lemma_applied_last(method: HttpMethod, uri: Seq<char>, annots: Seq<Seq<char>>, a: Seq<char>)
    ensures
        method_prefix(a) matches Some(x) ==> applied(method, uri, annots.push(a)).0 == x,
        method_prefix(a) is None ==> applied(method, uri, annots.push(a)).0 == applied(method, uri, annots).0,
        is_path_annotation(a) && annotation_uri(a) is Some ==> applied(method, uri, annots.push(a)).1 == annotation_uri(a)->0,
        !is_path_annotation(a) ==> applied(method, uri, annots.push(a)).1 == applied(method, uri, annots).1,
{
    assert(annots.push(a).drop_last() =~= annots);
}

} // verus!
