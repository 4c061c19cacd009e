//! What the extractors read of the nodes that enclose a matched node.
use vstd::prelude::*;

use crate::hashing::{hash_text, text_hash};
use crate::model::{copy_opt, opt_view, SourceSpan};
use crate::text::{chars_eq, chars_of, text_of};

verus! {

/// An ancestor of a matched syntax node: its kind, its byte span, the texts
/// of its `name`, `type` and `parameters` fields where it has them, and its
/// whole text.
pub struct AncestorNode {
    pub kind: String,
    pub start: u32,
    pub end: u32,
    pub name: Option<String>,
    pub type_text: Option<String>,
    pub parameters: Option<String>,
    pub text: String,
}


/// The nearest ancestor (ancestors are listed nearest first) of kind `kind`.
pub open spec fn first_of_kind(ancestors: Seq<AncestorNode>, kind: Seq<char>) -> Option<int>
    decreases ancestors.len(),
{
    if ancestors.len() == 0 {
        None
    } else if ancestors[0].kind@ == kind {
        Some(0)
    } else {
        match first_of_kind(ancestors.drop_first(), kind) {
            Some(i) => Some(i + 1),
            None => None,
        }
    }
}

pub proof fn lemma_first_of_kind(ancestors: Seq<AncestorNode>, kind: Seq<char>)
    ensures
        first_of_kind(ancestors, kind) matches Some(i) ==> 0 <= i < ancestors.len() && ancestors[i].kind@
            == kind,
    decreases ancestors.len(),
{
    if ancestors.len() > 0 && ancestors[0].kind@ != kind {
        lemma_first_of_kind(ancestors.drop_first(), kind);
    }
}

/// The nearest ancestor of kind `kind`.
pub fn get_enclosing_node_by_kind(ancestors: &[AncestorNode], kind: &str) -> (r: Option<usize>)
    ensures
        r matches Some(i) ==> first_of_kind(ancestors@, kind@) == Some(i as int),
        r is None ==> first_of_kind(ancestors@, kind@) is None,
{
    let k = chars_of(kind);
    let n = ancestors.len();
    let mut i: usize = 0;
    while i < n
        invariant
            i <= n,
            n == ancestors@.len(),
            k@ == kind@,
            forall|j: int| 0 <= j < i ==> (#[trigger] ancestors@[j]).kind@ != kind@,
        decreases n - i,
    {
        if chars_eq(&text_of(&ancestors[i].kind), &k) {
            proof {
                lemma_first_prefix(ancestors@, kind@, i as int);
            }
            return Some(i);
        }
        i = i + 1;
    }
    proof {
        lemma_first_prefix(ancestors@, kind@, n as int);
    }
    None
}

proof fn lemma_first_prefix(ancestors: Seq<AncestorNode>, kind: Seq<char>, i: int)
    requires
        0 <= i <= ancestors.len(),
        forall|j: int| 0 <= j < i ==> (#[trigger] ancestors[j]).kind@ != kind,
    ensures
        i < ancestors.len() && ancestors[i].kind@ == kind ==> first_of_kind(ancestors, kind) == Some(i),
        i == ancestors.len() ==> first_of_kind(ancestors, kind) is None,
    decreases i,
{
    if i > 0 {
        let t = ancestors.drop_first();
        assert forall|j: int| 0 <= j < i - 1 implies (#[trigger] t[j]).kind@ != kind by {
            assert(t[j] == ancestors[j + 1]);
        }
        lemma_first_prefix(t, kind, i - 1);
        if i < ancestors.len() {
            assert(t[i - 1] == ancestors[i]);
        }
    }
}

/// The enclosing method, or else the enclosing constructor.
pub open spec fn enclosing_function(ancestors: Seq<AncestorNode>) -> Option<int> {
    match first_of_kind(ancestors, "method_declaration"@) {
        Some(i) => Some(i),
        None => first_of_kind(ancestors, "constructor_declaration"@),
    }
}

pub fn enclosing_function_exec(ancestors: &[AncestorNode]) -> (r: Option<usize>)
    ensures
        r matches Some(i) ==> enclosing_function(ancestors@) == Some(i as int) && i < ancestors@.len(),
        r is None ==> enclosing_function(ancestors@) is None,
{
    proof {
        lemma_first_of_kind(ancestors@, "method_declaration"@);
        lemma_first_of_kind(ancestors@, "constructor_declaration"@);
    }
    match get_enclosing_node_by_kind(ancestors, "method_declaration") {
        Some(i) => Some(i),
        None => get_enclosing_node_by_kind(ancestors, "constructor_declaration"),
    }
}

/// A class, interface, record or enum declaration.
pub open spec fn is_type_declaration(kind: Seq<char>) -> bool {
    kind == "class_declaration"@ || kind == "interface_declaration"@ || kind == "record_declaration"@
        || kind == "enum_declaration"@
}

/// A method or constructor declaration.
pub open spec fn is_function_declaration(kind: Seq<char>) -> bool {
    kind == "method_declaration"@ || kind == "constructor_declaration"@
}

/// The outermost enclosing type declaration.
pub open spec fn last_type_declaration(ancestors: Seq<AncestorNode>) -> Option<int>
    decreases ancestors.len(),
{
    if ancestors.len() == 0 {
        None
    } else if is_type_declaration(ancestors.last().kind@) {
        Some(ancestors.len() - 1)
    } else {
        last_type_declaration(ancestors.drop_last())
    }
}

/// The nearest enclosing method or constructor declaration.
pub open spec fn first_function_declaration(ancestors: Seq<AncestorNode>) -> Option<int>
    decreases ancestors.len(),
{
    if ancestors.len() == 0 {
        None
    } else if is_function_declaration(ancestors[0].kind@) {
        Some(0)
    } else {
        match first_function_declaration(ancestors.drop_first()) {
            Some(i) => Some(i + 1),
            None => None,
        }
    }
}

/// The span a call is attributed to: that of the outermost enclosing type
/// declaration, else of the nearest method or constructor, else the whole
/// source of `code_len` bytes.
pub open spec fn call_span(ancestors: Seq<AncestorNode>, code_len: u32) -> SourceSpan {
    match last_type_declaration(ancestors) {
        Some(j) => SourceSpan { start: ancestors[j].start, end: ancestors[j].end },
        None => match first_function_declaration(ancestors) {
            Some(i) => SourceSpan { start: ancestors[i].start, end: ancestors[i].end },
            None => SourceSpan { start: 0, end: code_len },
        },
    }
}

fn is_type_declaration_exec(kind: &String) -> (r: bool)
    ensures
        r == is_type_declaration(kind@),
{
    let k = text_of(kind);
    chars_eq(&k, &chars_of("class_declaration")) || chars_eq(&k, &chars_of("interface_declaration"))
        || chars_eq(&k, &chars_of("record_declaration")) || chars_eq(&k, &chars_of("enum_declaration"))
}

fn is_function_declaration_exec(kind: &String) -> (r: bool)
    ensures
        r == is_function_declaration(kind@),
{
    let k = text_of(kind);
    chars_eq(&k, &chars_of("method_declaration")) || chars_eq(&k, &chars_of("constructor_declaration"))
}

proof fn lemma_first_function_prefix(ancestors: Seq<AncestorNode>, i: int)
    requires
        0 <= i <= ancestors.len(),
        forall|j: int| 0 <= j < i ==> !is_function_declaration((#[trigger] ancestors[j]).kind@),
    ensures
        i < ancestors.len() && is_function_declaration(ancestors[i].kind@) ==> first_function_declaration(
            ancestors,
        ) == Some(i),
        i == ancestors.len() ==> first_function_declaration(ancestors) is None,
    decreases i,
{
    if i > 0 {
        let t = ancestors.drop_first();
        assert forall|j: int| 0 <= j < i - 1 implies !is_function_declaration((#[trigger] t[j]).kind@) by {
            assert(t[j] == ancestors[j + 1]);
        }
        lemma_first_function_prefix(t, i - 1);
        if i < ancestors.len() {
            assert(t[i - 1] == ancestors[i]);
        }
    }
}

/// The span of the outermost enclosing type declaration, else of the
/// nearest method or constructor, else of the whole source.
pub fn last_class_first_function_span(ancestors: &[AncestorNode], code_len: u32) -> (r: SourceSpan)
    ensures
        r == call_span(ancestors@, code_len),
{
    let n = ancestors.len();
    let mut k: usize = n;
    assert(ancestors@.take(n as int) =~= ancestors@);
    while k > 0 && !is_type_declaration_exec(&ancestors[k - 1].kind)
        invariant
            k <= n,
            n == ancestors@.len(),
            last_type_declaration(ancestors@) == last_type_declaration(ancestors@.take(k as int)),
        decreases k,
    {
        assert(ancestors@.take(k as int).drop_last() =~= ancestors@.take(k - 1));
        k = k - 1;
    }
    if k > 0 {
        assert(ancestors@.take(k as int).last() == ancestors@[k - 1]);
        return SourceSpan { start: ancestors[k - 1].start, end: ancestors[k - 1].end };
    }
    assert(last_type_declaration(ancestors@.take(0)) is None);
    let mut i: usize = 0;
    while i < n
        invariant
            i <= n,
            n == ancestors@.len(),
            last_type_declaration(ancestors@) is None,
            forall|j: int| 0 <= j < i ==> !is_function_declaration((#[trigger] ancestors@[j]).kind@),
        decreases n - i,
    {
        if is_function_declaration_exec(&ancestors[i].kind) {
            proof {
                lemma_first_function_prefix(ancestors@, i as int);
            }
            return SourceSpan { start: ancestors[i].start, end: ancestors[i].end };
        }
        i = i + 1;
    }
    proof {
        lemma_first_function_prefix(ancestors@, n as int);
    }
    SourceSpan { start: 0, end: code_len }
}

/// The text of the field `field_name` of a node, where the node has that
/// field: `name`, `type` or `parameters`.
pub open spec fn field_text(node: AncestorNode, field_name: Seq<char>) -> Option<Seq<char>> {
    if field_name == "name"@ {
        opt_view(node.name)
    } else if field_name == "type"@ {
        opt_view(node.type_text)
    } else if field_name == "parameters"@ {
        opt_view(node.parameters)
    } else {
        None
    }
}

pub fn get_field_string_from_node(node: &AncestorNode, field_name: &str) -> (r: Option<String>)
    ensures
        opt_view(r) == field_text(*node, field_name@),
{
    let f = chars_of(field_name);
    if chars_eq(&f, &chars_of("name")) {
        copy_opt(&node.name)
    } else if chars_eq(&f, &chars_of("type")) {
        copy_opt(&node.type_text)
    } else if chars_eq(&f, &chars_of("parameters")) {
        copy_opt(&node.parameters)
    } else {
        None
    }
}

/// The fingerprint of a node: the hex SHA-256 digest of its text.
pub fn get_hashed_node_value(node: &AncestorNode) -> (r: String)
    ensures
        r@ == text_hash(node.text@),
{
    hash_text(node.text.as_str())
}

} // verus!
