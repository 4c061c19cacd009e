//! Java source text read by tree-sitter's Java grammar and its queries.
use vstd::prelude::*;

use tree_sitter::StreamingIterator;
use vstd::string::StringSliceAdditionalSpecFns;

use crate::java::annotations::{annotations_among, get_annotations_from_modifiers, is_path_annotation, is_path_annotation_exec, parens_ok};
use crate::java::listeners::{annotations_ok, HandlerClass, ListenerMethod};
use crate::java::assignments::{all_entries, entries_view, get_assignments_map, merge_entries, AssignmentCapture, AssignmentsExtractor};
use crate::java::callable_extractor::{match_callable, CallableCapture, CallablesExtractor};
use crate::java::calls::{call_view, match_call, CallCapture, CallStatementsExtractor};
use crate::java::enclosing::AncestorNode;
use crate::java::endpoint_extractor::{java_endpoints, readable_annotations, EndpointCapture, EndpointsExtractor};
use crate::java::entity_extractor::{entities_after, EntitiesExtractor, EntityCapture, FieldParts};
use crate::java::imports::{import_view, match_import, ImportCapture, ImportsExtractor};
use crate::java::queries::{
    ASSIGNMENTS_QUERY, CALLABLES_QUERY, CALL_STATEMENTS_QUERY, ENDPOINTS_QUERY, ENTITIES_QUERY, IMPORTS_QUERY,
    LISTENER_QUERY, MESSAGE_HANDLER_QUERY,
};
use crate::model::{
    callable_view, endpoints_view, entities_view, opt_view, Argument, Callable, FileRecord, Language, ParsedCallable,
};
use crate::text::{chars_eq, chars_of, find, find_char_exec, rfind, rfind_char_exec, text_of};

verus! {

#[verifier::external_type_specification]
#[verifier::external_body]
pub struct ExTreeSitterQuery(tree_sitter::Query);

#[verifier::external_type_specification]
#[verifier::external_body]
pub struct ExTreeSitterTree(tree_sitter::Tree);

/// A named child of a captured node: its kind, its text, the texts of its
/// `name` and `type` fields, and the `name` and `value` fields of its
/// `declarator` field where it has one.
pub struct SyntaxChild {
    pub kind: String,
    pub text: String,
    pub name: Option<String>,
    pub type_text: Option<String>,
    pub declarator: Option<(Option<String>, Option<String>)>,
}

/// A node a query captured: the capture's name, the node's text, its
/// ancestors (nearest first) and its named children.
pub struct CapturedNode {
    pub capture: String,
    pub text: String,
    pub ancestors: Vec<AncestorNode>,
    pub children: Vec<SyntaxChild>,
}

/// The smallest node of the Java syntax tree of a source text that spans
/// the given byte, followed by its ancestors, nearest first; `None` where
/// the text gives no tree or no node spans the byte.
pub uninterp spec fn java_nodes_at(code: Seq<char>, byte: int) -> Option<Seq<AncestorNode>>;

/// The captures of the matches of a tree-sitter query over a source text
/// parsed with tree-sitter's Java grammar, match by match and capture by
/// capture; `None` where the text gives no tree or the query does not
/// compile.
pub uninterp spec fn java_query_matches(query: Seq<char>, code: Seq<char>) -> Option<Seq<Seq<CapturedNode>>>;

pub open spec fn matches_seq(v: Seq<Vec<CapturedNode>>) -> Seq<Seq<CapturedNode>> {
    v.map_values(|m: Vec<CapturedNode>| m@)
}

/// The source text between a node's byte bounds.
#[verifier::external_body]
fn node_text(node: tree_sitter::Node, code: &str) -> String {
    String::from_utf8_lossy(&code.as_bytes()[node.start_byte()..node.end_byte()]).to_string()
}

/// The text of a node's field child, where it has one.
#[verifier::external_body]
fn field_text(node: tree_sitter::Node, field: &str, code: &str) -> Option<String> {
    match node.child_by_field_name(field) {
        Some(child) => Some(node_text(child, code)),
        None => None,
    }
}

/// A node as plain values: kind, byte bounds, the texts of its `name`,
/// `type` and `parameters` fields, and its text.
#[verifier::external_body]
fn ancestor_node(node: tree_sitter::Node, code: &str) -> AncestorNode {
    AncestorNode {
        kind: node.kind().to_string(), start: node.start_byte() as u32, end: node.end_byte() as u32,
        name: field_text(node, "name", code), type_text: field_text(node, "type", code),
        parameters: field_text(node, "parameters", code), text: node_text(node, code),
    }
}

/// The ancestors of a node, nearest first, as plain values.
#[verifier::external_body]
fn ancestors_of(node: tree_sitter::Node, code: &str) -> Vec<AncestorNode> {
    let mut out = Vec::new();
    let mut current = node;
    while let Some(parent) = current.parent() {
        out.push(ancestor_node(parent, code));
        current = parent;
    }
    out
}

/// A named child as plain values.
#[verifier::external_body]
fn syntax_child(node: tree_sitter::Node, code: &str) -> SyntaxChild {
    let declarator = match node.child_by_field_name("declarator") {
        Some(d) => Some((field_text(d, "name", code), field_text(d, "value", code))),
        None => None,
    };
    SyntaxChild {
        kind: node.kind().to_string(), text: node_text(node, code), name: field_text(node, "name", code),
        type_text: field_text(node, "type", code), declarator,
    }
}

/// A captured node as plain values.
#[verifier::external_body]
fn captured_node(capture: &str, node: tree_sitter::Node, code: &str) -> CapturedNode {
    let mut children = Vec::new();
    let mut cursor = node.walk();
    for child in node.named_children(&mut cursor) {
        children.push(syntax_child(child, code));
    }
    CapturedNode { capture: capture.to_string(), text: node_text(node, code), ancestors: ancestors_of(node, code), children }
}

/// `QueryCursor::matches` over the whole tree, each capture as plain values.
#[verifier::external_body]
fn query_matches(query: &tree_sitter::Query, tree: &tree_sitter::Tree, code: &str) -> Vec<Vec<CapturedNode>> {
    let mut cursor = tree_sitter::QueryCursor::new();
    let mut matches = cursor.matches(query, tree.root_node(), code.as_bytes());
    let mut out = Vec::new();
    while let Some(m) = matches.next() {
        let mut caps = Vec::new();
        for c in m.captures {
            caps.push(captured_node(query.capture_names()[c.index as usize], c.node, code));
        }
        out.push(caps);
    }
    out
}

/// `tree_sitter::Parser` with `tree_sitter_java::LANGUAGE` parsing the
/// text, then `Node::descendant_for_byte_range(byte, byte)` from the root:
/// that node and its ancestors as plain values.  Only named
/// (`java_nodes_at`): the parse and the lookup are deterministic in the
/// text and the byte.
#[verifier::external_body]
pub(crate) fn java_nodes_at_byte(code: &str, byte: usize) -> (r: Option<Vec<AncestorNode>>)
    ensures
        match r {
            Some(v) => java_nodes_at(code@, byte as int) == Some(v@),
            None => java_nodes_at(code@, byte as int) is None,
        },
{
    let mut parser = tree_sitter::Parser::new();
    if parser.set_language(&tree_sitter_java::LANGUAGE.into()).is_err() {
        return None;
    }
    let tree = parser.parse(code, None)?;
    let node = tree.root_node().descendant_for_byte_range(byte, byte)?;
    let mut nodes = vec![ancestor_node(node, code)];
    nodes.append(&mut ancestors_of(node, code));
    Some(nodes)
}

/// `tree_sitter::Parser` with `tree_sitter_java::LANGUAGE` parsing the
/// text, `tree_sitter::Query::new` compiling the query, and the query's
/// matches over the tree read as plain values.  The matches are only named
/// (`java_query_matches`): parsing and matching are deterministic in the
/// query and the text, and the grammar takes pages to state.
#[verifier::external_body]
fn query_java(query: &str, code: &str) -> (r: Option<Vec<Vec<CapturedNode>>>)
    ensures
        match r {
            Some(v) => java_query_matches(query@, code@) == Some(matches_seq(v@)),
            None => java_query_matches(query@, code@) is None,
        },
{
    let mut parser = tree_sitter::Parser::new();
    let language: tree_sitter::Language = tree_sitter_java::LANGUAGE.into();
    if parser.set_language(&language).is_err() {
        return None;
    }
    let tree = parser.parse(code, None)?;
    let compiled = tree_sitter::Query::new(&language, query).ok()?;
    Some(query_matches(&compiled, &tree, code))
}

/// The children of the given kind, in order.
pub open spec fn kind_children(cs: Seq<SyntaxChild>, kind: Seq<char>) -> Seq<SyntaxChild>
    decreases cs.len(),
{
    if cs.len() == 0 {
        Seq::empty()
    } else {
        let r = kind_children(cs.drop_last(), kind);
        if cs.last().kind@ == kind {
            r.push(cs.last())
        } else {
            r
        }
    }
}

/// The parts of a field declaration or formal parameter: its type, and the
/// name and value of its declarator, or else its own name.
pub open spec fn part_matches(p: FieldParts, c: SyntaxChild) -> bool {
    &&& opt_view(p.datatype) == opt_view(c.type_text)
    &&& match c.declarator {
        Some(d) => opt_view(p.name) == opt_view(d.0) && opt_view(p.value) == opt_view(d.1),
        None => opt_view(p.name) == opt_view(c.name) && p.value is None,
    }
}

pub open spec fn parts_match(ps: Seq<FieldParts>, cs: Seq<SyntaxChild>) -> bool {
    &&& ps.len() == cs.len()
    &&& forall|i: int| 0 <= i < ps.len() ==> part_matches(#[trigger] ps[i], cs[i])
}

/// Each argument is a child's text, with no variable and no type.
pub open spec fn args_match(a: Seq<Argument>, cs: Seq<SyntaxChild>) -> bool {
    &&& a.len() == cs.len()
    &&& forall|i: int|
        0 <= i < a.len() ==> {
            &&& (#[trigger] a[i]).value@ == cs[i].text@
            &&& a[i].assigned_variable@ == Seq::<char>::empty()
            &&& a[i].datatype is None
        }
}

fn child_parts(c: SyntaxChild) -> (p: FieldParts)
    ensures
        part_matches(p, c),
{
    match c.declarator {
        Some(d) => FieldParts { datatype: c.type_text, name: d.0, value: d.1 },
        None => FieldParts { datatype: c.type_text, name: c.name, value: None },
    }
}

/// The parts of the children of the given kind.
fn field_parts_of(children: Vec<SyntaxChild>, kind: &str) -> (r: Vec<FieldParts>)
    ensures
        parts_match(r@, kind_children(children@, kind@)),
{
    let ghost all = children@;
    let k = chars_of(kind);
    let mut rest = children;
    let mut r: Vec<FieldParts> = Vec::new();
    let total = rest.len();
    let mut i: usize = 0;
    while rest.len() > 0
        invariant
            all.len() == total,
            i + rest@.len() == all.len(),
            rest@ == all.skip(i as int),
            k@ == kind@,
            parts_match(r@, kind_children(all.take(i as int), kind@)),
        decreases rest@.len(),
    {
        let c = rest.remove(0);
        assert(c == all[i as int]);
        assert(all.take(i + 1).drop_last() =~= all.take(i as int));
        assert(all.take(i + 1).last() == all[i as int]);
        assert(rest@ =~= all.skip(i + 1));
        if chars_eq(&text_of(&c.kind), &k) {
            let ghost before = r@;
            r.push(child_parts(c));
            assert forall|j: int| 0 <= j < r@.len() implies part_matches(#[trigger] r@[j], kind_children(all.take(i + 1), kind@)[j]) by {
                if j < before.len() {
                    assert(r@[j] == before[j]);
                }
            }
        }
        i = i + 1;
    }
    assert(all.take(all.len() as int) =~= all);
    r
}

/// The arguments of an argument list: each named child by its text.
fn child_arguments(children: Vec<SyntaxChild>) -> (r: Vec<Argument>)
    ensures
        args_match(r@, children@),
{
    let ghost all = children@;
    let mut rest = children;
    let mut r: Vec<Argument> = Vec::new();
    let total = rest.len();
    let mut i: usize = 0;
    while rest.len() > 0
        invariant
            all.len() == total,
            i + rest@.len() == all.len(),
            rest@ == all.skip(i as int),
            args_match(r@, all.take(i as int)),
        decreases rest@.len(),
    {
        let c = rest.remove(0);
        assert(c == all[i as int]);
        assert(rest@ =~= all.skip(i + 1));
        let ghost before = r@;
        r.push(Argument { assigned_variable: String::new(), value: c.text, datatype: None });
        assert forall|j: int| 0 <= j < r@.len() implies {
            &&& (#[trigger] r@[j]).value@ == all.take(i + 1)[j].text@
            &&& r@[j].assigned_variable@ == Seq::<char>::empty()
            &&& r@[j].datatype is None
        } by {
            if j < before.len() {
                assert(r@[j] == before[j]);
            }
        }
        i = i + 1;
    }
    assert(all.take(all.len() as int) =~= all);
    r
}

/// A capture record an extractor reads, taken from a captured node.
pub trait FromCapture: Sized {
    spec fn corresponds(n: CapturedNode, c: Self) -> bool;

    fn from_capture(n: CapturedNode) -> (c: Self)
        ensures
            Self::corresponds(n, c),
    ;
}

fn capture_is(n: &CapturedNode, name: &str) -> (r: bool)
    ensures
        r == (n.capture@ == name@),
{
    chars_eq(&text_of(&n.capture), &chars_of(name))
}

impl FromCapture for ImportCapture {
    open spec fn corresponds(n: CapturedNode, c: ImportCapture) -> bool {
        if n.capture@ == "import.scoped"@ {
            c matches ImportCapture::Scoped(s) && s@ == n.text@
        } else if n.capture@ == "import.asterisk"@ {
            c is Asterisk
        } else {
            c is Other
        }
    }

    fn from_capture(n: CapturedNode) -> (c: ImportCapture) {
        if capture_is(&n, "import.scoped") {
            ImportCapture::Scoped(n.text)
        } else if capture_is(&n, "import.asterisk") {
            ImportCapture::Asterisk
        } else {
            ImportCapture::Other
        }
    }
}

impl FromCapture for EntityCapture {
    open spec fn corresponds(n: CapturedNode, c: EntityCapture) -> bool {
        if n.capture@ == "entity.name"@ {
            c matches EntityCapture::Name(s) && s@ == n.text@
        } else if n.capture@ == "entity.superclass"@ {
            c matches EntityCapture::Superclass(s) && s@ == n.text@
        } else if n.capture@ == "entity.body"@ {
            c matches EntityCapture::Body(ps) && parts_match(ps@, kind_children(n.children@, "field_declaration"@))
        } else if n.capture@ == "entity.recordparams"@ {
            c matches EntityCapture::RecordParams(ps) && parts_match(ps@, kind_children(n.children@, "formal_parameter"@))
        } else if n.capture@ == "package"@ {
            c matches EntityCapture::Package(s) && s@ == n.text@
        } else {
            c is Other
        }
    }

    fn from_capture(n: CapturedNode) -> (c: EntityCapture) {
        if capture_is(&n, "entity.name") {
            EntityCapture::Name(n.text)
        } else if capture_is(&n, "entity.superclass") {
            EntityCapture::Superclass(n.text)
        } else if capture_is(&n, "entity.body") {
            EntityCapture::Body(field_parts_of(n.children, "field_declaration"))
        } else if capture_is(&n, "entity.recordparams") {
            EntityCapture::RecordParams(field_parts_of(n.children, "formal_parameter"))
        } else if capture_is(&n, "package") {
            EntityCapture::Package(n.text)
        } else {
            EntityCapture::Other
        }
    }
}

impl FromCapture for EndpointCapture {
    open spec fn corresponds(n: CapturedNode, c: EndpointCapture) -> bool {
        if n.capture@ == "class_annotation"@ {
            c matches EndpointCapture::ClassAnnotation(s) && s@ == n.text@
        } else if n.capture@ == "return_type"@ {
            c matches EndpointCapture::ReturnType(s) && s@ == n.text@
        } else if n.capture@ == "callable_name"@ {
            c matches EndpointCapture::CallableName(s) && s@ == n.text@
        } else if n.capture@ == "callable_params"@ {
            c matches EndpointCapture::CallableParams(s) && s@ == n.text@
        } else if n.capture@ == "annotation"@ {
            c matches EndpointCapture::Annotation(s) && s@ == n.text@
        } else if n.capture@ == "callable"@ {
            c matches EndpointCapture::Callable(s) && s@ == n.text@
        } else {
            c is Other
        }
    }

    fn from_capture(n: CapturedNode) -> (c: EndpointCapture) {
        if capture_is(&n, "class_annotation") {
            EndpointCapture::ClassAnnotation(n.text)
        } else if capture_is(&n, "return_type") {
            EndpointCapture::ReturnType(n.text)
        } else if capture_is(&n, "callable_name") {
            EndpointCapture::CallableName(n.text)
        } else if capture_is(&n, "callable_params") {
            EndpointCapture::CallableParams(n.text)
        } else if capture_is(&n, "annotation") {
            EndpointCapture::Annotation(n.text)
        } else if capture_is(&n, "callable") {
            EndpointCapture::Callable(n.text)
        } else {
            EndpointCapture::Other
        }
    }
}

impl FromCapture for CallableCapture {
    open spec fn corresponds(n: CapturedNode, c: CallableCapture) -> bool {
        if n.capture@ == "callable_name"@ {
            c matches CallableCapture::Name(s) && s@ == n.text@
        } else if n.capture@ == "callable_type"@ {
            c matches CallableCapture::Type(s) && s@ == n.text@
        } else if n.capture@ == "callable_params"@ {
            c matches CallableCapture::Params(s) && s@ == n.text@
        } else if n.capture@ == "callable"@ {
            c matches CallableCapture::Callable { text, ancestors } && text@ == n.text@ && ancestors == n.ancestors
        } else if n.capture@ == "type_constructor"@ {
            c is TypeConstructor
        } else {
            c is Other
        }
    }

    fn from_capture(n: CapturedNode) -> (c: CallableCapture) {
        if capture_is(&n, "callable_name") {
            CallableCapture::Name(n.text)
        } else if capture_is(&n, "callable_type") {
            CallableCapture::Type(n.text)
        } else if capture_is(&n, "callable_params") {
            CallableCapture::Params(n.text)
        } else if capture_is(&n, "callable") {
            CallableCapture::Callable { text: n.text, ancestors: n.ancestors }
        } else if capture_is(&n, "type_constructor") {
            CallableCapture::TypeConstructor
        } else {
            CallableCapture::Other
        }
    }
}

impl FromCapture for CallCapture {
    open spec fn corresponds(n: CapturedNode, c: CallCapture) -> bool {
        if n.capture@ == "invoked_on"@ {
            c matches CallCapture::InvokedOn(s) && s@ == n.text@
        } else if n.capture@ == "args"@ {
            c matches CallCapture::Args { text, arguments } && text@ == n.text@ && args_match(arguments@, n.children@)
        } else if n.capture@ == "name"@ {
            c matches CallCapture::Name(s) && s@ == n.text@
        } else if n.capture@ == "explicit_constructor_call"@ {
            c matches CallCapture::ExplicitConstructorCall(s) && s@ == n.text@
        } else if n.capture@ == "call"@ {
            c matches CallCapture::Call(a) && a == n.ancestors
        } else {
            c is Other
        }
    }

    fn from_capture(n: CapturedNode) -> (c: CallCapture) {
        if capture_is(&n, "invoked_on") {
            CallCapture::InvokedOn(n.text)
        } else if capture_is(&n, "args") {
            CallCapture::Args { text: n.text, arguments: child_arguments(n.children) }
        } else if capture_is(&n, "name") {
            CallCapture::Name(n.text)
        } else if capture_is(&n, "explicit_constructor_call") {
            CallCapture::ExplicitConstructorCall(n.text)
        } else if capture_is(&n, "call") {
            CallCapture::Call(n.ancestors)
        } else {
            CallCapture::Other
        }
    }
}

impl FromCapture for AssignmentCapture {
    open spec fn corresponds(n: CapturedNode, c: AssignmentCapture) -> bool {
        if n.capture@ == "name"@ {
            c matches AssignmentCapture::Name(s) && s@ == n.text@
        } else if n.capture@ == "type"@ {
            c matches AssignmentCapture::Type(s) && s@ == n.text@
        } else if n.capture@ == "value"@ {
            c matches AssignmentCapture::Value(s) && s@ == n.text@
        } else if n.capture@ == "assignment"@ {
            c matches AssignmentCapture::Assignment(a) && a == n.ancestors
        } else {
            c is Other
        }
    }

    fn from_capture(n: CapturedNode) -> (c: AssignmentCapture) {
        if capture_is(&n, "name") {
            AssignmentCapture::Name(n.text)
        } else if capture_is(&n, "type") {
            AssignmentCapture::Type(n.text)
        } else if capture_is(&n, "value") {
            AssignmentCapture::Value(n.text)
        } else if capture_is(&n, "assignment") {
            AssignmentCapture::Assignment(n.ancestors)
        } else {
            AssignmentCapture::Other
        }
    }
}

/// Each capture record corresponds to the captured node in its place.
pub open spec fn captures_for<T: FromCapture>(ms: Seq<Seq<CapturedNode>>, caps: Seq<Vec<T>>) -> bool {
    &&& caps.len() == ms.len()
    &&& forall|i: int| 0 <= i < ms.len() ==> (#[trigger] caps[i])@.len() == ms[i].len()
    &&& forall|i: int, j: int|
        0 <= i < ms.len() && 0 <= j < ms[i].len() ==> T::corresponds(ms[i][j], #[trigger] caps[i]@[j])
}

fn convert_match<T: FromCapture>(m: Vec<CapturedNode>) -> (r: Vec<T>)
    ensures
        r@.len() == m@.len(),
        forall|j: int| 0 <= j < m@.len() ==> T::corresponds(m@[j], #[trigger] r@[j]),
{
    let ghost all = m@;
    let mut rest = m;
    let mut r: Vec<T> = Vec::new();
    let total = rest.len();
    let mut i: usize = 0;
    while rest.len() > 0
        invariant
            all.len() == total,
            i + rest@.len() == all.len(),
            rest@ == all.skip(i as int),
            r@.len() == i,
            forall|j: int| 0 <= j < i ==> T::corresponds(all[j], #[trigger] r@[j]),
        decreases rest@.len(),
    {
        let n = rest.remove(0);
        assert(n == all[i as int]);
        assert(rest@ =~= all.skip(i + 1));
        r.push(T::from_capture(n));
        i = i + 1;
    }
    r
}

/// The capture records of every match.
pub fn convert_matches<T: FromCapture>(ms: Vec<Vec<CapturedNode>>) -> (r: Vec<Vec<T>>)
    ensures
        captures_for(matches_seq(ms@), r@),
{
    let ghost all = ms@;
    let mut rest = ms;
    let mut r: Vec<Vec<T>> = Vec::new();
    let total = rest.len();
    let mut i: usize = 0;
    while rest.len() > 0
        invariant
            all.len() == total,
            i + rest@.len() == all.len(),
            rest@ == all.skip(i as int),
            r@.len() == i,
            forall|k: int| 0 <= k < i ==> (#[trigger] r@[k])@.len() == all[k]@.len(),
            forall|k: int, j: int| 0 <= k < i && 0 <= j < all[k]@.len() ==> T::corresponds(all[k]@[j], #[trigger] r@[k]@[j]),
        decreases rest@.len(),
    {
        let m = rest.remove(0);
        assert(m == all[i as int]);
        assert(rest@ =~= all.skip(i + 1));
        r.push(convert_match(m));
        i = i + 1;
    }
    r
}

/// An annotation captured by the endpoints query can be read: no `)` of a
/// class annotation or of a path annotation stands before its first `(`.
pub open spec fn node_readable(n: CapturedNode) -> bool {
    &&& n.capture@ == "class_annotation"@ ==> parens_ok(n.text@)
    &&& n.capture@ == "annotation"@ && is_path_annotation(n.text@) ==> parens_ok(n.text@)
}

pub open spec fn nodes_readable(ms: Seq<Seq<CapturedNode>>) -> bool {
    forall|i: int, j: int| 0 <= i < ms.len() && 0 <= j < ms[i].len() ==> node_readable(#[trigger] ms[i][j])
}

/// Every annotation the endpoints query captures in the text can be read.
pub open spec fn java_annotations_readable(code: Seq<char>) -> bool {
    match java_query_matches(ENDPOINTS_QUERY@, code) {
        Some(ms) => nodes_readable(ms),
        None => true,
    }
}

pub fn parens_ok_exec(s: &[char]) -> (r: bool)
    ensures
        r == parens_ok(s@),
{
    match (find_char_exec(s, '('), rfind_char_exec(s, ')')) {
        (Some(a), Some(b)) => a < b,
        _ => true,
    }
}

fn node_readable_exec(n: &CapturedNode) -> (r: bool)
    ensures
        r == node_readable(*n),
{
    let text = text_of(&n.text);
    if capture_is(n, "class_annotation") {
        parens_ok_exec(&text)
    } else if capture_is(n, "annotation") && is_path_annotation_exec(&text) {
        parens_ok_exec(&text)
    } else {
        true
    }
}

/// Whether every annotation the endpoints query captures can be read.
pub fn java_annotations_readable_exec(code: &str) -> (r: bool)
    ensures
        r == java_annotations_readable(code@),
{
    match query_java(ENDPOINTS_QUERY, code) {
        None => true,
        Some(ms) => {
            let ghost mv = matches_seq(ms@);
            let mut i: usize = 0;
            while i < ms.len()
                invariant
                    i <= ms@.len(),
                    mv == matches_seq(ms@),
                    java_query_matches(ENDPOINTS_QUERY@, code@) == Some(mv),
                    forall|k: int, j: int| 0 <= k < i && 0 <= j < mv[k].len() ==> node_readable(#[trigger] mv[k][j]),
                decreases ms.len() - i,
            {
                let m = &ms[i];
                let mut j: usize = 0;
                while j < m.len()
                    invariant
                        i < ms@.len(),
                        j <= m@.len(),
                        *m == ms@[i as int],
                        mv == matches_seq(ms@),
                        java_query_matches(ENDPOINTS_QUERY@, code@) == Some(mv),
                        forall|k: int, l: int| 0 <= k < i && 0 <= l < mv[k].len() ==> node_readable(#[trigger] mv[k][l]),
                        forall|l: int| 0 <= l < j ==> node_readable(#[trigger] mv[i as int][l]),
                    decreases m.len() - j,
                {
                    if !node_readable_exec(&m[j]) {
                        assert(mv[i as int] == m@);
                        assert(!node_readable(mv[i as int][j as int]));
                        assert(!nodes_readable(mv));
                        return false;
                    }
                    assert(mv[i as int] == m@);
                    j = j + 1;
                }
                assert(mv[i as int] == m@);
                i = i + 1;
            }
            assert(nodes_readable(mv));
            true
        },
    }
}

/// The query gives matches over the text.
pub open spec fn query_ok(query: Seq<char>, code: Seq<char>) -> bool {
    java_query_matches(query, code) is Some
}

/// All queries of the syntactic record give matches over the text.
pub open spec fn java_queries_ok(code: Seq<char>) -> bool {
    &&& query_ok(IMPORTS_QUERY@, code)
    &&& query_ok(ENTITIES_QUERY@, code)
    &&& query_ok(ENDPOINTS_QUERY@, code)
    &&& query_ok(CALLABLES_QUERY@, code)
    &&& query_ok(CALL_STATEMENTS_QUERY@, code)
    &&& query_ok(ASSIGNMENTS_QUERY@, code)
}

pub open spec fn imports_of(caps: Seq<Vec<ImportCapture>>, r: FileRecord) -> bool {
    &&& r.imports@.len() == caps.len()
    &&& forall|i: int| 0 <= i < caps.len() ==> import_view(#[trigger] r.imports@[i]) == match_import(caps[i]@)
}

pub open spec fn callables_of(caps: Seq<Vec<CallableCapture>>, file: Seq<char>, r: FileRecord) -> bool {
    &&& r.callables@.len() == caps.len()
    &&& forall|i: int|
        0 <= i < caps.len() ==> {
            &&& callable_view((#[trigger] r.callables@[i]).metadata) == match_callable(caps[i]@, file)
            &&& r.callables@[i].statements@.len() == 0
        }
}

pub open spec fn calls_of(caps: Seq<Vec<CallCapture>>, code_len: u32, r: FileRecord) -> bool {
    &&& r.call_statements@.len() == caps.len()
    &&& forall|i: int| 0 <= i < caps.len() ==> call_view(#[trigger] r.call_statements@[i]) == match_call(caps[i]@, code_len)
}

/// The syntactic record of a Java source: each extractor applied to the
/// capture records of its query's matches over the text.
pub open spec fn java_source_record(code: Seq<char>, code_len: u32, file: Seq<char>, r: FileRecord) -> bool {
    &&& r.file_path@ == file
    &&& r.language == Language::Java
    &&& exists|caps: Seq<Vec<ImportCapture>>|
        #[trigger] captures_for(java_query_matches(IMPORTS_QUERY@, code)->0, caps) && imports_of(caps, r)
    &&& exists|caps: Seq<Vec<EntityCapture>>|
        #[trigger] captures_for(java_query_matches(ENTITIES_QUERY@, code)->0, caps) && entities_view(r.entities@)
            == entities_after(caps, file).1
    &&& exists|caps: Seq<Vec<EndpointCapture>>|
        #[trigger] captures_for(java_query_matches(ENDPOINTS_QUERY@, code)->0, caps) && endpoints_view(r.endpoints@)
            == java_endpoints(caps, file)
    &&& exists|caps: Seq<Vec<CallableCapture>>|
        #[trigger] captures_for(java_query_matches(CALLABLES_QUERY@, code)->0, caps) && callables_of(caps, file, r)
    &&& exists|caps: Seq<Vec<CallCapture>>|
        #[trigger] captures_for(java_query_matches(CALL_STATEMENTS_QUERY@, code)->0, caps) && calls_of(caps, code_len, r)
    &&& exists|caps: Seq<Vec<AssignmentCapture>>|
        #[trigger] captures_for(java_query_matches(ASSIGNMENTS_QUERY@, code)->0, caps) && entries_view(r.assignments@)
            == merge_entries(all_entries(caps))
    &&& r.raw_message_edges@.len() == 0
}

proof fn lemma_readable_captures(ms: Seq<Seq<CapturedNode>>, caps: Seq<Vec<EndpointCapture>>)
    requires
        nodes_readable(ms),
        captures_for(ms, caps),
    ensures
        readable_annotations(caps),
{
    assert forall|i: int, j: int| 0 <= i < caps.len() && 0 <= j < caps[i]@.len() implies match #[trigger] caps[i]@[j] {
        EndpointCapture::ClassAnnotation(v) => parens_ok(v@),
        EndpointCapture::Annotation(v) => is_path_annotation(v@) ==> parens_ok(v@),
        _ => true,
    } by {
        assert(node_readable(ms[i][j]));
        assert(EndpointCapture::corresponds(ms[i][j], caps[i]@[j]));
    }
}

fn wrap_callables(cs: Vec<Callable>) -> (r: Vec<ParsedCallable>)
    ensures
        r@.len() == cs@.len(),
        forall|i: int| 0 <= i < cs@.len() ==> (#[trigger] r@[i]).metadata == cs@[i] && r@[i].statements@.len() == 0,
{
    let ghost all = cs@;
    let mut rest = cs;
    let total = rest.len();
    let mut r: Vec<ParsedCallable> = Vec::new();
    let mut i: usize = 0;
    while rest.len() > 0
        invariant
            all.len() == total,
            i + rest@.len() == all.len(),
            rest@ == all.skip(i as int),
            r@.len() == i,
            forall|k: int| 0 <= k < i ==> (#[trigger] r@[k]).metadata == all[k] && r@[k].statements@.len() == 0,
        decreases rest@.len(),
    {
        let c = rest.remove(0);
        assert(c == all[i as int]);
        assert(rest@ =~= all.skip(i + 1));
        r.push(ParsedCallable { metadata: c, statements: Vec::new() });
        i = i + 1;
    }
    r
}

/// The syntactic record of a Java source whose annotations can be read:
/// its imports, entities, endpoints, callables (with no statements), call
/// statements and assignment map, each read by its extractor from the
/// matches of its query.  `None` where a query gives no matches (the text
/// gives no tree).
pub fn extract_source_records(code: &str, file_name: &str) -> (r: Option<FileRecord>)
    requires
        code.spec_bytes().len() <= u32::MAX,
        java_annotations_readable(code@),
    ensures
        r is None <==> !java_queries_ok(code@),
        r matches Some(f) ==> java_source_record(code@, code.spec_bytes().len() as u32, file_name@, f),
{
    let im = query_java(IMPORTS_QUERY, code);
    let en = query_java(ENTITIES_QUERY, code);
    let ep = query_java(ENDPOINTS_QUERY, code);
    let ca = query_java(CALLABLES_QUERY, code);
    let cs = query_java(CALL_STATEMENTS_QUERY, code);
    let asg = query_java(ASSIGNMENTS_QUERY, code);
    match (im, en, ep, ca, cs, asg) {
        (Some(im), Some(en), Some(ep), Some(ca), Some(cs), Some(asg)) => {
            let ghost (mi, me, mp, mc, ms, ma) = (matches_seq(im@), matches_seq(en@), matches_seq(ep@), matches_seq(ca@), matches_seq(cs@), matches_seq(asg@));
            let ic: Vec<Vec<ImportCapture>> = convert_matches(im);
            let ec: Vec<Vec<EntityCapture>> = convert_matches(en);
            let pc: Vec<Vec<EndpointCapture>> = convert_matches(ep);
            let cc: Vec<Vec<CallableCapture>> = convert_matches(ca);
            let sc: Vec<Vec<CallCapture>> = convert_matches(cs);
            let ac: Vec<Vec<AssignmentCapture>> = convert_matches(asg);
            proof {
                lemma_readable_captures(mp, pc@);
            }
            let code_len = code.len() as u32;
            let imports = ImportsExtractor.extract(ic.as_slice());
            let entities = EntitiesExtractor.extract(ec.as_slice(), file_name);
            let endpoints = EndpointsExtractor.extract(pc.as_slice(), file_name);
            let callables = wrap_callables(CallablesExtractor.extract(cc.as_slice(), file_name));
            let call_statements = CallStatementsExtractor.extract(sc.as_slice(), code_len);
            let assignments = get_assignments_map(AssignmentsExtractor.extract(ac.as_slice()).as_slice());
            let f = FileRecord {
                file_path: file_name.to_string(),
                language: Language::Java,
                imports,
                entities,
                endpoints,
                callables,
                call_statements,
                assignments,
                raw_message_edges: Vec::new(),
            };
            assert(java_query_matches(IMPORTS_QUERY@, code@)->0 == mi);
            assert(java_query_matches(ENTITIES_QUERY@, code@)->0 == me);
            assert(java_query_matches(ENDPOINTS_QUERY@, code@)->0 == mp);
            assert(java_query_matches(CALLABLES_QUERY@, code@)->0 == mc);
            assert(java_query_matches(CALL_STATEMENTS_QUERY@, code@)->0 == ms);
            assert(java_query_matches(ASSIGNMENTS_QUERY@, code@)->0 == ma);
            assert(code_len == code.spec_bytes().len() as u32);
            assert(captures_for(mi, ic@) && imports_of(ic@, f));
            assert(captures_for(me, ec@) && entities_view(f.entities@) == entities_after(ec@, file_name@).1);
            assert(captures_for(mp, pc@) && endpoints_view(f.endpoints@) == java_endpoints(pc@, file_name@));
            assert(captures_for(mc, cc@) && callables_of(cc@, file_name@, f));
            assert(captures_for(ms, sc@) && calls_of(sc@, code_len, f));
            assert(captures_for(ma, ac@) && entries_view(f.assignments@) == merge_entries(all_entries(ac@)));
            Some(f)
        },
        _ => None,
    }
}

/// The syntactic record of a Java source: `None` where a query gives no
/// matches, and where an annotation the endpoints query captures cannot be
/// read (one whose `)` stands before its `(`).
pub fn extract_syntactic(code: &str, file_name: &str) -> (r: Option<FileRecord>)
    requires
        code.spec_bytes().len() <= u32::MAX,
    ensures
        !java_annotations_readable(code@) ==> r is None,
        java_annotations_readable(code@) ==> (r is None <==> !java_queries_ok(code@)),
        r matches Some(f) ==> java_source_record(code@, code.spec_bytes().len() as u32, file_name@, f),
{
    if java_annotations_readable_exec(code) {
        extract_source_records(code, file_name)
    } else {
        None
    }
}

pub type ListenerView = (Seq<Seq<char>>, Seq<char>, Seq<char>, Seq<char>, Seq<char>);

/// A listener method as plain values: annotations, return type, name,
/// parameter list and declaration text.
pub open spec fn listener_view(m: ListenerMethod) -> ListenerView {
    (m.annotations@.map_values(|a: String| a@), m.return_type@, m.method_name@, m.method_params@, m.method_text@)
}

/// What the captures of a listener match give, in order: the annotations
/// among the modifiers, the return type, name and parameter list, and the
/// method's text (each empty where not captured; a later capture of the
/// same name replaces an earlier one).
pub open spec fn listener_of(cs: Seq<CapturedNode>) -> ListenerView
    decreases cs.len(),
{
    if cs.len() == 0 {
        (Seq::empty(), Seq::empty(), Seq::empty(), Seq::empty(), Seq::empty())
    } else {
        let st = listener_of(cs.drop_last());
        let c = cs.last();
        if c.capture@ == "modifiers"@ {
            (annotations_among(c.children@), st.1, st.2, st.3, st.4)
        } else if c.capture@ == "return_type"@ {
            (st.0, c.text@, st.2, st.3, st.4)
        } else if c.capture@ == "method_name"@ {
            (st.0, st.1, c.text@, st.3, st.4)
        } else if c.capture@ == "method_params"@ {
            (st.0, st.1, st.2, c.text@, st.4)
        } else if c.capture@ == "method"@ {
            (st.0, st.1, st.2, st.3, c.text@)
        } else {
            st
        }
    }
}

fn listener_method_of(m: &Vec<CapturedNode>) -> (r: ListenerMethod)
    ensures
        listener_view(r) == listener_of(m@),
{
    let mut r = ListenerMethod {
        annotations: Vec::new(),
        return_type: String::new(),
        method_name: String::new(),
        method_params: String::new(),
        method_text: String::new(),
    };
    assert(listener_view(r) =~= listener_of(m@.take(0)));
    let mut i: usize = 0;
    while i < m.len()
        invariant
            i <= m@.len(),
            listener_view(r) == listener_of(m@.take(i as int)),
        decreases m.len() - i,
    {
        assert(m@.take(i + 1).drop_last() =~= m@.take(i as int));
        assert(m@.take(i + 1).last() == m@[i as int]);
        let c = &m[i];
        if capture_is(c, "modifiers") {
            r.annotations = get_annotations_from_modifiers(c.children.as_slice());
        } else if capture_is(c, "return_type") {
            r.return_type = c.text.clone();
        } else if capture_is(c, "method_name") {
            r.method_name = c.text.clone();
        } else if capture_is(c, "method_params") {
            r.method_params = c.text.clone();
        } else if capture_is(c, "method") {
            r.method_text = c.text.clone();
        }
        assert(listener_view(r) =~= listener_of(m@.take(i + 1)));
        i = i + 1;
    }
    assert(m@.take(m@.len() as int) =~= m@);
    r
}

/// The methods the listener query matches in a Java source, each as the
/// record the listener strategies read; `None` where the text gives no
/// tree.
pub fn listener_methods(code: &str) -> (r: Option<Vec<ListenerMethod>>)
    ensures
        r is None <==> !query_ok(LISTENER_QUERY@, code@),
        r matches Some(v) ==> ({
            let ms = java_query_matches(LISTENER_QUERY@, code@)->0;
            &&& v@.len() == ms.len()
            &&& forall|i: int| 0 <= i < ms.len() ==> listener_view(#[trigger] v@[i]) == listener_of(ms[i])
        }),
{
    match query_java(LISTENER_QUERY, code) {
        None => None,
        Some(ms) => {
            let ghost mv = matches_seq(ms@);
            let mut out: Vec<ListenerMethod> = Vec::new();
            let mut i: usize = 0;
            while i < ms.len()
                invariant
                    i <= ms@.len(),
                    mv == matches_seq(ms@),
                    out@.len() == i,
                    forall|k: int| 0 <= k < i ==> listener_view(#[trigger] out@[k]) == listener_of(mv[k]),
                decreases ms.len() - i,
            {
                out.push(listener_method_of(&ms[i]));
                i = i + 1;
            }
            Some(out)
        },
    }
}

/// Whether every annotation of every listener method has its parentheses
/// in order.
pub fn annotations_ok_exec(methods: &[ListenerMethod]) -> (r: bool)
    ensures
        r == annotations_ok(methods@),
{
    let mut m: usize = 0;
    while m < methods.len()
        invariant
            m <= methods@.len(),
            forall|k: int, i: int|
                0 <= k < m && 0 <= i < methods@[k].annotations@.len() ==> parens_ok(
                    #[trigger] methods@[k].annotations@[i]@,
                ),
        decreases methods.len() - m,
    {
        let a = &methods[m].annotations;
        let mut i: usize = 0;
        while i < a.len()
            invariant
                m < methods@.len(),
                *a == methods@[m as int].annotations,
                i <= a@.len(),
                forall|k: int, j: int|
                    0 <= k < m && 0 <= j < methods@[k].annotations@.len() ==> parens_ok(
                        #[trigger] methods@[k].annotations@[j]@,
                    ),
                forall|j: int| 0 <= j < i ==> parens_ok(#[trigger] a@[j]@),
            decreases a.len() - i,
        {
            if !parens_ok_exec(&text_of(&a[i])) {
                return false;
            }
            i = i + 1;
        }
        m = m + 1;
    }
    true
}

pub type HandlerView = (Seq<char>, Seq<char>, Seq<Seq<char>>);

/// A handler class as plain values: name, declaration text and the texts
/// of the interfaces it implements.
pub open spec fn handler_view(c: HandlerClass) -> HandlerView {
    (c.class_name@, c.class_text@, c.interfaces@.map_values(|s: String| s@))
}

/// What the captures of a message-handler match give, in order: the class
/// name, the class's text and each interface's text (the name and text
/// empty where not captured; a later capture replaces an earlier one).
pub open spec fn handler_of(cs: Seq<CapturedNode>) -> HandlerView
    decreases cs.len(),
{
    if cs.len() == 0 {
        (Seq::empty(), Seq::empty(), Seq::empty())
    } else {
        let st = handler_of(cs.drop_last());
        let c = cs.last();
        if c.capture@ == "class_name"@ {
            (c.text@, st.1, st.2)
        } else if c.capture@ == "interface"@ {
            (st.0, st.1, st.2.push(c.text@))
        } else if c.capture@ == "class"@ {
            (st.0, c.text@, st.2)
        } else {
            st
        }
    }
}

fn handler_class_of(m: &Vec<CapturedNode>) -> (r: HandlerClass)
    ensures
        handler_view(r) == handler_of(m@),
{
    let mut r = HandlerClass { class_name: String::new(), class_text: String::new(), interfaces: Vec::new() };
    assert(handler_view(r) =~= handler_of(m@.take(0)));
    let mut i: usize = 0;
    while i < m.len()
        invariant
            i <= m@.len(),
            handler_view(r) == handler_of(m@.take(i as int)),
        decreases m.len() - i,
    {
        assert(m@.take(i + 1).drop_last() =~= m@.take(i as int));
        assert(m@.take(i + 1).last() == m@[i as int]);
        let c = &m[i];
        if capture_is(c, "class_name") {
            r.class_name = c.text.clone();
        } else if capture_is(c, "interface") {
            let ghost before = r.interfaces@;
            r.interfaces.push(c.text.clone());
            assert(r.interfaces@.map_values(|s: String| s@) =~= before.map_values(|s: String| s@).push(c.text@));
        } else if capture_is(c, "class") {
            r.class_text = c.text.clone();
        }
        assert(handler_view(r) =~= handler_of(m@.take(i + 1)));
        i = i + 1;
    }
    assert(m@.take(m@.len() as int) =~= m@);
    r
}

/// The classes the message-handler query matches in a Java source, each as
/// the record the RabbitMQ strategy reads; `None` where the text gives no
/// tree.
pub fn handler_classes(code: &str) -> (r: Option<Vec<HandlerClass>>)
    ensures
        r is None <==> !query_ok(MESSAGE_HANDLER_QUERY@, code@),
        r matches Some(v) ==> ({
            let ms = java_query_matches(MESSAGE_HANDLER_QUERY@, code@)->0;
            &&& v@.len() == ms.len()
            &&& forall|i: int| 0 <= i < ms.len() ==> handler_view(#[trigger] v@[i]) == handler_of(ms[i])
        }),
{
    match query_java(MESSAGE_HANDLER_QUERY, code) {
        None => None,
        Some(ms) => {
            let ghost mv = matches_seq(ms@);
            let mut out: Vec<HandlerClass> = Vec::new();
            let mut i: usize = 0;
            while i < ms.len()
                invariant
                    i <= ms@.len(),
                    mv == matches_seq(ms@),
                    out@.len() == i,
                    forall|k: int| 0 <= k < i ==> handler_view(#[trigger] out@[k]) == handler_of(mv[k]),
                decreases ms.len() - i,
            {
                out.push(handler_class_of(&ms[i]));
                i = i + 1;
            }
            Some(out)
        },
    }
}

} // verus!
