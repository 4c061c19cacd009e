//! Go source text read into a syntax tree by tree-sitter's Go grammar.
use vstd::prelude::*;

use crate::go::syntactic::{extract_syntactic, syntactic_record};
use crate::go::syntax::GoNode;
use crate::model::FileRecord;

verus! {

#[verifier::external_type_specification]
#[verifier::external_body]
pub struct ExTreeSitterNode<'a>(tree_sitter::Node<'a>);

/// The syntax tree that tree-sitter's Go grammar gives a source text, each
/// node by its kind, its text, the field it stands in and its named
/// children; `None` where the parser gives no tree.
pub uninterp spec fn go_syntax_tree(code: Seq<char>) -> Option<GoNode>;

/// A tree-sitter node and its named descendants as plain values: `kind`,
/// the source text between its byte bounds, the field name given by the
/// parent's cursor, and the named children in order.
#[verifier::external_body]
fn go_node_of(node: tree_sitter::Node, code: &str, field: Option<&str>) -> GoNode {
    let mut named: Vec<GoNode> = Vec::new();
    let mut cursor = node.walk();
    let mut more = cursor.goto_first_child();
    while more {
        if cursor.node().is_named() {
            named.push(go_node_of(cursor.node(), code, cursor.field_name()));
        }
        more = cursor.goto_next_sibling();
    }
    let text = String::from_utf8_lossy(&code.as_bytes()[node.start_byte()..node.end_byte()]).to_string();
    GoNode { kind: node.kind().to_string(), text, field_name: field.map(|f| f.to_string()), named }
}

/// `tree_sitter::Parser` with `tree_sitter_go::LANGUAGE`, parsing the
/// text, and its root node read as plain values.  The tree is only named
/// (`go_syntax_tree`): the parser is deterministic in the text, and its
/// grammar takes pages to state.
#[verifier::external_body]
fn parse_go_source(code: &str) -> (r: Option<GoNode>)
    ensures
        r == go_syntax_tree(code@),
{
    let mut parser = tree_sitter::Parser::new();
    if parser.set_language(&tree_sitter_go::LANGUAGE.into()).is_err() {
        return None;
    }
    match parser.parse(code, None) {
        Some(tree) => Some(go_node_of(tree.root_node(), code, None)),
        None => None,
    }
}

/// The syntactic record of a Go source file: the text is parsed, and the
/// record is read from its syntax tree.  `None` where the text gives no tree.
pub fn extract_go_source(code: &str, file_path: &str) -> (r: Option<FileRecord>)
    ensures
        r is None <==> go_syntax_tree(code@) is None,
        r matches Some(f) ==> syntactic_record(go_syntax_tree(code@)->0, file_path@, f),
{
    match parse_go_source(code) {
        Some(root) => Some(extract_syntactic(&root, file_path)),
        None => None,
    }
}

} // verus!
