//! The Go grammar of tree-sitter, and the way from its trees to `SyntaxNode`.
//!
//! Nothing here is proved of tree-sitter itself. Its parser, trees and nodes
//! are opaque values; what the library believes of them is written on the
//! functions below that call into it.

use crate::syntax::{SyntaxNode, SyntaxTree};
use crate::text::opt_str_view;
use vstd::prelude::*;

verus! {

/// `tree_sitter::Parser`, of which nothing is known but what `speaks_go`
/// says.
#[verifier::external_type_specification]
#[verifier::external_body]
pub struct ExParser(tree_sitter::Parser);

/// `tree_sitter::Tree`, of which nothing is known but what `tree_shape`
/// says.
#[verifier::external_type_specification]
#[verifier::external_body]
pub struct ExTree(tree_sitter::Tree);

/// `tree_sitter::Node`, of which nothing is known but what `node_shape`
/// says.
#[verifier::external_type_specification]
#[verifier::external_body]
pub struct ExNode<'a>(tree_sitter::Node<'a>);

/// `tree_sitter::TreeCursor`, of which nothing is known but what
/// `cursor_children` and `cursor_place` say.
#[verifier::external_type_specification]
#[verifier::external_body]
pub struct ExTreeCursor<'a>(tree_sitter::TreeCursor<'a>);

/// The parser is as `Parser::new` makes it, but for the Go grammar, which
/// it has been given.
pub uninterp spec fn speaks_go(parser: tree_sitter::Parser) -> bool;

/// The syntax tree of a Go source text: what such a parser makes of it.
pub uninterp spec fn go_syntax(source: Seq<char>) -> Option<SyntaxTree>;

/// The syntax tree that a parsed tree holds.
pub uninterp spec fn tree_shape(tree: tree_sitter::Tree) -> SyntaxTree;

/// The syntax tree below a node, the node included. The field of the tree
/// is the one under which the node hangs in its parent; its children are
/// those that a cursor made on the node visits, in that order.
pub uninterp spec fn node_shape(node: tree_sitter::Node) -> SyntaxTree;

/// The children of the node that the cursor was made on.
pub uninterp spec fn cursor_children(cursor: tree_sitter::TreeCursor) -> Seq<SyntaxTree>;

/// The place, among those children, of the one that the cursor stands on;
/// -1 while it stands on the node that it was made on.
pub uninterp spec fn cursor_place(cursor: tree_sitter::TreeCursor) -> int;

/// The syntax tree that an optional parsed tree holds.
pub open spec fn opt_tree_shape(tree: Option<tree_sitter::Tree>) -> Option<SyntaxTree> {
    match tree {
        Some(t) => Some(tree_shape(t)),
        None => None,
    }
}

/// `Parser::new` and `Parser::set_language` of tree-sitter, with the grammar
/// that `tree_sitter_go::language` returns: a new parser for Go, or nothing
/// when the parser refuses the grammar's version.
#[verifier::external_body]
pub(crate) fn go_parser() -> (parser: Option<tree_sitter::Parser>)
    ensures
        parser matches Some(p) ==> speaks_go(p),
{
    let mut parser = tree_sitter::Parser::new();
    match parser.set_language(tree_sitter_go::language()) {
        Ok(()) => Some(parser),
        Err(_) => None,
    }
}

/// `Parser::parse` of tree-sitter, without an earlier tree: the tree of
/// `source`. A parser for Go stays one, and what it returns depends on the
/// text alone.
#[verifier::external_body]
pub(crate) fn parse_tree(parser: &mut tree_sitter::Parser, source: &str) -> (tree: Option<
    tree_sitter::Tree,
>)
    requires
        speaks_go(*old(parser)),
    ensures
        speaks_go(*final(parser)),
        opt_tree_shape(tree) == go_syntax(source@),
{
    parser.parse(source, None)
}

/// `Tree::root_node` of tree-sitter: the node at the root of the tree. It
/// hangs under no field.
#[verifier::external_body]
pub(crate) fn root_node<'t>(tree: &'t tree_sitter::Tree) -> (node: tree_sitter::Node<'t>)
    ensures
        node_shape(node) == tree_shape(*tree),
        node_shape(node).field is None,
{
    tree.root_node()
}

/// `Node::kind` of tree-sitter: the name of the node's kind.
#[verifier::external_body]
pub(crate) fn node_kind(node: &tree_sitter::Node) -> (kind: &'static str)
    ensures
        kind@ == node_shape(*node).kind,
{
    node.kind()
}

/// `Node::start_byte` of tree-sitter: the offset of the node's first byte.
#[verifier::external_body]
pub(crate) fn node_start(node: &tree_sitter::Node) -> (offset: usize)
    ensures
        offset == node_shape(*node).start,
{
    node.start_byte()
}

/// `Node::end_byte` of tree-sitter: the offset behind the node's last byte.
#[verifier::external_body]
pub(crate) fn node_end(node: &tree_sitter::Node) -> (offset: usize)
    ensures
        offset == node_shape(*node).end,
{
    node.end_byte()
}

/// `Node::walk` of tree-sitter: a cursor that stands on the node and can
/// visit its children.
#[verifier::external_body]
pub(crate) fn node_walk<'t>(node: &tree_sitter::Node<'t>) -> (cursor: tree_sitter::TreeCursor<'t>)
    ensures
        cursor_children(cursor) == node_shape(*node).children,
        cursor_place(cursor) == -1,
{
    node.walk()
}

/// `TreeCursor::goto_first_child` of tree-sitter: from the node that the
/// cursor was made on, it moves to the first child when there is one, and
/// says whether it moved.
#[verifier::external_body]
pub(crate) fn cursor_first_child(cursor: &mut tree_sitter::TreeCursor) -> (moved: bool)
    requires
        cursor_place(*old(cursor)) == -1,
    ensures
        cursor_children(*final(cursor)) == cursor_children(*old(cursor)),
        moved == (cursor_children(*old(cursor)).len() > 0),
        cursor_place(*final(cursor)) == if moved {
            0int
        } else {
            -1int
        },
{
    cursor.goto_first_child()
}

/// `TreeCursor::goto_next_sibling` of tree-sitter: from a child, it moves
/// to the next child when there is one, and says whether it moved.
#[verifier::external_body]
pub(crate) fn cursor_next_sibling(cursor: &mut tree_sitter::TreeCursor) -> (moved: bool)
    requires
        0 <= cursor_place(*old(cursor)) < cursor_children(*old(cursor)).len(),
    ensures
        cursor_children(*final(cursor)) == cursor_children(*old(cursor)),
        moved == (cursor_place(*old(cursor)) + 1 < cursor_children(*old(cursor)).len()),
        cursor_place(*final(cursor)) == if moved {
            cursor_place(*old(cursor)) + 1
        } else {
            cursor_place(*old(cursor))
        },
{
    cursor.goto_next_sibling()
}

/// `TreeCursor::node` of tree-sitter: the child that the cursor stands on.
#[verifier::external_body]
pub(crate) fn cursor_node<'t>(cursor: &tree_sitter::TreeCursor<'t>) -> (node: tree_sitter::Node<
    't,
>)
    requires
        0 <= cursor_place(*cursor) < cursor_children(*cursor).len(),
    ensures
        node_shape(node) == cursor_children(*cursor)[cursor_place(*cursor)],
{
    cursor.node()
}

/// `TreeCursor::field_name` of tree-sitter: the field under which the child
/// that the cursor stands on hangs in its parent, if it hangs under one.
#[verifier::external_body]
pub(crate) fn cursor_field(cursor: &tree_sitter::TreeCursor) -> (field: Option<&'static str>)
    requires
        0 <= cursor_place(*cursor) < cursor_children(*cursor).len(),
    ensures
        opt_str_view(field) == cursor_children(*cursor)[cursor_place(*cursor)].field,
{
    cursor.field_name()
}

/// Copies the tree below `node` into plain values.
fn lower(node: &tree_sitter::Node, field: Option<&'static str>) -> (lowered: SyntaxNode)
    requires
        opt_str_view(field) == node_shape(*node).field,
    ensures
        lowered@ == node_shape(*node),
    decreases node_shape(*node),
{
    let ghost shape = node_shape(*node);
    let mut cursor = node_walk(node);
    let mut children: Vec<SyntaxNode> = Vec::new();
    let mut more = cursor_first_child(&mut cursor);
    while more
        invariant
            shape == node_shape(*node),
            cursor_children(cursor) == shape.children,
            more ==> cursor_place(cursor) == children.len() < shape.children.len(),
            !more ==> children.len() == shape.children.len(),
            forall|j: int|
                0 <= j < children.len() ==> (#[trigger] children[j])@ == shape.children[j],
        decreases shape.children.len() - children.len(),
    {
        let child = cursor_node(&cursor);
        let child_field = cursor_field(&cursor);
        let lowered = lower(&child, child_field);
        children.push(lowered);
        more = cursor_next_sibling(&mut cursor);
    }
    let kind = node_kind(node).to_owned();
    let owned_field = match field {
        Some(name) => Some(name.to_owned()),
        None => None,
    };
    let lowered = SyntaxNode {
        kind,
        field: owned_field,
        start_byte: node_start(node),
        end_byte: node_end(node),
        children,
    };
    proof {
        lowered.lemma_children();
        assert(lowered@.children =~= shape.children);
    }
    lowered
}

/// A parser for Go, or nothing when tree-sitter refuses the grammar.
pub fn new_go_parser() -> (parser: Option<tree_sitter::Parser>)
    ensures
        parser matches Some(p) ==> speaks_go(p),
{
    go_parser()
}

/// The syntax tree that `parser` makes of `source`, as plain values.
pub fn parse_with(parser: &mut tree_sitter::Parser, source: &str) -> (tree: Option<SyntaxNode>)
    requires
        speaks_go(*old(parser)),
    ensures
        speaks_go(*final(parser)),
        match tree {
            Some(t) => go_syntax(source@) == Some(t@),
            None => go_syntax(source@) is None,
        },
{
    match parse_tree(parser, source) {
        Some(tree) => {
            let root = root_node(&tree);
            Some(lower(&root, None))
        },
        None => None,
    }
}

/// The syntax tree of the Go source `source`, made by a parser of its own.
/// There is none when no parser for Go can be had, or when the parser gives
/// none.
pub fn parse_go(source: &str) -> (tree: Option<SyntaxNode>)
    ensures
        tree matches Some(t) ==> go_syntax(source@) == Some(t@),
{
    match go_parser() {
        Some(parser) => {
            let mut parser = parser;
            parse_with(&mut parser, source)
        },
        None => None,
    }
}

} // verus!
