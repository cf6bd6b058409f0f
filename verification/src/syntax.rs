//! Syntax trees as plain values.
//!
//! A `SyntaxNode` holds what the indexers read of a parsed tree: the kind of
//! each node, the field under which it hangs in its parent, the byte span it
//! covers, and its children in order.

use crate::text::{opt_view, str_eq, string_from_utf8};
use vstd::prelude::*;
use vstd::slice::{slice_subrange, slice_to_vec};
use vstd::utf8::*;

verus! {

/// One node of a parsed syntax tree.
#[derive(Debug)]
pub struct SyntaxNode {
    /// The node's kind, as the grammar names it.
    pub kind: String,
    /// The field under which the node hangs in its parent, if any.
    pub field: Option<String>,
    /// The offset of the node's first byte in the source.
    pub start_byte: usize,
    /// The offset just behind the node's last byte in the source.
    pub end_byte: usize,
    /// The node's children, in source order.
    pub children: Vec<SyntaxNode>,
}

/// The mathematical tree that a `SyntaxNode` stands for.
pub struct SyntaxTree {
    pub kind: Seq<char>,
    pub field: Option<Seq<char>>,
    pub start: int,
    pub end: int,
    pub children: Seq<SyntaxTree>,
}

/// The trees that a list of nodes stands for.
pub open spec fn forest_view(nodes: Seq<SyntaxNode>) -> Seq<SyntaxTree> {
    Seq::new(nodes.len(), |i: int| nodes[i]@)
}

impl View for SyntaxNode {
    type V = SyntaxTree;

    open spec fn view(&self) -> SyntaxTree {
        self.tree()
    }
}

impl SyntaxNode {
    /// The tree that the node stands for.
    pub open spec fn tree(self) -> SyntaxTree
        decreases self, self.children.len() + 1,
    {
        SyntaxTree {
            kind: self.kind@,
            field: opt_view(self.field),
            start: self.start_byte as int,
            end: self.end_byte as int,
            children: self.subtrees(self.children.len() as nat),
        }
    }

    /// The trees that the first `n` children stand for.
    pub open spec fn subtrees(self, n: nat) -> Seq<SyntaxTree>
        decreases self, n,
    {
        if n == 0 || n > self.children.len() {
            Seq::empty()
        } else {
            self.subtrees((n - 1) as nat).push(self.children[n - 1].tree())
        }
    }

    proof fn lemma_subtrees(self, n: nat)
        requires
            n <= self.children.len(),
        ensures
            self.subtrees(n) == forest_view(self.children@.take(n as int)),
        decreases n,
    {
        if n == 0 {
            assert(self.subtrees(n) =~= forest_view(self.children@.take(n as int)));
        } else {
            self.lemma_subtrees((n - 1) as nat);
            assert(self.subtrees(n) =~= forest_view(self.children@.take(n as int)));
        }
    }

    /// The children of a node's tree are the trees of its children.
    pub proof fn lemma_children(&self)
        ensures
            self@.children == forest_view(self.children@),
            self@.children.len() == self.children.len(),
    {
        self.lemma_subtrees(self.children.len() as nat);
        assert(self.children@.take(self.children.len() as int) == self.children@);
    }
}

impl SyntaxTree {
    /// The span lies inside `source`.
    pub open spec fn span_inside(self, source: Seq<u8>) -> bool {
        0 <= self.start <= self.end <= source.len()
    }

    /// The bytes of `source` that the node covers.
    pub open spec fn span(self, source: Seq<u8>) -> Seq<u8> {
        source.subrange(self.start, self.end)
    }

    /// The span lies inside `source` and covers valid text.
    pub open spec fn span_fits(self, source: Seq<u8>) -> bool {
        self.span_inside(source) && valid_utf8(self.span(source))
    }

    /// The text that the node covers.
    pub open spec fn text(self, source: Seq<u8>) -> Seq<char> {
        decode_utf8(self.span(source))
    }

    /// Every node of the tree covers valid text of `source`.
    pub open spec fn fits(self, source: Seq<u8>) -> bool
        decreases self,
    {
        &&& self.span_fits(source)
        &&& forall|i: int| 0 <= i < self.children.len() ==> (#[trigger] self.children[i]).fits(source)
    }
}

impl SyntaxNode {
    /// A node of the given kind and span, hanging under no field.
    pub fn new(kind: &str, start_byte: usize, end_byte: usize, children: Vec<SyntaxNode>) -> (node:
        Self)
        ensures
            node@ == (SyntaxTree {
                kind: kind@,
                field: None,
                start: start_byte as int,
                end: end_byte as int,
                children: forest_view(children@),
            }),
    {
        let node = SyntaxNode { kind: kind.to_owned(), field: None, start_byte, end_byte, children };
        proof {
            node.lemma_children();
        }
        node
    }

    /// The same node, hanging under `field`.
    pub fn with_field(self, field: &str) -> (node: Self)
        ensures
            node@ == (SyntaxTree { field: Some(field@), ..self@ }),
    {
        let node = SyntaxNode {
            kind: self.kind,
            field: Some(field.to_owned()),
            start_byte: self.start_byte,
            end_byte: self.end_byte,
            children: self.children,
        };
        proof {
            node.lemma_children();
            self.lemma_children();
        }
        node
    }

    /// Whether the node is of the given kind.
    pub fn is_kind(&self, kind: &str) -> (same: bool)
        ensures
            same == (self@.kind == kind@),
    {
        str_eq(self.kind.as_str(), kind)
    }

    /// The text that the node covers, or nothing when its span does not lie
    /// inside `source` or does not cover valid text.
    pub fn lookup_text(&self, source: &[u8]) -> (text: Option<String>)
        ensures
            opt_view(text) == if self@.span_fits(source@) {
                Some(self@.text(source@))
            } else {
                None
            },
    {
        if self.start_byte <= self.end_byte && self.end_byte <= source.len() {
            let span = slice_subrange(source, self.start_byte, self.end_byte);
            string_from_utf8(slice_to_vec(span))
        } else {
            None
        }
    }

    /// The text that the node covers.
    pub fn text(&self, source: &[u8]) -> (text: String)
        requires
            self@.span_fits(source@),
        ensures
            text@ == self@.text(source@),
    {
        let span = slice_subrange(source, self.start_byte, self.end_byte);
        match string_from_utf8(slice_to_vec(span)) {
            Some(text) => text,
            None => String::new(),
        }
    }

    /// Whether every node of the tree covers valid text of `source`.
    pub fn fits(&self, source: &[u8]) -> (ok: bool)
        ensures
            ok == self@.fits(source@),
        decreases self,
    {
        if self.lookup_text(source).is_none() {
            return false;
        }
        proof {
            self.lemma_children();
        }
        let mut i: usize = 0;
        while i < self.children.len()
            invariant
                i <= self.children.len(),
                self@.children == forest_view(self.children@),
                self@.span_fits(source@),
                forall|j: int| 0 <= j < i ==> (#[trigger] self@.children[j]).fits(source@),
            decreases self.children.len() - i,
        {
            if !self.children[i].fits(source) {
                assert(!self@.children[i as int].fits(source@));
                return false;
            }
            i = i + 1;
        }
        true
    }
}

} // verus!
