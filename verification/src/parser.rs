//! Parsing one source text and listing the declarations found in it.

use crate::grammar::{go_syntax, new_go_parser, parse_with, speaks_go};
use crate::syntax::{forest_view, SyntaxNode, SyntaxTree};
use crate::text::str_eq;
use vstd::prelude::*;
use vstd::string::{StrSliceExecFns, StringSliceAdditionalSpecFns};

verus! {

/// The languages a source file can be written in, as far as the library
/// tells them apart.
#[derive(Clone, Copy, Debug, PartialEq, Eq, Structural)]
pub enum Language {
    Go,
    Unknown,
}

/// Why a source text could not be parsed.
#[derive(Clone, Copy, Debug, PartialEq, Eq, Structural)]
pub enum ParseError {
    /// There is no grammar for the language.
    UnsupportedLanguage,
    /// The parser refused the grammar.
    GrammarRefused,
    /// The parser gave no tree.
    NoTree,
    /// The tree has a node that does not cover valid text of the source.
    Malformed,
}

/// Which declarations are listed.
#[derive(Clone, Copy, Debug, PartialEq, Eq, Structural)]
pub enum Scope {
    /// Method declarations.
    Methods,
    /// Method declarations and the type specifications of structs.
    MethodsAndStructs,
}

/// The first of `trees` that hangs under `field`.
pub open spec fn field_child(trees: Seq<SyntaxTree>, field: Seq<char>) -> Option<SyntaxTree>
    decreases trees.len(),
{
    if trees.len() == 0 {
        None
    } else if trees[0].field == Some(field) {
        Some(trees[0])
    } else {
        field_child(trees.drop_first(), field)
    }
}

/// The node is a type specification whose type is a struct.
pub open spec fn is_struct_spec(t: SyntaxTree) -> bool {
    t.kind == "type_spec"@ && match field_child(t.children, "type"@) {
        Some(ty) => ty.kind == "struct_type"@,
        None => false,
    }
}

/// The node is one of the declarations that `scope` lists.
pub open spec fn selected(scope: Scope, t: SyntaxTree) -> bool {
    match scope {
        Scope::Methods => t.kind == "method_declaration"@,
        Scope::MethodsAndStructs => is_struct_spec(t) || t.kind == "method_declaration"@,
    }
}

/// The text of the node itself, if it is listed.
pub open spec fn own_texts(scope: Scope, t: SyntaxTree, source: Seq<u8>) -> Seq<Seq<char>> {
    if selected(scope, t) {
        seq![t.text(source)]
    } else {
        Seq::empty()
    }
}

/// The texts of the listed declarations of a tree, in pre-order. A
/// declaration inside another is listed too, after the one it stands in.
pub open spec fn declaration_texts(scope: Scope, t: SyntaxTree, source: Seq<u8>) -> Seq<Seq<char>>
    decreases t,
{
    own_texts(scope, t, source) + forest_texts(scope, t.children, source)
}

/// The texts of the listed declarations of a list of trees, tree by tree.
pub open spec fn forest_texts(scope: Scope, trees: Seq<SyntaxTree>, source: Seq<u8>) -> Seq<
    Seq<char>,
>
    decreases trees,
{
    if trees.len() == 0 {
        Seq::empty()
    } else {
        forest_texts(scope, trees.drop_last(), source) + declaration_texts(
            scope,
            trees.last(),
            source,
        )
    }
}

/// The texts that a list of strings holds.
pub open spec fn texts_view(strings: Seq<String>) -> Seq<Seq<char>> {
    Seq::new(strings.len(), |i: int| strings[i]@)
}

/// Whether the node is a type specification whose type is a struct.
pub fn node_is_struct_spec(node: &SyntaxNode) -> (is: bool)
    ensures
        is == is_struct_spec(node@),
{
    if !node.is_kind("type_spec") {
        return false;
    }
    proof {
        node.lemma_children();
        assert(node@.children.skip(0) == node@.children);
    }
    let mut i: usize = 0;
    while i < node.children.len()
        invariant
            i <= node.children.len(),
            node@.children == forest_view(node.children@),
            node@.kind == "type_spec"@,
            field_child(node@.children, "type"@) == field_child(
                node@.children.skip(i as int),
                "type"@,
            ),
        decreases node.children.len() - i,
    {
        let child = &node.children[i];
        assert(child@ == node@.children[i as int]);
        assert(node@.children.skip(i as int)[0] == child@);
        let under_type = match &child.field {
            Some(name) => str_eq(name.as_str(), "type"),
            None => false,
        };
        if under_type {
            return child.is_kind("struct_type");
        }
        assert(node@.children.skip(i as int).drop_first() == node@.children.skip(i + 1));
        i = i + 1;
    }
    false
}

/// Whether the node is one of the declarations that `scope` lists.
pub fn node_is_selected(scope: Scope, node: &SyntaxNode) -> (is: bool)
    ensures
        is == selected(scope, node@),
{
    match scope {
        Scope::Methods => node.is_kind("method_declaration"),
        Scope::MethodsAndStructs => node_is_struct_spec(node) || node.is_kind(
            "method_declaration",
        ),
    }
}

/// Appends to `found` the texts of the listed declarations of the tree
/// `node`, in pre-order.
pub fn collect_declarations(
    scope: Scope,
    node: &SyntaxNode,
    source: &[u8],
    found: &mut Vec<String>,
)
    requires
        node@.fits(source@),
    ensures
        texts_view(final(found)@) == texts_view(old(found)@) + declaration_texts(
            scope,
            node@,
            source@,
        ),
    decreases node,
{
    let ghost before = texts_view(found@);
    let ghost own = own_texts(scope, node@, source@);
    if node_is_selected(scope, node) {
        found.push(node.text(source));
    }
    proof {
        node.lemma_children();
        assert(node@.children.take(0) == Seq::<SyntaxTree>::empty());
        assert(texts_view(found@) =~= before + own);
        assert(before + own + Seq::<Seq<char>>::empty() =~= before + own);
    }
    let mut i: usize = 0;
    while i < node.children.len()
        invariant
            i <= node.children.len(),
            node@.children == forest_view(node.children@),
            node@.fits(source@),
            texts_view(found@) == before + own + forest_texts(
                scope,
                node@.children.take(i as int),
                source@,
            ),
        decreases node.children.len() - i,
    {
        let child = &node.children[i];
        let ghost done = forest_texts(scope, node@.children.take(i as int), source@);
        let ghost more = declaration_texts(scope, child@, source@);
        assert(child@ == node@.children[i as int]);
        assert(child@.fits(source@));
        collect_declarations(scope, child, source, found);
        proof {
            let upto = node@.children.take(i + 1);
            assert(upto.drop_last() == node@.children.take(i as int));
            assert(upto.last() == child@);
            assert(before + own + done + more =~= before + own + (done + more));
        }
        i = i + 1;
    }
    proof {
        assert(node@.children.take(node.children.len() as int) == node@.children);
        assert(before + own + forest_texts(scope, node@.children, source@) =~= before + (own
            + forest_texts(scope, node@.children, source@)));
    }
}

/// One parsed source text.
pub struct LangParser {
    language: Language,
    tree: SyntaxNode,
    source_code: Vec<u8>,
}

impl LangParser {
    /// The language of the text.
    pub closed spec fn spec_language(&self) -> Language {
        self.language
    }

    /// The syntax tree of the text.
    pub closed spec fn spec_tree(&self) -> SyntaxTree {
        self.tree@
    }

    /// The bytes of the text.
    pub closed spec fn spec_source(&self) -> Seq<u8> {
        self.source_code@
    }

    /// Every node of the tree covers valid text of the source.
    pub open spec fn inv(&self) -> bool {
        self.spec_tree().fits(self.spec_source())
    }

    /// A parser for `language`. Only Go has one; whether tree-sitter accepts
    /// its grammar is for tree-sitter to say.
    pub fn new_parser(language: Language) -> (parser: Result<tree_sitter::Parser, ParseError>)
        ensures
            language == Language::Unknown <==> parser == Err::<tree_sitter::Parser, ParseError>(
                ParseError::UnsupportedLanguage,
            ),
            match parser {
                Ok(p) => speaks_go(p),
                Err(e) => e == ParseError::UnsupportedLanguage || e == ParseError::GrammarRefused,
            },
    {
        match language {
            Language::Go => match new_go_parser() {
                Some(parser) => Ok(parser),
                None => Err(ParseError::GrammarRefused),
            },
            Language::Unknown => Err(ParseError::UnsupportedLanguage),
        }
    }

    /// Checks a tree that a parser made of `code` and keeps it with the text.
    pub fn from_tree(language: Language, tree: Option<SyntaxNode>, code: &str) -> (parsed: Result<
        LangParser,
        ParseError,
    >)
        ensures
            match parsed {
                Ok(p) => {
                    &&& tree matches Some(t) && p.spec_tree() == t@
                    &&& p.spec_language() == language
                    &&& p.spec_source() == code.spec_bytes()
                    &&& p.inv()
                },
                Err(e) => match tree {
                    Some(t) => e == ParseError::Malformed && !t@.fits(code.spec_bytes()),
                    None => e == ParseError::NoTree,
                },
            },
    {
        match tree {
            Some(tree) => {
                if tree.fits(code.as_bytes()) {
                    Ok(LangParser { language, tree, source_code: code.as_bytes_vec() })
                } else {
                    Err(ParseError::Malformed)
                }
            },
            None => Err(ParseError::NoTree),
        }
    }

    /// Parses the Go text `code` with `parser`. There is a result exactly
    /// when the parser gives a tree and the tree fits the text.
    pub fn with_parser(parser: &mut tree_sitter::Parser, code: &str) -> (parsed: Result<
        LangParser,
        ParseError,
    >)
        requires
            speaks_go(*old(parser)),
        ensures
            speaks_go(*final(parser)),
            match parsed {
                Ok(p) => {
                    &&& go_syntax(code@) == Some(p.spec_tree())
                    &&& p.spec_language() == Language::Go
                    &&& p.spec_source() == code.spec_bytes()
                    &&& p.inv()
                },
                Err(error) => match go_syntax(code@) {
                    Some(t) => error == ParseError::Malformed && !t.fits(code.spec_bytes()),
                    None => error == ParseError::NoTree,
                },
            },
    {
        let tree = parse_with(parser, code);
        Self::from_tree(Language::Go, tree, code)
    }

    /// Parses `code` as a text in `language`, with a parser of its own.
    pub fn new(language: Language, code: &str) -> (parsed: Result<LangParser, ParseError>)
        ensures
            language == Language::Unknown <==> parsed matches Err(ParseError::UnsupportedLanguage),
            match parsed {
                Ok(p) => {
                    &&& go_syntax(code@) == Some(p.spec_tree())
                    &&& p.spec_language() == language
                    &&& p.spec_source() == code.spec_bytes()
                    &&& p.inv()
                },
                Err(ParseError::NoTree) => go_syntax(code@) is None,
                Err(ParseError::Malformed) => go_syntax(code@) matches Some(t) && !t.fits(
                    code.spec_bytes(),
                ),
                Err(_) => true,
            },
    {
        match Self::new_parser(language) {
            Ok(parser) => {
                let mut parser = parser;
                Self::with_parser(&mut parser, code)
            },
            Err(e) => Err(e),
        }
    }

    /// Parses `code` in the language of this text and, when that gives a
    /// tree that fits, takes `code` and its tree in place of what was held.
    /// On an error nothing changes.
    pub fn parse(&mut self, code: &str) -> (parsed: Result<(), ParseError>)
        requires
            old(self).inv(),
        ensures
            final(self).inv(),
            final(self).spec_language() == old(self).spec_language(),
            old(self).spec_language() == Language::Unknown <==> parsed matches Err(
                ParseError::UnsupportedLanguage,
            ),
            match parsed {
                Ok(()) => {
                    &&& go_syntax(code@) == Some(final(self).spec_tree())
                    &&& final(self).spec_source() == code.spec_bytes()
                },
                Err(error) => {
                    &&& final(self).spec_tree() == old(self).spec_tree()
                    &&& final(self).spec_source() == old(self).spec_source()
                    &&& error == ParseError::NoTree ==> go_syntax(code@) is None
                    &&& error == ParseError::Malformed ==> (go_syntax(code@) matches Some(t)
                        && !t.fits(code.spec_bytes()))
                },
            },
    {
        match Self::new(self.language, code) {
            Ok(fresh) => {
                self.tree = fresh.tree;
                self.source_code = fresh.source_code;
                Ok(())
            },
            Err(error) => Err(error),
        }
    }

    /// The language of the text.
    pub fn language(&self) -> (language: Language)
        ensures
            language == self.spec_language(),
    {
        self.language
    }

    /// The root of the syntax tree.
    pub fn tree(&self) -> (tree: &SyntaxNode)
        ensures
            tree@ == self.spec_tree(),
    {
        &self.tree
    }

    /// The bytes of the text.
    pub fn source_code(&self) -> (bytes: &[u8])
        ensures
            bytes@ == self.spec_source(),
    {
        self.source_code.as_slice()
    }

    /// The text that `node` covers.
    pub fn get_node_text(&self, node: &SyntaxNode, source: &[u8]) -> (text: String)
        requires
            node@.span_fits(source@),
        ensures
            text@ == node@.text(source@),
    {
        node.text(source)
    }

    /// Appends to `found` the texts of the method declarations and struct
    /// specifications of the tree `node`, in pre-order.
    pub fn traverse(&self, node: &SyntaxNode, source: &[u8], found: &mut Vec<String>)
        requires
            node@.fits(source@),
        ensures
            texts_view(final(found)@) == texts_view(old(found)@) + declaration_texts(
                Scope::MethodsAndStructs,
                node@,
                source@,
            ),
    {
        collect_declarations(Scope::MethodsAndStructs, node, source, found)
    }

    /// The texts of all method declarations of the text, in pre-order.
    pub fn retrieve_all_methods(&self) -> (methods: Vec<String>)
        requires
            self.inv(),
        ensures
            texts_view(methods@) == declaration_texts(
                Scope::Methods,
                self.spec_tree(),
                self.spec_source(),
            ),
    {
        let mut methods: Vec<String> = Vec::new();
        assert(texts_view(methods@) =~= Seq::<Seq<char>>::empty());
        collect_declarations(Scope::Methods, &self.tree, self.source_code.as_slice(), &mut methods);
        assert(Seq::<Seq<char>>::empty() + declaration_texts(
            Scope::Methods,
            self.spec_tree(),
            self.spec_source(),
        ) =~= declaration_texts(Scope::Methods, self.spec_tree(), self.spec_source()));
        methods
    }
}

} // verus!
