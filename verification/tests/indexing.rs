use analyzer::grammar::{new_go_parser, parse_go, parse_with};
use analyzer::indexer::{
    build_symbol_key, find_declaration_name, find_enclosing_type, find_package_name,
    first_text_of_kind, GoIndexer, IndexData, IndexStore, MethodIndexer,
};
use analyzer::memory::InMemoryIndexStore;
use analyzer::syntax::SyntaxNode;
use analyzer::tree::Indexer;

fn sorted(mut pairs: Vec<(String, String)>) -> Vec<(String, String)> {
    pairs.sort();
    pairs
}

fn pair(key: &str, text: &str) -> (String, String) {
    (key.to_string(), text.to_string())
}

fn index_qualified(source: &str) -> Vec<(String, String)> {
    let tree = parse_go(source).expect("the Go grammar parses this");
    assert!(tree.fits(source.as_bytes()));
    let mut indexer = GoIndexer::new(InMemoryIndexStore::new());
    indexer.index(&tree, source.as_bytes());
    sorted(indexer.store().get_all())
}

fn index_unqualified(source: &str) -> Vec<(String, String)> {
    let tree = parse_go(source).expect("the Go grammar parses this");
    assert!(tree.fits(source.as_bytes()));
    let mut indexer = MethodIndexer::new(InMemoryIndexStore::new());
    indexer.index(&tree, source.as_bytes());
    sorted(indexer.store().get_all())
}

/// A method declaration `func (<receiver>) <name>() {}` built by hand over
/// `source`, with the spans given by the places of its parts.
fn method_node(source: &str, start: usize, receiver: Option<(&str, &str)>, name: &str) -> SyntaxNode {
    let end = source[start..].find("{}").map(|i| start + i + 2).unwrap();
    let mut children = Vec::new();
    if let Some((list, ty)) = receiver {
        let list_start = start + source[start..].find(list).unwrap();
        let ty_start = list_start + list.rfind(ty).unwrap();
        let ty_node = SyntaxNode::new("type_identifier", ty_start, ty_start + ty.len(), vec![]);
        let declaration =
            SyntaxNode::new("parameter_declaration", list_start + 1, list_start + list.len() - 1, vec![ty_node]);
        children.push(SyntaxNode::new(
            "parameter_list",
            list_start,
            list_start + list.len(),
            vec![declaration],
        ));
    }
    let name_start = start + source[start..].find(name).unwrap();
    children.push(SyntaxNode::new("field_identifier", name_start, name_start + name.len(), vec![]));
    SyntaxNode::new("method_declaration", start, end, children)
}

#[test]
fn qualified_index_of_one_method() {
    let all = index_qualified("package demo\nfunc (t T) Hi() {}\n");
    assert_eq!(all, vec![pair("demo::T::Hi", "func (t T) Hi() {}")]);
}

#[test]
fn unqualified_index_of_one_method() {
    let all = index_unqualified("package demo\nfunc (t T) Hi() {}\n");
    assert_eq!(all, vec![pair("Hi", "func (t T) Hi() {}")]);
}

#[test]
fn pointer_receiver_gives_the_type_name() {
    let all = index_qualified("package demo\n\nfunc (s *Server) Run(n int) error { return nil }\n");
    assert_eq!(all, vec![pair("demo::Server::Run", "func (s *Server) Run(n int) error { return nil }")]);
}

#[test]
fn several_methods_are_all_stored() {
    let source = "package shapes\n\ntype Circle struct{}\n\nfunc (c Circle) Area() float64 { return 0 }\n\nfunc (c Circle) Name() string { return \"circle\" }\n\nfunc Free() {}\n";
    let all = index_qualified(source);
    assert_eq!(
        all,
        vec![
            pair("shapes::Circle::Area", "func (c Circle) Area() float64 { return 0 }"),
            pair("shapes::Circle::Name", "func (c Circle) Name() string { return \"circle\" }"),
        ]
    );
}

#[test]
fn functions_without_receiver_are_not_indexed() {
    assert!(index_qualified("package demo\nfunc Free() {}\n").is_empty());
    assert!(index_unqualified("package demo\nfunc Free() {}\n").is_empty());
}

#[test]
fn later_declaration_overwrites_earlier_one() {
    let source = "package demo\nfunc (t T) Hi() { first() }\nfunc (t T) Hi() { second() }\n";
    assert_eq!(index_qualified(source), vec![pair("demo::T::Hi", "func (t T) Hi() { second() }")]);
    assert_eq!(index_unqualified(source), vec![pair("Hi", "func (t T) Hi() { second() }")]);
}

#[test]
fn unqualified_keys_collide_across_types() {
    let source = "package demo\nfunc (a A) Run() {}\nfunc (b B) Run() {}\n";
    assert_eq!(index_unqualified(source), vec![pair("Run", "func (b B) Run() {}")]);
    assert_eq!(
        index_qualified(source),
        vec![pair("demo::A::Run", "func (a A) Run() {}"), pair("demo::B::Run", "func (b B) Run() {}")]
    );
}

#[test]
fn indexing_twice_changes_nothing() {
    let source = "package demo\nfunc (t T) Hi() {}\nfunc (t T) Ho() {}\n";
    let tree = parse_go(source).unwrap();
    let mut indexer = GoIndexer::new(InMemoryIndexStore::new());
    indexer.index(&tree, source.as_bytes());
    let once = indexer.store().get_all();
    indexer.index(&tree, source.as_bytes());
    let twice = indexer.store().get_all();
    assert_eq!(once, twice);
    let mut fresh = GoIndexer::new(InMemoryIndexStore::new());
    fresh.index(&tree, source.as_bytes());
    assert_eq!(sorted(fresh.into_store().get_all()), sorted(once));
}

#[test]
fn hand_built_tree_without_package_uses_empty_package() {
    let source = "func (t T) Hi() {}";
    let method = method_node(source, 0, Some(("(t T)", "T")), "Hi");
    let root = SyntaxNode::new("source_file", 0, source.len(), vec![method]);
    assert!(root.fits(source.as_bytes()));
    let mut indexer = GoIndexer::new(InMemoryIndexStore::new());
    indexer.index(&root, source.as_bytes());
    assert_eq!(indexer.store().get_all(), vec![pair("::T::Hi", "func (t T) Hi() {}")]);
}

#[test]
fn declaration_without_enclosing_type_gets_package_and_name() {
    let source = "package demo\nfunc Hi() {}";
    let clause = SyntaxNode::new("package_clause", 0, 12, vec![]);
    let method = method_node(source, 13, None, "Hi");
    let root = SyntaxNode::new("source_file", 0, source.len(), vec![clause, method]);
    let mut qualified = GoIndexer::new(InMemoryIndexStore::new());
    qualified.index(&root, source.as_bytes());
    assert_eq!(qualified.store().get_all(), vec![pair("demo::Hi", "func Hi() {}")]);
    let mut bare = MethodIndexer::new(InMemoryIndexStore::new());
    bare.index(&root, source.as_bytes());
    assert_eq!(bare.store().get_all(), vec![pair("Hi", "func Hi() {}")]);
}

#[test]
fn declaration_without_name_is_skipped() {
    let source = "func (t T) {}";
    let list = SyntaxNode::new("parameter_list", 5, 10, vec![]);
    let method = SyntaxNode::new("method_declaration", 0, source.len(), vec![list]);
    let root = SyntaxNode::new("source_file", 0, source.len(), vec![method]);
    let mut indexer = GoIndexer::new(InMemoryIndexStore::new());
    indexer.index(&root, source.as_bytes());
    assert!(indexer.store().get_all().is_empty());
}

#[test]
fn nested_declarations_are_stored_after_their_parent() {
    let source = "func (a A) Out() { func (b B) In() {} }";
    let inner_start = source.find("func (b").unwrap();
    let inner = method_node(source, inner_start, Some(("(b B)", "B")), "In");
    let mut outer = method_node(source, 0, Some(("(a A)", "A")), "Out");
    outer.end_byte = source.len();
    outer.children.push(inner);
    let root = SyntaxNode::new("source_file", 0, source.len(), vec![outer]);
    assert!(root.fits(source.as_bytes()));
    let mut indexer = MethodIndexer::new(InMemoryIndexStore::new());
    indexer.index(&root, source.as_bytes());
    assert_eq!(
        indexer.store().get_all(),
        vec![pair("Out", source), pair("In", "func (b B) In() {}")]
    );
}

#[test]
fn method_spec_child_names_the_declaration() {
    let source = "func Named() {}";
    let spec = SyntaxNode::new("method_spec", 5, 10, vec![]);
    let method = SyntaxNode::new("method_declaration", 0, source.len(), vec![spec]);
    assert_eq!(find_declaration_name(&method, source.as_bytes()), Some("Named".to_string()));
    assert_eq!(find_enclosing_type(&method, source.as_bytes()), None);
}

#[test]
fn first_name_bearing_child_wins() {
    let source = "ab cd";
    let other = SyntaxNode::new("identifier", 0, 2, vec![]);
    let first = SyntaxNode::new("field_identifier", 0, 2, vec![]);
    let second = SyntaxNode::new("method_spec", 3, 5, vec![]);
    let method = SyntaxNode::new("method_declaration", 0, 5, vec![other, first, second]);
    assert_eq!(find_declaration_name(&method, source.as_bytes()), Some("ab".to_string()));
}

#[test]
fn first_type_identifier_is_found_in_pre_order() {
    let source = "abcdef";
    let deep = SyntaxNode::new("type_identifier", 1, 2, vec![]);
    let wrapper = SyntaxNode::new("pointer_type", 0, 2, vec![deep]);
    let later = SyntaxNode::new("type_identifier", 3, 5, vec![]);
    let list = SyntaxNode::new("parameter_list", 0, 6, vec![wrapper, later]);
    assert_eq!(first_text_of_kind(&list, "type_identifier", source.as_bytes()), Some("b".to_string()));
    assert_eq!(first_text_of_kind(&list, "parameter_list", source.as_bytes()), Some("abcdef".to_string()));
    assert_eq!(first_text_of_kind(&list, "missing", source.as_bytes()), None);
}

#[test]
fn package_name_is_trimmed() {
    let source = "package   demo  \n";
    let clause = SyntaxNode::new("package_clause", 0, source.len(), vec![]);
    let root = SyntaxNode::new("source_file", 0, source.len(), vec![clause]);
    assert_eq!(find_package_name(&root, source.as_bytes()), Some("demo".to_string()));
}

#[test]
fn package_clause_is_read_without_its_keyword() {
    for (source, name) in [
        ("package demo", "demo"),
        ("package\tdemo", "demo"),
        ("package\n\n  demo \t", "demo"),
        ("package", ""),
        ("pkg demo ", "pkg demo"),
        ("\u{a0}package demo", "package demo"),
    ] {
        let clause = SyntaxNode::new("package_clause", 0, source.len(), vec![]);
        assert_eq!(find_package_name(&clause, source.as_bytes()), Some(name.to_string()));
    }
}

#[test]
fn tree_without_package_clause_has_no_package() {
    let source = "package demo";
    let other = SyntaxNode::new("comment", 0, source.len(), vec![]);
    let root = SyntaxNode::new("source_file", 0, source.len(), vec![other]);
    assert_eq!(find_package_name(&root, source.as_bytes()), None);
    assert_eq!(find_package_name(&SyntaxNode::new("source_file", 0, 0, vec![]), b""), None);
}

#[test]
fn first_package_clause_decides_alone() {
    let source = "pkg\tone package two";
    let nested = SyntaxNode::new("package_clause", 4, 7, vec![]);
    let first = SyntaxNode::new("package_clause", 0, 7, vec![nested]);
    let second = SyntaxNode::new("package_clause", 8, 19, vec![]);
    let wrapper = SyntaxNode::new("block", 0, 7, vec![first]);
    let root = SyntaxNode::new("source_file", 0, source.len(), vec![wrapper, second]);
    assert_eq!(find_package_name(&root, source.as_bytes()), Some("pkg\tone".to_string()));
    let mut indexer = GoIndexer::new(InMemoryIndexStore::new());
    indexer.index(&root, source.as_bytes());
    assert!(indexer.store().get_all().is_empty());
}

#[test]
fn package_keyword_followed_by_tab_or_line_break() {
    assert_eq!(
        index_qualified("package\tdemo\nfunc (t T) Hi() {}\n"),
        vec![pair("demo::T::Hi", "func (t T) Hi() {}")]
    );
    assert_eq!(
        index_qualified("package\n\tdemo\n\nfunc (t T) Hi() {}\n"),
        vec![pair("demo::T::Hi", "func (t T) Hi() {}")]
    );
    assert_eq!(
        index_qualified("// note\npackage   demo\r\nfunc (t T) Hi() {}\n"),
        vec![pair("demo::T::Hi", "func (t T) Hi() {}")]
    );
}

#[test]
fn package_name_from_real_tree() {
    let source = "package main\n\nimport \"fmt\"\n";
    let tree = parse_go(source).unwrap();
    assert_eq!(find_package_name(&tree, source.as_bytes()), Some("main".to_string()));
    let indexer = GoIndexer::new(InMemoryIndexStore::new());
    assert_eq!(indexer.get_package_name(&tree, source.as_bytes()), Some("main".to_string()));
}

#[test]
fn construct_key_with_and_without_type() {
    let indexer = GoIndexer::new(InMemoryIndexStore::new());
    assert_eq!(indexer.construct_key("pkg", Some("T"), "M"), "pkg::T::M");
    assert_eq!(indexer.construct_key("pkg", None, "M"), "pkg::M");
    assert_eq!(indexer.construct_key("", None, "M"), "::M");
    assert_eq!(build_symbol_key("a", Some(""), "b"), "a::::b");
}

#[test]
fn go_indexer_helpers_read_a_method() {
    let source = "package demo\nfunc (t *T) Hi() {}\n";
    let tree = parse_go(source).unwrap();
    let method = tree.children.iter().find(|c| c.kind == "method_declaration").unwrap();
    let indexer = GoIndexer::new(InMemoryIndexStore::new());
    assert_eq!(indexer.get_node_text(method, source.as_bytes()), "func (t *T) Hi() {}");
    assert_eq!(indexer.get_method_name(method, source.as_bytes()), Some("Hi".to_string()));
    assert_eq!(indexer.get_struct_name(method, source.as_bytes()), Some("T".to_string()));
}

#[test]
fn traverse_uses_the_given_prefix() {
    let source = "package demo\nfunc (t T) Hi() {}\n";
    let tree = parse_go(source).unwrap();
    let mut indexer = GoIndexer::new(InMemoryIndexStore::new());
    indexer.traverse("other", &tree, source.as_bytes());
    assert_eq!(indexer.store().get_all(), vec![pair("other::T::Hi", "func (t T) Hi() {}")]);
}

#[test]
fn store_returns_what_was_set() {
    let mut store = InMemoryIndexStore::new();
    assert_eq!(store.get("k"), None);
    store.set("k", IndexData { value: "first".to_string() });
    store.set("other", IndexData { value: "x".to_string() });
    assert_eq!(store.get("k"), Some("first".to_string()));
    store.set("k", IndexData { value: "second".to_string() });
    assert_eq!(store.get("k"), Some("second".to_string()));
    assert_eq!(store.get("other"), Some("x".to_string()));
    assert_eq!(store.get("missing"), None);
    assert_eq!(store.get_all(), vec![pair("k", "second"), pair("other", "x")]);
}

#[test]
fn store_keeps_text_byte_for_byte() {
    let mut store = InMemoryIndexStore::new();
    let text = "func (t T) Hi() {\n\t// caf\u{e9} \u{1F600}\r\n}";
    store.set("demo::T::Hi", IndexData { value: text.to_string() });
    assert_eq!(store.get("demo::T::Hi").unwrap().as_bytes(), text.as_bytes());
}

#[test]
fn snapshot_is_not_a_live_view() {
    let mut store = InMemoryIndexStore::new();
    store.set("a", IndexData { value: "1".to_string() });
    let snapshot = store.get_all();
    store.set("b", IndexData { value: "2".to_string() });
    store.set("a", IndexData { value: "3".to_string() });
    assert_eq!(snapshot, vec![pair("a", "1")]);
    assert_eq!(store.get_all(), vec![pair("a", "3"), pair("b", "2")]);
}

#[test]
fn empty_store_has_empty_snapshot() {
    assert!(InMemoryIndexStore::new().get_all().is_empty());
}

#[test]
fn node_text_of_multibyte_source() {
    let source = "// caf\u{e9}\nfunc (t T) Hi() {}";
    let tree = parse_go(source).unwrap();
    assert!(tree.fits(source.as_bytes()));
    assert_eq!(tree.text(source.as_bytes()), source);
    let comment = &tree.children[0];
    assert_eq!(comment.lookup_text(source.as_bytes()), Some("// caf\u{e9}".to_string()));
}

#[test]
fn node_that_splits_a_character_does_not_fit() {
    let source = "caf\u{e9}";
    let node = SyntaxNode::new("x", 0, 4, vec![]);
    assert_eq!(node.lookup_text(source.as_bytes()), None);
    assert!(!node.fits(source.as_bytes()));
    let whole = SyntaxNode::new("x", 0, 5, vec![node]);
    assert_eq!(whole.lookup_text(source.as_bytes()), Some(source.to_string()));
    assert!(!whole.fits(source.as_bytes()));
}

#[test]
fn node_outside_the_source_does_not_fit() {
    let source = "abc";
    assert_eq!(SyntaxNode::new("x", 2, 4, vec![]).lookup_text(source.as_bytes()), None);
    assert_eq!(SyntaxNode::new("x", 2, 1, vec![]).lookup_text(source.as_bytes()), None);
    assert_eq!(SyntaxNode::new("x", 3, 3, vec![]).lookup_text(source.as_bytes()), Some(String::new()));
    assert!(!SyntaxNode::new("x", 0, 4, vec![]).fits(source.as_bytes()));
}

#[test]
fn node_kind_and_field_builders() {
    let node = SyntaxNode::new("struct_type", 1, 2, vec![]).with_field("type");
    assert!(node.is_kind("struct_type"));
    assert!(!node.is_kind("struct"));
    assert_eq!(node.field, Some("type".to_string()));
    assert_eq!((node.start_byte, node.end_byte), (1, 2));
}

#[test]
fn parsed_tree_has_kinds_spans_and_fields() {
    let source = "package demo\nfunc (t T) Hi() {}\n";
    let tree = parse_go(source).unwrap();
    assert_eq!(tree.kind, "source_file");
    assert_eq!(tree.field, None);
    assert_eq!((tree.start_byte, tree.end_byte), (0, source.len()));
    let kinds: Vec<&str> = tree.children.iter().map(|c| c.kind.as_str()).collect();
    assert_eq!(kinds, vec!["package_clause", "\n", "method_declaration", "\n"]);
    let method = &tree.children[2];
    assert_eq!((method.start_byte, method.end_byte), (13, 31));
    let fields: Vec<Option<&str>> = method.children.iter().map(|c| c.field.as_deref()).collect();
    assert_eq!(fields, vec![None, Some("receiver"), Some("name"), Some("parameters"), Some("body")]);
}

#[test]
fn one_parser_parses_several_sources() {
    let mut parser = new_go_parser().expect("the Go grammar loads");
    let first = parse_with(&mut parser, "package a\n").unwrap();
    let second = parse_with(&mut parser, "package b\nfunc (t T) Hi() {}\n").unwrap();
    assert_eq!(first.children[0].kind, "package_clause");
    assert_eq!(second.children[2].kind, "method_declaration");
    assert!(first.children.len() < second.children.len());
    let again = parse_with(&mut parser, "package a\n").unwrap();
    assert_eq!(format!("{:?}", first), format!("{:?}", again));
}

#[test]
fn cloned_store_goes_its_own_way() {
    let mut store = InMemoryIndexStore::new();
    store.set("a", IndexData { value: "1".to_string() });
    store.set("b", IndexData { value: "2".to_string() });
    let mut copy = store.clone();
    assert_eq!(copy.get_all(), store.get_all());
    copy.set("a", IndexData { value: "changed".to_string() });
    copy.set("c", IndexData { value: "3".to_string() });
    assert_eq!(store.get("a"), Some("1".to_string()));
    assert_eq!(store.get("c"), None);
    assert_eq!(copy.get("a"), Some("changed".to_string()));
    assert_eq!(copy.get("b"), Some("2".to_string()));
    assert_eq!(copy.get("c"), Some("3".to_string()));
}
