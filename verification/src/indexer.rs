//! Symbol stores and the indexers that fill them.

use crate::syntax::{forest_view, SyntaxNode, SyntaxTree};
use crate::text::{opt_str_view, opt_view, strip_prefix, trim, trimmed, without_prefix};
use crate::tree::Indexer;
use vstd::prelude::*;
use vstd::string::StringExecFns;

verus! {

/// The verbatim source text of one declaration.
#[derive(Clone, Debug)]
pub struct IndexData {
    pub value: String,
}

/// A mapping from symbol keys to declaration texts.
///
/// `entries` is the mapping a store stands for; every operation is stated
/// over it. A store is only ever used while `inv` holds.
pub trait IndexStore {
    /// The mapping held by the store.
    spec fn entries(&self) -> Map<Seq<char>, Seq<char>>;

    /// The store's internal consistency condition.
    spec fn inv(&self) -> bool;

    /// Stores `value` under `key`, replacing whatever was stored there.
    fn set(&mut self, key: &str, value: IndexData)
        requires
            old(self).inv(),
        ensures
            final(self).inv(),
            final(self).entries() == old(self).entries().insert(key@, value.value@),
    ;

    /// The text stored under `key`, if there is one.
    fn get(&self, key: &str) -> (found: Option<String>)
        requires
            self.inv(),
        ensures
            match found {
                Some(text) => self.entries().contains_key(key@) && text@ == self.entries()[key@],
                None => !self.entries().contains_key(key@),
            },
    ;

    /// A copy of every key with its text, each key once.
    fn get_all(&self) -> (snapshot: Vec<(String, String)>)
        requires
            self.inv(),
        ensures
            distinct_keys(snapshot@),
            snapshot_map(snapshot@) == self.entries(),
    ;
}

/// No two pairs of `pairs` carry the same key.
pub open spec fn distinct_keys(pairs: Seq<(String, String)>) -> bool {
    forall|i: int, j: int|
        0 <= i < pairs.len() && 0 <= j < pairs.len() && i != j ==> pairs[i].0@ != pairs[j].0@
}

/// Some pair of `pairs` carries `key`.
pub open spec fn has_key(pairs: Seq<(String, String)>, key: Seq<char>) -> bool {
    exists|i: int| 0 <= i < pairs.len() && #[trigger] pairs[i].0@ == key
}

/// The position of a pair of `pairs` that carries `key`.
pub open spec fn position_of(pairs: Seq<(String, String)>, key: Seq<char>) -> int {
    choose|i: int| 0 <= i < pairs.len() && #[trigger] pairs[i].0@ == key
}

/// The mapping that a list of key and text pairs stands for.
pub open spec fn snapshot_map(pairs: Seq<(String, String)>) -> Map<Seq<char>, Seq<char>> {
    Map::new(
        |key: Seq<char>| has_key(pairs, key),
        |key: Seq<char>| pairs[position_of(pairs, key)].1@,
    )
}

/// A key with the text stored under it.
pub type Entry = (Seq<char>, Seq<char>);

/// How an indexer forms the key of a declaration.
#[derive(Clone, Copy, Debug, PartialEq, Eq, Structural)]
pub enum Strategy {
    /// The bare name of the declaration.
    Unqualified,
    /// The package, the enclosing type if there is one, and the name.
    Qualified,
}

/// What stands between the parts of a qualified key.
pub open spec fn separator() -> Seq<char> {
    "::"@
}

/// The qualified key of a declaration: `package::type::name` with an
/// enclosing type, `package::name` without.
pub open spec fn symbol_key(package: Seq<char>, enclosing: Option<Seq<char>>, name: Seq<char>) -> Seq<
    char,
> {
    match enclosing {
        Some(ty) => package + separator() + ty + separator() + name,
        None => package + separator() + name,
    }
}

/// The node is a declaration that the indexers record.
pub open spec fn is_declaration(t: SyntaxTree) -> bool {
    t.kind == "method_declaration"@
}

/// The node carries the name of the declaration it hangs in.
pub open spec fn bears_name(t: SyntaxTree) -> bool {
    t.kind == "field_identifier"@ || t.kind == "method_spec"@
}

/// The node is the receiver list of a method declaration.
pub open spec fn is_receiver(t: SyntaxTree) -> bool {
    t.kind == "parameter_list"@
}

/// The first of `trees` that carries a name.
pub open spec fn name_child(trees: Seq<SyntaxTree>) -> Option<SyntaxTree>
    decreases trees.len(),
{
    if trees.len() == 0 {
        None
    } else if bears_name(trees[0]) {
        Some(trees[0])
    } else {
        name_child(trees.drop_first())
    }
}

/// The first of `trees` that is a receiver list.
pub open spec fn receiver_child(trees: Seq<SyntaxTree>) -> Option<SyntaxTree>
    decreases trees.len(),
{
    if trees.len() == 0 {
        None
    } else if is_receiver(trees[0]) {
        Some(trees[0])
    } else {
        receiver_child(trees.drop_first())
    }
}

/// The first node of kind `kind` in `t`, in pre-order.
pub open spec fn first_of_kind(t: SyntaxTree, kind: Seq<char>) -> Option<SyntaxTree>
    decreases t,
{
    if t.kind == kind {
        Some(t)
    } else {
        first_of_kind_in(t.children, kind)
    }
}

/// The first node of kind `kind` in `trees`, tree by tree and in pre-order.
pub open spec fn first_of_kind_in(trees: Seq<SyntaxTree>, kind: Seq<char>) -> Option<SyntaxTree>
    decreases trees,
{
    if trees.len() == 0 {
        None
    } else {
        match first_of_kind(trees[0], kind) {
            Some(found) => Some(found),
            None => first_of_kind_in(trees.drop_first(), kind),
        }
    }
}

/// The name of a declaration: the text of its first child that carries one.
pub open spec fn declaration_name(t: SyntaxTree, source: Seq<u8>) -> Option<Seq<char>> {
    match name_child(t.children) {
        Some(child) => Some(child.text(source)),
        None => None,
    }
}

/// The type that encloses a declaration: the text of the first type
/// identifier inside the declaration's first receiver list.
pub open spec fn enclosing_type(t: SyntaxTree, source: Seq<u8>) -> Option<Seq<char>> {
    match receiver_child(t.children) {
        Some(receiver) => match first_of_kind(receiver, "type_identifier"@) {
            Some(ty) => Some(ty.text(source)),
            None => None,
        },
        None => None,
    }
}

/// The tree holds a node of kind `kind`.
pub open spec fn holds_kind(t: SyntaxTree, kind: Seq<char>) -> bool
    decreases t,
{
    t.kind == kind || exists|i: int|
        0 <= i < t.children.len() && holds_kind(#[trigger] t.children[i], kind)
}

/// The text of a package clause without the keyword `package` at its start.
pub open spec fn without_keyword(text: Seq<char>) -> Seq<char> {
    match without_prefix(text, "package"@) {
        Some(rest) => rest,
        None => text,
    }
}

/// The package that a package clause names: its text without the keyword
/// and without the white space around what is left.
pub open spec fn clause_package(text: Seq<char>) -> Seq<char> {
    trimmed(without_keyword(text))
}

/// The package of a tree: the one that its first package clause names,
/// first in pre-order. A tree without a package clause has none; no clause
/// but the first is looked at.
pub open spec fn package_name(t: SyntaxTree, source: Seq<u8>) -> Option<Seq<char>> {
    match first_of_kind(t, "package_clause"@) {
        Some(clause) => Some(clause_package(clause.text(source))),
        None => None,
    }
}

/// The package under which a tree is indexed: its package, or the empty
/// string when it has none.
pub open spec fn package_or_empty(t: SyntaxTree, source: Seq<u8>) -> Seq<char> {
    match package_name(t, source) {
        Some(name) => name,
        None => Seq::empty(),
    }
}

/// The key under which a node is stored, if it is stored at all: nodes that
/// are no declarations, and declarations without a name, are not.
pub open spec fn node_key(
    strategy: Strategy,
    package: Seq<char>,
    t: SyntaxTree,
    source: Seq<u8>,
) -> Option<Seq<char>> {
    if !is_declaration(t) {
        None
    } else {
        match declaration_name(t, source) {
            None => None,
            Some(name) => Some(
                match strategy {
                    Strategy::Unqualified => name,
                    Strategy::Qualified => symbol_key(package, enclosing_type(t, source), name),
                },
            ),
        }
    }
}

/// What the node itself adds to the store.
pub open spec fn own_entries(
    strategy: Strategy,
    package: Seq<char>,
    t: SyntaxTree,
    source: Seq<u8>,
) -> Seq<Entry> {
    match node_key(strategy, package, t, source) {
        Some(key) => seq![(key, t.text(source))],
        None => Seq::empty(),
    }
}

/// What a tree adds to the store, in the order of the writes: pre-order,
/// children in source order.
pub open spec fn tree_entries(
    strategy: Strategy,
    package: Seq<char>,
    t: SyntaxTree,
    source: Seq<u8>,
) -> Seq<Entry>
    decreases t,
{
    own_entries(strategy, package, t, source) + forest_entries(
        strategy,
        package,
        t.children,
        source,
    )
}

/// What a list of trees adds to the store, tree by tree.
pub open spec fn forest_entries(
    strategy: Strategy,
    package: Seq<char>,
    trees: Seq<SyntaxTree>,
    source: Seq<u8>,
) -> Seq<Entry>
    decreases trees,
{
    if trees.len() == 0 {
        Seq::empty()
    } else {
        forest_entries(strategy, package, trees.drop_last(), source) + tree_entries(
            strategy,
            package,
            trees.last(),
            source,
        )
    }
}

/// The mapping after the writes `writes`, made in order on `before`.
pub open spec fn written(before: Map<Seq<char>, Seq<char>>, writes: Seq<Entry>) -> Map<
    Seq<char>,
    Seq<char>,
>
    decreases writes.len(),
{
    if writes.len() == 0 {
        before
    } else {
        written(before, writes.drop_last()).insert(writes.last().0, writes.last().1)
    }
}

/// What indexing a whole tree makes of a store.
pub open spec fn indexed(
    strategy: Strategy,
    before: Map<Seq<char>, Seq<char>>,
    root: SyntaxTree,
    source: Seq<u8>,
) -> Map<Seq<char>, Seq<char>> {
    let package = match strategy {
        Strategy::Unqualified => Seq::empty(),
        Strategy::Qualified => package_or_empty(root, source),
    };
    written(before, tree_entries(strategy, package, root, source))
}

/// Writes made one after the other are the writes of the joined list.
pub proof fn lemma_written_concat(
    before: Map<Seq<char>, Seq<char>>,
    first: Seq<Entry>,
    second: Seq<Entry>,
)
    ensures
        written(before, first + second) == written(written(before, first), second),
    decreases second.len(),
{
    if second.len() == 0 {
        assert(first + second == first);
    } else {
        lemma_written_concat(before, first, second.drop_last());
        assert((first + second).drop_last() == first + second.drop_last());
        assert((first + second).last() == second.last());
    }
}

/// A single write is an insertion.
pub proof fn lemma_written_one(before: Map<Seq<char>, Seq<char>>, entry: Entry)
    ensures
        written(before, seq![entry]) == before.insert(entry.0, entry.1),
{
    let writes = seq![entry];
    assert(writes.drop_last() == Seq::<Entry>::empty());
    assert(written(before, writes.drop_last()) == before);
}

/// The text of the node's first child that carries a name.
pub fn find_declaration_name(node: &SyntaxNode, source: &[u8]) -> (name: Option<String>)
    requires
        node@.fits(source@),
    ensures
        opt_view(name) == declaration_name(node@, source@),
{
    proof {
        node.lemma_children();
        assert(node@.children.skip(0) == node@.children);
    }
    let mut i: usize = 0;
    while i < node.children.len()
        invariant
            i <= node.children.len(),
            node@.children == forest_view(node.children@),
            node@.fits(source@),
            name_child(node@.children) == name_child(node@.children.skip(i as int)),
        decreases node.children.len() - i,
    {
        let child = &node.children[i];
        assert(child@ == node@.children[i as int]);
        assert(child@.fits(source@));
        assert(node@.children.skip(i as int)[0] == child@);
        if child.is_kind("field_identifier") || child.is_kind("method_spec") {
            return Some(child.text(source));
        }
        assert(node@.children.skip(i as int).drop_first() == node@.children.skip(i + 1));
        i = i + 1;
    }
    None
}

/// The text of the first node of kind `kind` in the tree, in pre-order.
pub fn first_text_of_kind(node: &SyntaxNode, kind: &str, source: &[u8]) -> (text: Option<String>)
    requires
        node@.fits(source@),
    ensures
        opt_view(text) == match first_of_kind(node@, kind@) {
            Some(found) => Some(found.text(source@)),
            None => None,
        },
    decreases node,
{
    if node.is_kind(kind) {
        return Some(node.text(source));
    }
    assert(first_of_kind(node@, kind@) == first_of_kind_in(node@.children, kind@));
    proof {
        node.lemma_children();
        assert(node@.children.skip(0) == node@.children);
    }
    let mut i: usize = 0;
    while i < node.children.len()
        invariant
            i <= node.children.len(),
            node@.children == forest_view(node.children@),
            node@.fits(source@),
            first_of_kind(node@, kind@) == first_of_kind_in(node@.children, kind@),
            first_of_kind_in(node@.children, kind@) == first_of_kind_in(
                node@.children.skip(i as int),
                kind@,
            ),
        decreases node.children.len() - i,
    {
        let child = &node.children[i];
        assert(child@ == node@.children[i as int]);
        assert(child@.fits(source@));
        assert(node@.children.skip(i as int)[0] == child@);
        let ghost rest = node@.children.skip(i as int);
        assert(first_of_kind_in(rest, kind@) == match first_of_kind(rest[0], kind@) {
            Some(found) => Some(found),
            None => first_of_kind_in(rest.drop_first(), kind@),
        });
        let found = first_text_of_kind(child, kind, source);
        if found.is_some() {
            return found;
        }
        assert(node@.children.skip(i as int).drop_first() == node@.children.skip(i + 1));
        i = i + 1;
    }
    None
}

/// The type that encloses a declaration.
pub fn find_enclosing_type(node: &SyntaxNode, source: &[u8]) -> (ty: Option<String>)
    requires
        node@.fits(source@),
    ensures
        opt_view(ty) == enclosing_type(node@, source@),
{
    proof {
        node.lemma_children();
        assert(node@.children.skip(0) == node@.children);
    }
    let mut i: usize = 0;
    while i < node.children.len()
        invariant
            i <= node.children.len(),
            node@.children == forest_view(node.children@),
            node@.fits(source@),
            receiver_child(node@.children) == receiver_child(node@.children.skip(i as int)),
        decreases node.children.len() - i,
    {
        let child = &node.children[i];
        assert(child@ == node@.children[i as int]);
        assert(child@.fits(source@));
        assert(node@.children.skip(i as int)[0] == child@);
        if child.is_kind("parameter_list") {
            return first_text_of_kind(child, "type_identifier", source);
        }
        assert(node@.children.skip(i as int).drop_first() == node@.children.skip(i + 1));
        i = i + 1;
    }
    None
}

/// The package of a tree.
pub fn find_package_name(node: &SyntaxNode, source: &[u8]) -> (name: Option<String>)
    requires
        node@.fits(source@),
    ensures
        opt_view(name) == package_name(node@, source@),
{
    match first_text_of_kind(node, "package_clause", source) {
        Some(clause) => {
            let named = match strip_prefix(clause.as_str(), "package") {
                Some(rest) => rest,
                None => clause.as_str(),
            };
            Some(trim(named).to_owned())
        },
        None => None,
    }
}

/// The qualified key of a declaration.
pub fn build_symbol_key(package: &str, enclosing: Option<&str>, name: &str) -> (key: String)
    ensures
        key@ == symbol_key(package@, opt_str_view(enclosing), name@),
{
    let mut key = package.to_owned();
    key.append("::");
    match enclosing {
        Some(ty) => {
            key.append(ty);
            key.append("::");
        },
        None => {},
    }
    key.append(name);
    key
}

/// Walks the tree in pre-order and stores each named declaration under the
/// key that `strategy` gives it.
pub fn traverse_into<S: IndexStore>(
    strategy: Strategy,
    store: &mut S,
    key_prefix: &str,
    node: &SyntaxNode,
    source: &[u8],
)
    requires
        old(store).inv(),
        node@.fits(source@),
    ensures
        final(store).inv(),
        final(store).entries() == written(
            old(store).entries(),
            tree_entries(strategy, key_prefix@, node@, source@),
        ),
    decreases node,
{
    let ghost before = store.entries();
    let ghost own = own_entries(strategy, key_prefix@, node@, source@);
    if node.is_kind("method_declaration") {
        let text = node.text(source);
        match find_declaration_name(node, source) {
            Some(name) => {
                let key = match strategy {
                    Strategy::Unqualified => name,
                    Strategy::Qualified => {
                        let ty = find_enclosing_type(node, source);
                        match ty {
                            Some(t) => build_symbol_key(key_prefix, Some(t.as_str()), name.as_str()),
                            None => build_symbol_key(key_prefix, None, name.as_str()),
                        }
                    },
                };
                store.set(key.as_str(), IndexData { value: text });
                proof {
                    lemma_written_one(before, (key@, text@));
                }
            },
            None => {},
        }
    }
    assert(store.entries() == written(before, own));
    proof {
        node.lemma_children();
        assert(node@.children.take(0) == Seq::<SyntaxTree>::empty());
        assert(own + Seq::<Entry>::empty() == own);
    }
    let mut i: usize = 0;
    while i < node.children.len()
        invariant
            i <= node.children.len(),
            node@.children == forest_view(node.children@),
            node@.fits(source@),
            store.inv(),
            own == own_entries(strategy, key_prefix@, node@, source@),
            store.entries() == written(
                before,
                own + forest_entries(
                    strategy,
                    key_prefix@,
                    node@.children.take(i as int),
                    source@,
                ),
            ),
        decreases node.children.len() - i,
    {
        let child = &node.children[i];
        let ghost done = forest_entries(
            strategy,
            key_prefix@,
            node@.children.take(i as int),
            source@,
        );
        let ghost more = tree_entries(strategy, key_prefix@, child@, source@);
        assert(child@ == node@.children[i as int]);
        assert(child@.fits(source@));
        traverse_into(strategy, store, key_prefix, child, source);
        proof {
            let upto = node@.children.take(i + 1);
            assert(upto.drop_last() == node@.children.take(i as int));
            assert(upto.last() == child@);
            lemma_written_concat(before, own + done, more);
            assert((own + done) + more == own + (done + more));
        }
        i = i + 1;
    }
    assert(node@.children.take(node.children.len() as int) == node@.children);
}

/// The place of the last write to `key` in `writes`, if there is one.
pub open spec fn last_write(writes: Seq<Entry>, key: Seq<char>) -> Option<int>
    decreases writes.len(),
{
    if writes.len() == 0 {
        None
    } else if writes.last().0 == key {
        Some(writes.len() - 1)
    } else {
        last_write(writes.drop_last(), key)
    }
}

/// After a list of writes a key holds the text of the last write to it, and
/// what it held before when nothing was written to it.
pub proof fn lemma_written_lookup(
    before: Map<Seq<char>, Seq<char>>,
    writes: Seq<Entry>,
    key: Seq<char>,
)
    ensures
        match last_write(writes, key) {
            Some(i) => {
                &&& 0 <= i < writes.len()
                &&& writes[i].0 == key
                &&& forall|j: int| i < j < writes.len() ==> writes[j].0 != key
                &&& written(before, writes).contains_key(key)
                &&& written(before, writes)[key] == writes[i].1
            },
            None => {
                &&& forall|j: int| 0 <= j < writes.len() ==> writes[j].0 != key
                &&& written(before, writes).contains_key(key) == before.contains_key(key)
                &&& written(before, writes)[key] == before[key]
            },
        },
    decreases writes.len(),
{
    if writes.len() > 0 {
        lemma_written_lookup(before, writes.drop_last(), key);
        if writes.last().0 != key {
            match last_write(writes.drop_last(), key) {
                Some(i) => {
                    assert(writes.drop_last()[i] == writes[i]);
                    assert forall|j: int| i < j < writes.len() implies writes[j].0 != key by {
                        if j < writes.len() - 1 {
                            assert(writes.drop_last()[j] == writes[j]);
                        }
                    }
                },
                None => {
                    assert forall|j: int| 0 <= j < writes.len() implies writes[j].0 != key by {
                        if j < writes.len() - 1 {
                            assert(writes.drop_last()[j] == writes[j]);
                        }
                    }
                },
            }
        }
    }
}

/// The first node of a kind is of that kind, and there is one exactly when
/// the tree holds a node of that kind.
pub proof fn lemma_first_of_kind(t: SyntaxTree, kind: Seq<char>)
    ensures
        match first_of_kind(t, kind) {
            Some(found) => found.kind == kind && holds_kind(t, kind),
            None => !holds_kind(t, kind),
        },
    decreases t,
{
    if t.kind != kind {
        lemma_first_of_kind_in(t.children, kind);
    }
}

/// The same of a list of trees.
pub proof fn lemma_first_of_kind_in(trees: Seq<SyntaxTree>, kind: Seq<char>)
    ensures
        match first_of_kind_in(trees, kind) {
            Some(found) => found.kind == kind && exists|i: int|
                0 <= i < trees.len() && holds_kind(#[trigger] trees[i], kind),
            None => forall|i: int| 0 <= i < trees.len() ==> !holds_kind(#[trigger] trees[i], kind),
        },
    decreases trees,
{
    if trees.len() > 0 {
        lemma_first_of_kind(trees[0], kind);
        match first_of_kind(trees[0], kind) {
            Some(found) => {
                assert(holds_kind(trees[0], kind));
            },
            None => {
                let rest = trees.drop_first();
                lemma_first_of_kind_in(rest, kind);
                match first_of_kind_in(rest, kind) {
                    Some(found) => {
                        let i = choose|i: int|
                            0 <= i < rest.len() && holds_kind(#[trigger] rest[i], kind);
                        assert(rest[i] == trees[i + 1]);
                        assert(holds_kind(trees[i + 1], kind));
                    },
                    None => {
                        assert forall|i: int| 0 <= i < trees.len() implies !holds_kind(
                            #[trigger] trees[i],
                            kind,
                        ) by {
                            if i > 0 {
                                assert(rest[i - 1] == trees[i]);
                            }
                        }
                    },
                }
            },
        }
    }
}

/// A tree has no package exactly when it holds no package clause; when it
/// holds one, its package is the one that the first clause names.
pub proof fn lemma_package_of_first_clause(t: SyntaxTree, source: Seq<u8>)
    ensures
        package_name(t, source) is None <==> !holds_kind(t, "package_clause"@),
        first_of_kind(t, "package_clause"@) matches Some(clause) ==> clause.kind
            == "package_clause"@ && package_name(t, source) == Some(
            clause_package(clause.text(source)),
        ),
{
    lemma_first_of_kind(t, "package_clause"@);
}

/// A declaration with a name is stored, by the qualified strategy, under
/// `package::name` when it has no enclosing type and under
/// `package::type::name` when it has one; by the unqualified strategy under
/// its bare name. Either way the text stored is that of the whole node.
pub proof fn lemma_key_of_declaration(package: Seq<char>, t: SyntaxTree, source: Seq<u8>)
    requires
        is_declaration(t),
        declaration_name(t, source) is Some,
    ensures
        node_key(Strategy::Qualified, package, t, source) == Some(
            match enclosing_type(t, source) {
                Some(ty) => package + "::"@ + ty + "::"@ + declaration_name(t, source)->0,
                None => package + "::"@ + declaration_name(t, source)->0,
            },
        ),
        node_key(Strategy::Unqualified, package, t, source) == declaration_name(t, source),
        forall|strategy: Strategy| #[trigger]
            own_entries(strategy, package, t, source) == seq![
                (node_key(strategy, package, t, source)->0, t.text(source)),
            ],
{
}

/// A text written under a key is what the key holds for as long as no later
/// write goes to the same key.
pub proof fn lemma_text_kept_until_overwritten(
    before: Map<Seq<char>, Seq<char>>,
    key: Seq<char>,
    text: Seq<char>,
    later: Seq<Entry>,
)
    requires
        forall|i: int| 0 <= i < later.len() ==> later[i].0 != key,
    ensures
        written(before.insert(key, text), later).contains_key(key),
        written(before.insert(key, text), later)[key] == text,
{
    lemma_written_lookup(before.insert(key, text), later, key);
}

/// Of two writes to one key, the later one decides what the key holds,
/// unless a third comes after it.
pub proof fn lemma_later_write_wins(
    before: Map<Seq<char>, Seq<char>>,
    writes: Seq<Entry>,
    earlier: int,
    later: int,
)
    requires
        0 <= earlier < later < writes.len(),
        writes[earlier].0 == writes[later].0,
        forall|i: int| later < i < writes.len() ==> writes[i].0 != writes[later].0,
    ensures
        written(before, writes).contains_key(writes[later].0),
        written(before, writes)[writes[later].0] == writes[later].1,
{
    lemma_written_lookup(before, writes, writes[later].0);
}

/// Making the same writes a second time changes nothing.
pub proof fn lemma_written_twice(before: Map<Seq<char>, Seq<char>>, writes: Seq<Entry>)
    ensures
        written(written(before, writes), writes) == written(before, writes),
{
    let once = written(before, writes);
    let twice = written(once, writes);
    assert forall|key: Seq<char>| #[trigger]
        twice.dom().contains(key) == once.dom().contains(key) by {
        lemma_written_lookup(before, writes, key);
        lemma_written_lookup(once, writes, key);
    }
    assert forall|key: Seq<char>| #[trigger] once.dom().contains(key) implies twice[key]
        == once[key] by {
        lemma_written_lookup(before, writes, key);
        lemma_written_lookup(once, writes, key);
    }
    assert(twice =~= once);
}

/// Indexing a tree a second time leaves the store as the first time left
/// it, whatever it held before.
pub proof fn lemma_index_twice(
    strategy: Strategy,
    before: Map<Seq<char>, Seq<char>>,
    root: SyntaxTree,
    source: Seq<u8>,
)
    ensures
        indexed(strategy, indexed(strategy, before, root, source), root, source) == indexed(
            strategy,
            before,
            root,
            source,
        ),
{
    let package = match strategy {
        Strategy::Unqualified => Seq::empty(),
        Strategy::Qualified => package_or_empty(root, source),
    };
    lemma_written_twice(before, tree_entries(strategy, package, root, source));
}

/// The indexer that stores each declaration under its qualified key:
/// package, enclosing type if there is one, and name.
pub struct GoIndexer<S: IndexStore> {
    store: S,
}

impl<S: IndexStore> GoIndexer<S> {
    /// The store that the indexer writes to.
    pub closed spec fn bound(&self) -> S {
        self.store
    }

    /// An indexer that writes to `store`.
    pub fn new(store: S) -> (indexer: Self)
        ensures
            indexer.bound() == store,
    {
        GoIndexer { store }
    }

    /// The store that the indexer writes to.
    pub fn store(&self) -> (store: &S)
        ensures
            *store == self.bound(),
    {
        &self.store
    }

    /// Gives the store back.
    pub fn into_store(self) -> (store: S)
        ensures
            store == self.bound(),
    {
        self.store
    }

    /// The text that `node` covers.
    pub fn get_node_text(&self, node: &SyntaxNode, source: &[u8]) -> (text: String)
        requires
            node@.span_fits(source@),
        ensures
            text@ == node@.text(source@),
    {
        node.text(source)
    }

    /// The name of the declaration `node`.
    pub fn get_method_name(&self, node: &SyntaxNode, source: &[u8]) -> (name: Option<String>)
        requires
            node@.fits(source@),
        ensures
            opt_view(name) == declaration_name(node@, source@),
    {
        find_declaration_name(node, source)
    }

    /// The type that encloses the declaration `node`.
    pub fn get_struct_name(&self, node: &SyntaxNode, source: &[u8]) -> (ty: Option<String>)
        requires
            node@.fits(source@),
        ensures
            opt_view(ty) == enclosing_type(node@, source@),
    {
        find_enclosing_type(node, source)
    }

    /// The package of the tree `node`.
    pub fn get_package_name(&self, node: &SyntaxNode, source: &[u8]) -> (name: Option<String>)
        requires
            node@.fits(source@),
        ensures
            opt_view(name) == package_name(node@, source@),
    {
        find_package_name(node, source)
    }

    /// The key of a declaration: `package::type::name` with an enclosing
    /// type, `package::name` without.
    pub fn construct_key(&self, package_name: &str, struct_name: Option<&str>, method_name: &str) -> (key:
        String)
        ensures
            key@ == symbol_key(package_name@, opt_str_view(struct_name), method_name@),
    {
        build_symbol_key(package_name, struct_name, method_name)
    }

    /// Stores the declarations of the tree `node` under keys that begin with
    /// `key_prefix`.
    pub fn traverse(&mut self, key_prefix: &str, node: &SyntaxNode, source: &[u8])
        requires
            old(self).bound().inv(),
            node@.fits(source@),
        ensures
            final(self).bound().inv(),
            final(self).bound().entries() == written(
                old(self).bound().entries(),
                tree_entries(Strategy::Qualified, key_prefix@, node@, source@),
            ),
    {
        traverse_into(Strategy::Qualified, &mut self.store, key_prefix, node, source);
    }
}

impl<S: IndexStore> Indexer for GoIndexer<S> {
    open spec fn entries(&self) -> Map<Seq<char>, Seq<char>> {
        self.bound().entries()
    }

    open spec fn inv(&self) -> bool {
        self.bound().inv()
    }

    open spec fn effect(before: Map<Seq<char>, Seq<char>>, root: SyntaxTree, source: Seq<u8>) -> Map<
        Seq<char>,
        Seq<char>,
    > {
        indexed(Strategy::Qualified, before, root, source)
    }

    fn index(&mut self, root: &SyntaxNode, source: &[u8]) {
        let package = match find_package_name(root, source) {
            Some(name) => name,
            None => String::new(),
        };
        self.traverse(package.as_str(), root, source);
    }
}

/// The indexer that stores each declaration under its bare name.
pub struct MethodIndexer<S: IndexStore> {
    store: S,
}

impl<S: IndexStore> MethodIndexer<S> {
    /// The store that the indexer writes to.
    pub closed spec fn bound(&self) -> S {
        self.store
    }

    /// An indexer that writes to `store`.
    pub fn new(store: S) -> (indexer: Self)
        ensures
            indexer.bound() == store,
    {
        MethodIndexer { store }
    }

    /// The store that the indexer writes to.
    pub fn store(&self) -> (store: &S)
        ensures
            *store == self.bound(),
    {
        &self.store
    }

    /// Gives the store back.
    pub fn into_store(self) -> (store: S)
        ensures
            store == self.bound(),
    {
        self.store
    }
}

impl<S: IndexStore> Indexer for MethodIndexer<S> {
    open spec fn entries(&self) -> Map<Seq<char>, Seq<char>> {
        self.bound().entries()
    }

    open spec fn inv(&self) -> bool {
        self.bound().inv()
    }

    open spec fn effect(before: Map<Seq<char>, Seq<char>>, root: SyntaxTree, source: Seq<u8>) -> Map<
        Seq<char>,
        Seq<char>,
    > {
        indexed(Strategy::Unqualified, before, root, source)
    }

    fn index(&mut self, root: &SyntaxNode, source: &[u8]) {
        let prefix = String::new();
        traverse_into(Strategy::Unqualified, &mut self.store, prefix.as_str(), root, source);
    }
}

} // verus!
