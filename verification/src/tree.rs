//! Walking a project: its files are classified by language, and those in a
//! known language are parsed and handed to an indexer.

use crate::grammar::{go_syntax, new_go_parser, parse_with, speaks_go};
use crate::parser::Language;
use crate::syntax::{SyntaxNode, SyntaxTree};
use crate::text::{ends_with, opt_view};
use vstd::prelude::*;
use vstd::utf8::encode_utf8;

verus! {

/// Something that records the declarations of a syntax tree in a store.
pub trait Indexer {
    /// The mapping held by the store that the indexer writes to.
    spec fn entries(&self) -> Map<Seq<char>, Seq<char>>;

    /// The indexer's internal consistency condition.
    spec fn inv(&self) -> bool;

    /// What indexing the tree `root` of `source` makes of a store that holds
    /// `before`.
    spec fn effect(before: Map<Seq<char>, Seq<char>>, root: SyntaxTree, source: Seq<u8>) -> Map<
        Seq<char>,
        Seq<char>,
    >;

    /// Records the declarations of the tree `root` of `source`.
    fn index(&mut self, root: &SyntaxNode, source: &[u8])
        requires
            old(self).inv(),
            root@.fits(source@),
        ensures
            final(self).inv(),
            final(self).entries() == Self::effect(old(self).entries(), root@, source@),
    ;
}

/// A file of the project with the language it is written in.
#[derive(Debug)]
pub struct FileData {
    pub file: String,
    pub language: Language,
}

/// Why a file stopped the walk.
#[derive(Clone, Copy, Debug, PartialEq, Eq, Structural)]
pub enum WalkFailure {
    /// The file's text could not be had.
    Unreadable,
    /// No parser could be had for the file's language.
    GrammarRefused,
    /// The parser gave no tree for the file.
    NoTree,
    /// The tree has a node that does not cover valid text of the file.
    Malformed,
}

/// The file that stopped the walk, by its place in the project, and why.
#[derive(Clone, Copy, Debug, PartialEq, Eq, Structural)]
pub struct WalkError {
    pub file: usize,
    pub cause: WalkFailure,
}

/// The language of a file, told by its name: Go for a name that ends in
/// `.go`, unknown for every other.
pub open spec fn language_of(path: Seq<char>) -> Language {
    if ".go"@.is_suffix_of(path) {
        Language::Go
    } else {
        Language::Unknown
    }
}

/// The language of a file, told by its name.
pub fn get_language(file: &str) -> (language: Language)
    ensures
        language == language_of(file@),
{
    if ends_with(file, ".go") {
        Language::Go
    } else {
        Language::Unknown
    }
}

/// The files of `files` are those named by `paths`, in order, each with the
/// language of its name.
pub open spec fn classified(files: Seq<FileData>, paths: Seq<String>) -> bool {
    &&& files.len() == paths.len()
    &&& forall|i: int|
        0 <= i < files.len() ==> (#[trigger] files[i]).file@ == paths[i]@ && files[i].language
            == language_of(paths[i]@)
}

/// Each of the project's files, as named by `paths`, with its language.
pub fn get_files_and_language(paths: &Vec<String>) -> (files: Vec<FileData>)
    ensures
        classified(files@, paths@),
{
    let mut files: Vec<FileData> = Vec::new();
    let mut i: usize = 0;
    while i < paths.len()
        invariant
            i <= paths.len(),
            classified(files@, paths@.take(i as int)),
        decreases paths.len() - i,
    {
        let file = paths[i].clone();
        let language = get_language(file.as_str());
        files.push(FileData { file, language });
        i = i + 1;
    }
    assert(paths@.take(paths.len() as int) == paths@);
    files
}

/// The text of the file at place `i`, if the caller could read it.
pub open spec fn content_at(contents: Seq<Option<String>>, i: int) -> Option<Seq<char>> {
    if 0 <= i < contents.len() {
        opt_view(contents[i])
    } else {
        None
    }
}

/// What one file does to the walk: a file in an unknown language is passed
/// over; a Go file is parsed and indexed, and stops the walk when its text
/// could not be read, when it has no tree, or when its tree does not fit it.
pub open spec fn file_step<I: Indexer>(
    before: Map<Seq<char>, Seq<char>>,
    language: Language,
    content: Option<Seq<char>>,
) -> (Map<Seq<char>, Seq<char>>, Option<WalkFailure>) {
    match language {
        Language::Unknown => (before, None),
        Language::Go => match content {
            None => (before, Some(WalkFailure::Unreadable)),
            Some(text) => match go_syntax(text) {
                None => (before, Some(WalkFailure::NoTree)),
                Some(tree) => if tree.fits(encode_utf8(text)) {
                    (I::effect(before, tree, encode_utf8(text)), None)
                } else {
                    (before, Some(WalkFailure::Malformed))
                },
            },
        },
    }
}

/// The walk over the first `n` files: what the store holds after it, and
/// the file that stopped it, if one did. Files are taken in order, and
/// nothing is done after the file that stopped the walk.
pub open spec fn walked<I: Indexer>(
    before: Map<Seq<char>, Seq<char>>,
    files: Seq<FileData>,
    contents: Seq<Option<String>>,
    n: nat,
) -> (Map<Seq<char>, Seq<char>>, Option<WalkError>)
    decreases n,
{
    if n == 0 {
        (before, None)
    } else {
        let earlier = walked::<I>(before, files, contents, (n - 1) as nat);
        match earlier.1 {
            Some(error) => earlier,
            None => {
                let step = file_step::<I>(
                    earlier.0,
                    files[n - 1].language,
                    content_at(contents, n - 1),
                );
                match step.1 {
                    Some(cause) => (step.0, Some(WalkError { file: (n - 1) as usize, cause })),
                    None => (step.0, None),
                }
            },
        }
    }
}

/// No file before place `n` is a Go file.
pub open spec fn no_go_before(files: Seq<FileData>, n: int) -> bool {
    forall|i: int| 0 <= i < n && i < files.len() ==> (#[trigger] files[i]).language != Language::Go
}

/// Once a file has stopped the walk, later files change nothing.
pub proof fn lemma_walk_stops<I: Indexer>(
    before: Map<Seq<char>, Seq<char>>,
    files: Seq<FileData>,
    contents: Seq<Option<String>>,
    n: nat,
    m: nat,
)
    requires
        n <= m,
        walked::<I>(before, files, contents, n).1 is Some,
    ensures
        walked::<I>(before, files, contents, m) == walked::<I>(before, files, contents, n),
    decreases m,
{
    if n < m {
        lemma_walk_stops::<I>(before, files, contents, n, (m - 1) as nat);
    }
}

/// A walk over files none of which is a Go file changes nothing and is not
/// stopped.
pub proof fn lemma_walk_without_go<I: Indexer>(
    before: Map<Seq<char>, Seq<char>>,
    files: Seq<FileData>,
    contents: Seq<Option<String>>,
    n: nat,
)
    requires
        n <= files.len(),
        no_go_before(files, n as int),
    ensures
        walked::<I>(before, files, contents, n) == (before, None::<WalkError>),
    decreases n,
{
    if n > 0 {
        lemma_walk_without_go::<I>(before, files, contents, (n - 1) as nat);
        assert(files[n - 1].language != Language::Go);
    }
}

/// A walk with a parser at hand is never stopped for want of one, and the
/// file that stops it is one of the files walked over.
pub proof fn lemma_walk_failure<I: Indexer>(
    before: Map<Seq<char>, Seq<char>>,
    files: Seq<FileData>,
    contents: Seq<Option<String>>,
    n: nat,
)
    requires
        n <= files.len() <= usize::MAX,
    ensures
        walked::<I>(before, files, contents, n).1 matches Some(error) ==> {
            &&& error.cause != WalkFailure::GrammarRefused
            &&& error.file < n
            &&& files[error.file as int].language == Language::Go
        },
    decreases n,
{
    if n > 0 {
        lemma_walk_failure::<I>(before, files, contents, (n - 1) as nat);
    }
}

/// The file is in an unknown language, or its text was read, has a tree,
/// and the tree fits the text.
pub open spec fn can_be_indexed(file: FileData, content: Option<Seq<char>>) -> bool {
    file.language == Language::Go ==> (content matches Some(text) && (go_syntax(text) matches Some(
        tree,
    ) && tree.fits(encode_utf8(text))))
}

/// A walk over files each of which can be indexed is not stopped.
pub proof fn lemma_walk_succeeds<I: Indexer>(
    before: Map<Seq<char>, Seq<char>>,
    files: Seq<FileData>,
    contents: Seq<Option<String>>,
    n: nat,
)
    requires
        n <= files.len(),
        forall|i: int| 0 <= i < n ==> can_be_indexed(#[trigger] files[i], content_at(contents, i)),
    ensures
        walked::<I>(before, files, contents, n).1 is None,
    decreases n,
{
    if n > 0 {
        lemma_walk_succeeds::<I>(before, files, contents, (n - 1) as nat);
        assert(can_be_indexed(files[n - 1], content_at(contents, n - 1)));
    }
}

/// The file that stops a walk is the first that cannot be indexed: the
/// walk over the files before it was not stopped, and what it gave is what
/// the store holds.
pub proof fn lemma_walk_keeps_earlier<I: Indexer>(
    before: Map<Seq<char>, Seq<char>>,
    files: Seq<FileData>,
    contents: Seq<Option<String>>,
    n: nat,
)
    requires
        n <= files.len() <= usize::MAX,
    ensures
        walked::<I>(before, files, contents, n).1 matches Some(error) ==> {
            &&& error.file < n
            &&& !can_be_indexed(files[error.file as int], content_at(contents, error.file as int))
            &&& walked::<I>(before, files, contents, error.file as nat) == (
                walked::<I>(before, files, contents, n).0,
                None::<WalkError>,
            )
        },
    decreases n,
{
    if n > 0 {
        lemma_walk_keeps_earlier::<I>(before, files, contents, (n - 1) as nat);
    }
}

/// The files of a project and the indexer that records their declarations.
pub struct CodeWalker<I: Indexer> {
    files: Vec<FileData>,
    indexer: I,
}

impl<I: Indexer> CodeWalker<I> {
    /// The files of the project.
    pub closed spec fn spec_files(&self) -> Seq<FileData> {
        self.files@
    }

    /// The indexer that the walker hands trees to.
    pub closed spec fn spec_indexer(&self) -> I {
        self.indexer
    }

    /// A walker over the files named by `paths`, in that order.
    pub fn new_project(paths: &Vec<String>, indexer: I) -> (walker: Self)
        ensures
            classified(walker.spec_files(), paths@),
            walker.spec_indexer() == indexer,
    {
        let files = get_files_and_language(paths);
        CodeWalker { files, indexer }
    }

    /// The files of the project.
    pub fn files(&self) -> (files: &Vec<FileData>)
        ensures
            files@ == self.spec_files(),
    {
        &self.files
    }

    /// The indexer that the walker hands trees to.
    pub fn indexer(&self) -> (indexer: &I)
        ensures
            *indexer == self.spec_indexer(),
    {
        &self.indexer
    }

    /// Gives the indexer back.
    pub fn into_indexer(self) -> (indexer: I)
        ensures
            indexer == self.spec_indexer(),
    {
        self.indexer
    }

    /// The place of the first Go file of the project, if it has one.
    pub fn first_go_file(&self) -> (first: Option<usize>)
        ensures
            match first {
                Some(i) => {
                    &&& i < self.spec_files().len()
                    &&& self.spec_files()[i as int].language == Language::Go
                    &&& no_go_before(self.spec_files(), i as int)
                },
                None => no_go_before(self.spec_files(), self.spec_files().len() as int),
            },
    {
        let mut i: usize = 0;
        while i < self.files.len()
            invariant
                i <= self.files.len(),
                no_go_before(self.files@, i as int),
            decreases self.files.len() - i,
        {
            match self.files[i].language {
                Language::Go => {
                    return Some(i);
                },
                Language::Unknown => {},
            }
            i = i + 1;
        }
        None
    }

    /// Parses with `parser` and indexes the project's files in order.
    /// `contents` holds the text of each file at the file's place; a file
    /// whose text is missing there counts as unreadable.
    ///
    /// A file in an unknown language is passed over. Each Go file is parsed
    /// and handed to the indexer, once and in order, until one of them
    /// stops the walk: what the files before it gave stays in the store,
    /// and no file behind it is looked at.
    pub fn index_files(
        &mut self,
        parser: &mut tree_sitter::Parser,
        contents: &Vec<Option<String>>,
    ) -> (done: Result<(), WalkError>)
        requires
            old(self).spec_indexer().inv(),
            speaks_go(*old(parser)),
        ensures
            final(self).spec_indexer().inv(),
            speaks_go(*final(parser)),
            final(self).spec_files() == old(self).spec_files(),
            ({
                let outcome = walked::<I>(
                    old(self).spec_indexer().entries(),
                    old(self).spec_files(),
                    contents@,
                    old(self).spec_files().len(),
                );
                &&& final(self).spec_indexer().entries() == outcome.0
                &&& done == match outcome.1 {
                    None => Ok::<(), WalkError>(()),
                    Some(error) => Err::<(), WalkError>(error),
                }
            }),
    {
        let ghost before = self.indexer.entries();
        let ghost files = self.files@;
        let mut i: usize = 0;
        while i < self.files.len()
            invariant
                i <= self.files.len(),
                self.files@ == files,
                files == old(self).files@,
                before == old(self).indexer.entries(),
                self.indexer.inv(),
                speaks_go(*parser),
                walked::<I>(before, files, contents@, i as nat) == (self.indexer.entries(), None::<
                    WalkError,
                >),
            decreases self.files.len() - i,
        {
            match self.files[i].language {
                Language::Unknown => {},
                Language::Go => {
                    let content = if i < contents.len() {
                        contents[i].as_ref()
                    } else {
                        None
                    };
                    let text = match content {
                        Some(text) => text,
                        None => {
                            proof {
                                lemma_walk_stops::<I>(
                                    before,
                                    files,
                                    contents@,
                                    (i + 1) as nat,
                                    files.len(),
                                );
                            }
                            return Err(WalkError { file: i, cause: WalkFailure::Unreadable });
                        },
                    };
                    let tree = match parse_with(parser, text.as_str()) {
                        Some(tree) => tree,
                        None => {
                            proof {
                                lemma_walk_stops::<I>(
                                    before,
                                    files,
                                    contents@,
                                    (i + 1) as nat,
                                    files.len(),
                                );
                            }
                            return Err(WalkError { file: i, cause: WalkFailure::NoTree });
                        },
                    };
                    let bytes = text.as_str().as_bytes();
                    if !tree.fits(bytes) {
                        proof {
                            lemma_walk_stops::<I>(
                                before,
                                files,
                                contents@,
                                (i + 1) as nat,
                                files.len(),
                            );
                        }
                        return Err(WalkError { file: i, cause: WalkFailure::Malformed });
                    }
                    self.indexer.index(&tree, bytes);
                },
            }
            i = i + 1;
        }
        Ok(())
    }

    /// Parses and indexes the project's files in order, as `index_files`
    /// does, with a parser of its own.
    ///
    /// The parser is made once, when the project has a Go file, and used
    /// for all of them. Whether it can be made is for tree-sitter to say:
    /// when it cannot, the walk stops at the first Go file with nothing
    /// indexed.
    pub fn index_project(&mut self, contents: &Vec<Option<String>>) -> (done: Result<(), WalkError>)
        requires
            old(self).spec_indexer().inv(),
        ensures
            final(self).spec_indexer().inv(),
            final(self).spec_files() == old(self).spec_files(),
            ({
                let outcome = walked::<I>(
                    old(self).spec_indexer().entries(),
                    old(self).spec_files(),
                    contents@,
                    old(self).spec_files().len(),
                );
                match done {
                    Ok(()) => outcome.1 is None && final(self).spec_indexer().entries()
                        == outcome.0,
                    Err(error) => if error.cause == WalkFailure::GrammarRefused {
                        &&& error.file < old(self).spec_files().len()
                        &&& old(self).spec_files()[error.file as int].language == Language::Go
                        &&& no_go_before(old(self).spec_files(), error.file as int)
                        &&& final(self).spec_indexer().entries() == old(
                            self,
                        ).spec_indexer().entries()
                    } else {
                        &&& outcome.1 == Some(error)
                        &&& final(self).spec_indexer().entries() == outcome.0
                    },
                }
            }),
    {
        match self.first_go_file() {
            None => {
                proof {
                    lemma_walk_without_go::<I>(
                        self.indexer.entries(),
                        self.files@,
                        contents@,
                        self.files@.len(),
                    );
                }
                Ok(())
            },
            Some(first) => match new_go_parser() {
                None => Err(WalkError { file: first, cause: WalkFailure::GrammarRefused }),
                Some(parser) => {
                    let mut parser = parser;
                    proof {
                        assert(self.files@.len() == self.files.len());
                        lemma_walk_failure::<I>(
                            self.indexer.entries(),
                            self.files@,
                            contents@,
                            self.files@.len(),
                        );
                    }
                    self.index_files(&mut parser, contents)
                },
            },
        }
    }
}

} // verus!
