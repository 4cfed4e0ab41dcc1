//! Lints and the messages that linters produce.

use vstd::prelude::*;

use crate::apml::lst::{ApmlLst, Token};
use crate::tree::{path_strip_prefix, strip_prefix_of};

verus! {

/// The severity of a lint.
#[derive(Debug, PartialEq, Eq, PartialOrd, Ord, Clone, Copy, Hash)]
pub enum Level {
    Note,
    Info,
    Warning,
    Error,
}

/// The rank of a level; levels are ordered `Note < Info < Warning < Error`.
pub open spec fn level_rank(l: Level) -> int {
    match l {
        Level::Note => 0,
        Level::Info => 1,
        Level::Warning => 2,
        Level::Error => 3,
    }
}

/// Compares the severity of two levels.
pub fn level_at_least(a: Level, b: Level) -> (res: bool)
    ensures
        res == (level_rank(a) >= level_rank(b)),
{
    let ra: u8 = match a {
        Level::Note => 0,
        Level::Info => 1,
        Level::Warning => 2,
        Level::Error => 3,
    };
    let rb: u8 = match b {
        Level::Note => 0,
        Level::Info => 1,
        Level::Warning => 2,
        Level::Error => 3,
    };
    ra >= rb
}

/// A lint: its identifier, level and description.
#[derive(Debug)]
pub struct LintMetadata {
    pub ident: &'static str,
    pub level: Level,
    pub desc: &'static str,
}

/// A lint message produced by linters.
#[derive(Debug)]
pub struct LintMessage {
    pub lint: &'static LintMetadata,
    pub message: String,
    pub notes: Vec<String>,
    pub snippets: Vec<Snippet>,
}

/// A snippet of code to annotate: a file, a line (from one) and the source
/// text of a token.
#[derive(Debug)]
pub struct Snippet {
    pub path: String,
    pub line: Option<usize>,
    pub source: Option<String>,
}

impl LintMessage {
    /// Creates a lint message with the lint's description as its message.
    pub fn new(lint: &'static LintMetadata) -> (res: LintMessage)
        ensures
            res.lint == lint,
            res.message@ == lint.desc@,
            res.notes@.len() == 0,
            res.snippets@.len() == 0,
    {
        LintMessage { lint, message: lint.desc.to_owned(), notes: Vec::new(), snippets: Vec::new() }
    }

    /// Sets a non-default message.
    pub fn message(self, message: String) -> (res: LintMessage)
        ensures
            res.lint == self.lint,
            res.message == message,
            res.notes == self.notes,
            res.snippets == self.snippets,
    {
        LintMessage { message, ..self }
    }

    /// Appends a note.
    pub fn note(self, note: String) -> (res: LintMessage)
        ensures
            res.lint == self.lint,
            res.message == self.message,
            res.notes@ == self.notes@.push(note),
            res.snippets == self.snippets,
    {
        let mut me = self;
        me.notes.push(note);
        me
    }

    /// Appends a snippet.
    pub fn snippet(self, snippet: Snippet) -> (res: LintMessage)
        ensures
            res.lint == self.lint,
            res.message == self.message,
            res.notes == self.notes,
            res.snippets@ == self.snippets@.push(snippet),
    {
        let mut me = self;
        me.snippets.push(snippet);
        me
    }
}

/// The number of newline tokens among `ts`.
pub open spec fn newlines(ts: Seq<Token>) -> nat
    decreases ts.len(),
{
    if ts.len() == 0 {
        0
    } else {
        newlines(ts.drop_last()) + if ts.last() is Newline {
            1nat
        } else {
            0nat
        }
    }
}

/// The path of a file shown relative to the tree when it lies in it.
pub open spec fn shown_path(tree: Seq<char>, file: Seq<char>) -> Seq<char> {
    match path_strip_prefix(file, tree) {
        Some(rel) => rel,
        None => file,
    }
}

impl Snippet {
    /// A snippet for the token at index `token` of a file's tree: its line
    /// is one more than the newlines before it.
    pub fn new(tree: &str, file: &str, lst: &ApmlLst, token: usize) -> (res: Snippet)
        requires
            token <= lst.0@.len(),
            token < usize::MAX,
        ensures
            res.path@ == shown_path(tree@, file@),
            res.line == Some((newlines(lst.0@.take(token as int)) + 1) as usize),
            res.source is None,
    {
        let path = match strip_prefix_of(file, tree) {
            Some(rel) => rel,
            None => file.to_owned(),
        };
        let mut count: usize = 0;
        let mut i: usize = 0;
        while i < token
            invariant
                i <= token <= lst.0@.len(),
                count == newlines(lst.0@.take(i as int)),
                count <= i,
            decreases token - i,
        {
            proof {
                assert(lst.0@.take(i + 1).drop_last() =~= lst.0@.take(i as int));
            }
            match &lst.0[i] {
                Token::Newline => {
                    count = count + 1;
                },
                _ => {},
            }
            i = i + 1;
        }
        Snippet { path, line: Some(count + 1), source: None }
    }
}

} // verus!
