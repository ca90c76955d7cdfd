use vstd::prelude::*;

use crate::error::{RegistryError, SemantitError};
use crate::model::FileSemanticIndex;
use crate::parser::{LanguageParser, ParseInput};
use crate::error::ParseError;

verus! {

/// Whether the parser at position `i` is the first one that takes `path`.
pub open spec fn first_accepting<P: LanguageParser>(parsers: Seq<P>, path: Seq<char>, i: int) -> bool {
    &&& 0 <= i < parsers.len()
    &&& parsers[i].accepts(path)
    &&& forall|j: int| 0 <= j < i ==> !(#[trigger] parsers[j]).accepts(path)
}

/// Whether no parser takes `path`.
pub open spec fn none_accepting<P: LanguageParser>(parsers: Seq<P>, path: Seq<char>) -> bool {
    forall|j: int| 0 <= j < parsers.len() ==> !(#[trigger] parsers[j]).accepts(path)
}

/// What the registry makes of what a parser returned: the index, or its error as a parse error.
pub open spec fn registry_result(r: Result<FileSemanticIndex, ParseError>) -> Result<FileSemanticIndex, SemantitError> {
    match r {
        Ok(index) => Ok(index),
        Err(e) => Err(SemantitError::Parse(e)),
    }
}

/// The parsers that the library can use, in the order they were registered.
pub struct ParserRegistry<P: LanguageParser> {
    parsers: Vec<P>,
}

impl<P: LanguageParser> ParserRegistry<P> {
    pub closed spec fn parsers(&self) -> Seq<P> {
        self.parsers@
    }

    /// A registry without parsers.
    pub fn new() -> (r: ParserRegistry<P>)
        ensures
            r.parsers() == Seq::<P>::empty(),
    {
        ParserRegistry { parsers: Vec::new() }
    }

    /// Adds `parser` after those registered before it.
    pub fn register(&mut self, parser: P)
        ensures
            final(self).parsers() == old(self).parsers().push(parser),
    {
        self.parsers.push(parser);
    }

    /// The position of the first parser that takes `path`, or none when no parser does.
    pub fn position_for_path(&self, path: &str) -> (r: Option<usize>)
        ensures
            r matches Some(i) ==> first_accepting(self.parsers(), path@, i as int),
            r is None <==> none_accepting(self.parsers(), path@),
    {
        let n = self.parsers.len();
        let mut i: usize = 0;
        while i < n
            invariant
                n == self.parsers@.len(),
                0 <= i <= n,
                forall|j: int| 0 <= j < i ==> !(#[trigger] self.parsers@[j]).accepts(path@),
            decreases n - i,
        {
            if self.parsers[i].supports_path(path) {
                return Some(i);
            }
            i = i + 1;
        }
        None
    }

    /// The first parser that takes `path`; the error names the path, and comes exactly when no
    /// parser takes it.
    pub fn parser_for_path(&self, path: &str) -> (r: Result<&P, SemantitError>)
        ensures
            r is Err <==> none_accepting(self.parsers(), path@),
            r matches Ok(p) ==> exists|i: int|
                first_accepting(self.parsers(), path@, i) && *p == self.parsers()[i],
            r matches Err(e) ==> e matches SemantitError::Registry(
                RegistryError::NoParserForPath { path: p },
            ) && p@ == path@,
    {
        match self.position_for_path(path) {
            Some(i) => Ok(&self.parsers[i]),
            None => Err(SemantitError::Registry(RegistryError::NoParserForPath { path: path.to_owned() })),
        }
    }

    /// Parses `input` with the first parser that takes its path: its index, or its error as a
    /// parse error; a registry error, naming the path, exactly when no parser takes it.
    pub fn parse(&self, input: ParseInput<'_>) -> (r: Result<FileSemanticIndex, SemantitError>)
        ensures
            r matches Err(SemantitError::Registry(_)) <==> none_accepting(self.parsers(), input.path@),
            r matches Err(SemantitError::Registry(RegistryError::NoParserForPath { path })) ==> path@
                == input.path@,
            !none_accepting(self.parsers(), input.path@) ==> exists|i: int, x: Result<FileSemanticIndex, ParseError>|
                first_accepting(self.parsers(), input.path@, i) && call_ensures(
                    P::parse,
                    (&self.parsers()[i], input),
                    x,
                ) && r == registry_result(x),
    {
        let parser = match self.parser_for_path(input.path) {
            Ok(p) => p,
            Err(e) => return Err(e),
        };
        let x = parser.parse(input);
        match x {
            Ok(index) => Ok(index),
            Err(e) => Err(SemantitError::Parse(e)),
        }
    }
}

impl<P: LanguageParser> Default for ParserRegistry<P> {
    fn default() -> (r: ParserRegistry<P>)
        ensures
            r.parsers() == Seq::<P>::empty(),
    {
        ParserRegistry::new()
    }
}

} // verus!
