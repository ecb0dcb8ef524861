//! Reading a document by a path given as text.
use vstd::prelude::*;
use crate::error::{Error, Fault};
use crate::resolver::non_mut_resolver::seen;
use crate::resolver::{lookup, replaced};
use crate::tokenizer::{parse, tokenize_with_seperator};
use crate::value::{Node, Value};

pub mod typed;

verus! {

/// What stands in `doc` at the path that `query` writes with the separator
/// `sep`: the fault of the query where it has one, else what a walk along
/// its path finds.
pub open spec fn query_result(doc: Node, query: Seq<char>, sep: char) -> Result<
    Option<Node>,
    Fault,
> {
    match parse(query, sep) {
        Ok(path) => lookup(doc, path, false),
        Err(e) => Err(e),
    }
}

/// The empty query leads to the document itself, whatever the separator.
pub proof fn lemma_empty_query(doc: Node, sep: char)
    ensures
        query_result(doc, Seq::empty(), sep) == Ok::<Option<Node>, Fault>(Some(doc)),
{
}

/// A part of a configuration that has its fixed place in a document. The
/// place of a type is what its `location` attribute gives
/// (see [`crate::partial::location_of`]).
pub trait Partial<'a> {
    /// The path of the place, with `.` between the segments.
    const LOCATION: &'static str;

    /// What the part is read as.
    type Output: Sized;
}

/// Reading and resolving by a path given as text.
pub trait TomlValueReadExt<'doc> {
    /// The document that is read.
    spec fn document(&self) -> Node;

    /// Finds the node at the path `query`, whose segments `sep` separates.
    fn read_with_seperator(&'doc self, query: &str, sep: char) -> (r: Result<
        Option<&'doc Value>,
        Error,
    >)
        ensures
            seen(r) == query_result(self.document(), query@, sep),
    ;

    /// Finds the slot at the path `query`, whose segments `sep` separates.
    /// Nothing is created. What the caller leaves in the slot takes the
    /// place of what stood at the path.
    fn read_mut_with_seperator(&'doc mut self, query: &str, sep: char) -> (r: Result<
        Option<&'doc mut Value>,
        Error,
    >)
        ensures
            match r {
                Ok(Some(slot)) => {
                    &&& query_result(old(self).document(), query@, sep) == Ok::<
                        Option<Node>,
                        Fault,
                    >(Some(slot@))
                    &&& final(self).document() == replaced(
                        old(self).document(),
                        parse(query@, sep)->Ok_0,
                        final(slot)@,
                    )
                },
                Ok(None) => {
                    &&& query_result(old(self).document(), query@, sep) == Ok::<
                        Option<Node>,
                        Fault,
                    >(None)
                    &&& final(self).document() == old(self).document()
                },
                Err(e) => {
                    &&& query_result(old(self).document(), query@, sep) == Err::<
                        Option<Node>,
                        Fault,
                    >(e@)
                    &&& final(self).document() == old(self).document()
                },
            },
    ;

    /// Finds the node at the path `query`, whose segments `.` separates.
    fn read(&'doc self, query: &str) -> (r: Result<Option<&'doc Value>, Error>)
        ensures
            seen(r) == query_result(self.document(), query@, '.'),
    {
        self.read_with_seperator(query, '.')
    }

    /// Finds the slot at the path `query`, whose segments `.` separates.
    fn read_mut(&'doc mut self, query: &str) -> (r: Result<Option<&'doc mut Value>, Error>)
        ensures
            match r {
                Ok(Some(slot)) => {
                    &&& query_result(old(self).document(), query@, '.') == Ok::<
                        Option<Node>,
                        Fault,
                    >(Some(slot@))
                    &&& final(self).document() == replaced(
                        old(self).document(),
                        parse(query@, '.')->Ok_0,
                        final(slot)@,
                    )
                },
                Ok(None) => {
                    &&& query_result(old(self).document(), query@, '.') == Ok::<
                        Option<Node>,
                        Fault,
                    >(None)
                    &&& final(self).document() == old(self).document()
                },
                Err(e) => {
                    &&& query_result(old(self).document(), query@, '.') == Err::<
                        Option<Node>,
                        Fault,
                    >(e@)
                    &&& final(self).document() == old(self).document()
                },
            },
    {
        self.read_mut_with_seperator(query, '.')
    }
}

impl<'doc> TomlValueReadExt<'doc> for Value {
    open spec fn document(&self) -> Node {
        self@
    }

    fn read_with_seperator(&'doc self, query: &str, sep: char) -> (r: Result<
        Option<&'doc Value>,
        Error,
    >) {
        match tokenize_with_seperator(query, sep) {
            Ok(tokens) => crate::resolver::non_mut_resolver::resolve(self, &tokens, false),
            Err(e) => Err(e),
        }
    }

    fn read_mut_with_seperator(&'doc mut self, query: &str, sep: char) -> (r: Result<
        Option<&'doc mut Value>,
        Error,
    >) {
        match tokenize_with_seperator(query, sep) {
            Ok(tokens) => crate::resolver::mut_resolver::resolve(self, &tokens, false),
            Err(e) => Err(e),
        }
    }
}

} // verus!
