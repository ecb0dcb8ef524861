//! Queries: a path, and what to do with the node found there.
use vstd::prelude::*;
use crate::error::{Error, ErrorKind, Fault};
use crate::read::{query_result, TomlValueReadExt};
use crate::resolver::replaced;
use crate::tokenizer::parse;
use crate::value::{Node, Value};

verus! {

/// A query that can be executed on a document.
pub trait Query {
    /// What executing the query gives.
    type Output: Sized;

    /// The path of the query. A query says which it is by defining this.
    open spec fn path(&self) -> Seq<char> {
        arbitrary()
    }

    /// Whether `r` may be the result of executing the query on a node that
    /// stands for `before` and is left standing for `after`. A query that
    /// does not say so may leave anything and give anything.
    open spec fn executes(
        &self,
        before: Node,
        after: Node,
        r: Result<Self::Output, Error>,
    ) -> bool {
        true
    }

    /// Executes the query on the node that its path leads to.
    fn execute(&self, target: &mut Value) -> (r: Result<Self::Output, Error>)
        ensures
            self.executes(old(target)@, final(target)@, r),
    ;

    /// The path of the query, as text with `.` between the segments.
    fn query_path(&self) -> (p: &str)
        ensures
            p@ == self.path(),
    ;
}

/// Whether `r` and `after` may come of executing `q` on the node that stands
/// in `before` at the path of `q`.
///
/// Where the path has a fault, that is the error; where nothing stands at
/// the path, the error says so. The document is then left as it was. Else
/// the result is that of `q`, and the document has at the path what `q` left
/// there.
pub open spec fn answers<Q: Query>(
    q: &Q,
    before: Node,
    after: Node,
    r: Result<Q::Output, Error>,
) -> bool {
    match query_result(before, q.path(), '.') {
        Err(e) => after == before && r is Err && r->Err_0@ == e,
        Ok(None) => after == before && r is Err && r->Err_0@ == Fault::NotAvailable(q.path()),
        Ok(Some(found)) => exists|left: Node|
            {
                &&& #[trigger] q.executes(found, left, r)
                &&& after == replaced(before, parse(q.path(), '.')->Ok_0, left)
            },
    }
}

/// Whether `r` and `after` may come of executing `q` on the node that stands
/// in `before` at the path of `q`, and then `next` on the node that stands,
/// below that node, at the path of `next`.
///
/// Where the path of `q` has a fault or leads to nothing, that is the error
/// and the document is left as it was. Else `q` is executed and what it
/// gives is dropped, an error too; the node that `q` left is then queried
/// with `next` as [`answers`] says, and that is the result.
pub open spec fn answers_in_turn<Q: Query, N: Query<Output = Q::Output>>(
    q: &Q,
    next: &N,
    before: Node,
    after: Node,
    r: Result<Q::Output, Error>,
) -> bool {
    match query_result(before, q.path(), '.') {
        Err(e) => after == before && r is Err && r->Err_0@ == e,
        Ok(None) => after == before && r is Err && r->Err_0@ == Fault::NotAvailable(q.path()),
        Ok(Some(found)) => exists|between: Node, dropped: Result<Q::Output, Error>, left: Node|
            {
                &&& #[trigger] q.executes(found, between, dropped)
                &&& #[trigger] answers(next, between, left, r)
                &&& after == replaced(before, parse(q.path(), '.')->Ok_0, left)
            },
    }
}

/// What can be queried.
pub trait Queryable<'doc>: TomlValueReadExt<'doc> {
    /// Executes `q` on the node that its path leads to.
    fn execute_query<Q: Query>(&'doc mut self, q: &Q) -> (r: Result<Q::Output, Error>)
        ensures
            answers(q, old(self).document(), final(self).document(), r),
    ;

    /// Executes `q` on the node that its path leads to, drops what it gives,
    /// and executes `next` on the node that the path of `next` leads to
    /// from there.
    fn execute_query_then<Q: Query, N: Query<Output = Q::Output>>(
        &'doc mut self,
        q: &Q,
        next: &N,
    ) -> (r: Result<Q::Output, Error>)
        ensures
            answers_in_turn(q, next, old(self).document(), final(self).document(), r),
    ;
}

impl<'doc> Queryable<'doc> for Value {
    fn execute_query<Q: Query>(&'doc mut self, q: &Q) -> (r: Result<Q::Output, Error>) {
        match self.read_mut(q.query_path()) {
            Err(e) => Err(e),
            Ok(None) => Err(Error::from_kind(ErrorKind::NotAvailable(q.query_path().to_owned()))),
            Ok(Some(target)) => q.execute(target),
        }
    }

    fn execute_query_then<Q: Query, N: Query<Output = Q::Output>>(
        &'doc mut self,
        q: &Q,
        next: &N,
    ) -> (r: Result<Q::Output, Error>) {
        match self.read_mut(q.query_path()) {
            Err(e) => Err(e),
            Ok(None) => Err(Error::from_kind(ErrorKind::NotAvailable(q.query_path().to_owned()))),
            Ok(Some(target)) => {
                let _ = q.execute(target);
                target.execute_query(next)
            },
        }
    }
}

/// The query that copies the node at its path.
pub struct ReadQuery<'a> {
    path: &'a str,
}

impl<'a> ReadQuery<'a> {
    /// The query that copies the node at `path`.
    pub fn new(path: &'a str) -> (q: ReadQuery<'a>)
        ensures
            q.path() == path@,
    {
        ReadQuery { path: path }
    }
}

impl<'a> Query for ReadQuery<'a> {
    type Output = Value;

    closed spec fn path(&self) -> Seq<char> {
        self.path@
    }

    /// The result is a copy of the node, which is left as it was.
    open spec fn executes(&self, before: Node, after: Node, r: Result<Value, Error>) -> bool {
        &&& after == before
        &&& r is Ok
        &&& r->Ok_0@ == before
    }

    fn execute(&self, target: &mut Value) -> (r: Result<Value, Error>) {
        Ok(target.clone())
    }

    fn query_path(&self) -> (p: &str) {
        self.path
    }
}

} // verus!
