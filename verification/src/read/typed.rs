//! Reading a leaf of a given type.
use vstd::prelude::*;
use crate::error::{Error, ErrorKind, Fault};
use crate::read::{query_result, TomlValueReadExt};
use crate::util::{name_of_val, kind_name};
use crate::value::{Node, Value};

verus! {

/// Why a read for a node of the type named `expected` gives nothing, when
/// `found` is what stands at the path of `query`: the fault of the walk,
/// or that nothing stands there, or that the node has another type.
pub open spec fn miss(found: Result<Option<Node>, Fault>, query: Seq<char>, expected: Seq<char>) -> Fault {
    match found {
        Err(e) => e,
        Ok(None) => Fault::NotAvailable(query),
        Ok(Some(node)) => Fault::TypeError(expected, kind_name(node)),
    }
}

/// Reading a leaf of a given type by a path whose segments `.` separates.
pub trait TomlValueReadTypeExt<'doc>: TomlValueReadExt<'doc> {
    /// The text at the path `query`.
    fn read_string(&'doc self, query: &str) -> (r: Result<String, Error>)
        ensures
            match query_result(self.document(), query@, '.') {
                Ok(Some(Node::Text(s))) => r is Ok && r->Ok_0@ == s,
                other => r is Err && r->Err_0@ == miss(other, query@, "String"@),
            },
    ;

    /// The integer at the path `query`.
    fn read_int(&'doc self, query: &str) -> (r: Result<i64, Error>)
        ensures
            match query_result(self.document(), query@, '.') {
                Ok(Some(Node::Integer(i))) => r is Ok && r->Ok_0 == i,
                other => r is Err && r->Err_0@ == miss(other, query@, "Integer"@),
            },
    ;

    /// The floating-point number at the path `query`, as the bit pattern
    /// of its binary64 form.
    fn read_float(&'doc self, query: &str) -> (r: Result<u64, Error>)
        ensures
            match query_result(self.document(), query@, '.') {
                Ok(Some(Node::Float(bits))) => r is Ok && r->Ok_0 == bits,
                other => r is Err && r->Err_0@ == miss(other, query@, "Float"@),
            },
    ;

    /// The truth value at the path `query`.
    fn read_bool(&'doc self, query: &str) -> (r: Result<bool, Error>)
        ensures
            match query_result(self.document(), query@, '.') {
                Ok(Some(Node::Boolean(b))) => r is Ok && r->Ok_0 == b,
                other => r is Err && r->Err_0@ == miss(other, query@, "Boolean"@),
            },
    ;
}

impl<'doc, T> TomlValueReadTypeExt<'doc> for T where T: TomlValueReadExt<'doc> {
    fn read_string(&'doc self, query: &str) -> (r: Result<String, Error>) {
        match self.read_with_seperator(query, '.') {
            Err(e) => Err(e),
            Ok(None) => Err(Error::from_kind(ErrorKind::NotAvailable(query.to_owned()))),
            Ok(Some(Value::String(s))) => Ok(s.clone()),
            Ok(Some(other)) => Err(
                Error::from_kind(ErrorKind::TypeError("String", name_of_val(other))),
            ),
        }
    }

    fn read_int(&'doc self, query: &str) -> (r: Result<i64, Error>) {
        match self.read_with_seperator(query, '.') {
            Err(e) => Err(e),
            Ok(None) => Err(Error::from_kind(ErrorKind::NotAvailable(query.to_owned()))),
            Ok(Some(Value::Integer(i))) => Ok(*i),
            Ok(Some(other)) => Err(
                Error::from_kind(ErrorKind::TypeError("Integer", name_of_val(other))),
            ),
        }
    }

    fn read_float(&'doc self, query: &str) -> (r: Result<u64, Error>) {
        match self.read_with_seperator(query, '.') {
            Err(e) => Err(e),
            Ok(None) => Err(Error::from_kind(ErrorKind::NotAvailable(query.to_owned()))),
            Ok(Some(Value::Float(bits))) => Ok(*bits),
            Ok(Some(other)) => Err(
                Error::from_kind(ErrorKind::TypeError("Float", name_of_val(other))),
            ),
        }
    }

    fn read_bool(&'doc self, query: &str) -> (r: Result<bool, Error>) {
        match self.read_with_seperator(query, '.') {
            Err(e) => Err(e),
            Ok(None) => Err(Error::from_kind(ErrorKind::NotAvailable(query.to_owned()))),
            Ok(Some(Value::Boolean(b))) => Ok(*b),
            Ok(Some(other)) => Err(
                Error::from_kind(ErrorKind::TypeError("Boolean", name_of_val(other))),
            ),
        }
    }
}

} // verus!
