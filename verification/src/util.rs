//! Names for the types of nodes.
use vstd::prelude::*;
use crate::value::{Node, Value};

verus! {

/// The name of the type of a node.
pub open spec fn kind_name(node: Node) -> Seq<char> {
    match node {
        Node::Text(_) => "String"@,
        Node::Integer(_) => "Integer"@,
        Node::Float(_) => "Float"@,
        Node::Boolean(_) => "Boolean"@,
        Node::Datetime(_) => "Datetime"@,
        Node::Array(_) => "Array"@,
        Node::Table(_) => "Table"@,
    }
}

/// The name of the type of `val`.
pub fn name_of_val(val: &Value) -> (name: &'static str)
    ensures
        name@ == kind_name(val@),
{
    match val {
        Value::String(_) => "String",
        Value::Integer(_) => "Integer",
        Value::Float(_) => "Float",
        Value::Boolean(_) => "Boolean",
        Value::Datetime(_) => "Datetime",
        Value::Array(_) => "Array",
        Value::Table(_) => "Table",
    }
}

} // verus!
