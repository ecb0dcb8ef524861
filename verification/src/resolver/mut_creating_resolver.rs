//! The resolver that creates the tables that are missing on the way.
use vstd::prelude::*;
use crate::error::{Error, ErrorKind, Fault};
use crate::resolver::{grown, lookup, replaced};
use crate::tokenizer::{parse, path_of, tokenize_with_seperator, Accessor, Token};
use crate::value::{lemma_array_update, lemma_array_view, Node, Table, Value};

verus! {

/// Storing twice under one key keeps the second value.
proof fn lemma_insert_twice(m: Map<Seq<char>, Node>, k: Seq<char>, first: Node)
    ensures
        forall|second: Node| #[trigger]
            m.insert(k, second) == m.insert(k, first).insert(k, second),
{
    assert forall|second: Node| #[trigger]
        m.insert(k, second) == m.insert(k, first).insert(k, second) by {
        assert(m.insert(k, second) =~= m.insert(k, first).insert(k, second));
    }
}

/// Storing twice at one position keeps the second value.
proof fn lemma_update_twice(a: Seq<Node>, i: int, first: Node)
    requires
        0 <= i < a.len(),
    ensures
        forall|second: Node| #[trigger]
            a.update(i, second) == a.update(i, first).update(i, second),
{
    assert forall|second: Node| #[trigger]
        a.update(i, second) == a.update(i, first).update(i, second) by {
        assert(a.update(i, second) =~= a.update(i, first).update(i, second));
    }
}

/// Finds the slot of `toml` that `tokens` lead to, and creates what is
/// missing on the way.
///
/// Where a table lacks a key of the path, an empty table is stored under it
/// first; what was created stays, also where the walk fails further on.
/// Arrays never grow: an index past the end is an error, and so is a path
/// that does not fit the document's shape. A leaf is never overwritten.
///
/// The slot holds what stands at the path in the grown document, and what
/// the caller leaves in it takes that place; everything else stays.
pub fn resolve<'doc>(toml: &'doc mut Value, tokens: &Vec<Token>) -> (r: Result<
    &'doc mut Value,
    Error,
>)
    ensures
        match r {
            Ok(slot) => {
                &&& lookup(grown(old(toml)@, path_of(tokens@)), path_of(tokens@), true) == Ok::<
                    Option<Node>,
                    Fault,
                >(Some(slot@))
                &&& final(toml)@ == replaced(
                    grown(old(toml)@, path_of(tokens@)),
                    path_of(tokens@),
                    final(slot)@,
                )
            },
            Err(e) => {
                &&& lookup(grown(old(toml)@, path_of(tokens@)), path_of(tokens@), true) == Err::<
                    Option<Node>,
                    Fault,
                >(e@)
                &&& final(toml)@ == grown(old(toml)@, path_of(tokens@))
            },
        },
{
    proof {
        assert(path_of(tokens@).skip(0) =~= path_of(tokens@));
    }
    resolve_from(toml, tokens, 0)
}

/// Finds the slot of `toml` that the tokens from position `pos` on lead to,
/// and creates what is missing on the way.
fn resolve_from<'doc>(toml: &'doc mut Value, tokens: &Vec<Token>, pos: usize) -> (r: Result<
    &'doc mut Value,
    Error,
>)
    requires
        pos <= tokens@.len(),
    ensures
        match r {
            Ok(slot) => {
                &&& lookup(
                    grown(old(toml)@, path_of(tokens@).skip(pos as int)),
                    path_of(tokens@).skip(pos as int),
                    true,
                ) == Ok::<Option<Node>, Fault>(Some(slot@))
                &&& final(toml)@ == replaced(
                    grown(old(toml)@, path_of(tokens@).skip(pos as int)),
                    path_of(tokens@).skip(pos as int),
                    final(slot)@,
                )
            },
            Err(e) => {
                &&& lookup(
                    grown(old(toml)@, path_of(tokens@).skip(pos as int)),
                    path_of(tokens@).skip(pos as int),
                    true,
                ) == Err::<Option<Node>, Fault>(e@)
                &&& final(toml)@ == grown(old(toml)@, path_of(tokens@).skip(pos as int))
            },
        },
    decreases tokens@.len() - pos,
{
    if pos == tokens.len() {
        return Ok(toml);
    }
    let ghost path = path_of(tokens@).skip(pos as int);
    let ghost rest = path_of(tokens@).skip(pos + 1);
    proof {
        assert(path.drop_first() =~= rest);
        assert(path[0] == tokens@[pos as int]@);
    }
    match toml {
        Value::Table(t) => match &tokens[pos] {
            Token::Identifier { ident } => {
                proof {
                    let m = t@;
                    let child = if m.dom().contains(ident@) {
                        m[ident@]
                    } else {
                        Node::Table(Map::empty())
                    };
                    lemma_insert_twice(m, ident@, grown(child, rest));
                }
                let child = t.get_or_insert(ident.clone(), Value::Table(Table::new()));
                resolve_from(child, tokens, pos + 1)
            },
            Token::Index { idx } => Err(Error::from_kind(ErrorKind::NoIndexInTable(*idx))),
        },
        Value::Array(items) => match &tokens[pos] {
            Token::Index { idx } => {
                proof {
                    lemma_array_view(*items);
                }
                if *idx < items.len() {
                    proof {
                        lemma_array_update(*items, *idx as int);
                        lemma_update_twice(
                            crate::value::nodes_of(items@),
                            *idx as int,
                            grown(items@[*idx as int]@, rest),
                        );
                    }
                    resolve_from(&mut items[*idx], tokens, pos + 1)
                } else {
                    Err(Error::from_kind(ErrorKind::IndexOutOfBounds(*idx, items.len())))
                }
            },
            Token::Identifier { ident } => Err(
                Error::from_kind(ErrorKind::NoIdentifierInArray(ident.clone())),
            ),
        },
        _ => match &tokens[pos] {
            Token::Identifier { ident } => Err(
                Error::from_kind(ErrorKind::QueryingValueAsTable(ident.clone())),
            ),
            Token::Index { idx } => Err(Error::from_kind(ErrorKind::QueryingValueAsArray(*idx))),
        },
    }
}

/// Finds the slot of `toml` at the path `query`, whose segments `sep`
/// separates, and creates what is missing on the way.
///
/// Where the query has a fault, that is the error, and the document stays
/// as it was. Else the walk goes as [`resolve`] says.
pub fn resolve_or_create_with_seperator<'doc>(toml: &'doc mut Value, query: &str, sep: char) -> (r:
    Result<&'doc mut Value, Error>)
    ensures
        match parse(query@, sep) {
            Err(fault) => {
                &&& r is Err
                &&& r->Err_0@ == fault
                &&& final(toml)@ == old(toml)@
            },
            Ok(path) => match r {
                Ok(slot) => {
                    &&& lookup(grown(old(toml)@, path), path, true) == Ok::<Option<Node>, Fault>(
                        Some(slot@),
                    )
                    &&& final(toml)@ == replaced(grown(old(toml)@, path), path, final(slot)@)
                },
                Err(e) => {
                    &&& lookup(grown(old(toml)@, path), path, true) == Err::<Option<Node>, Fault>(
                        e@,
                    )
                    &&& final(toml)@ == grown(old(toml)@, path)
                },
            },
        },
{
    match tokenize_with_seperator(query, sep) {
        Ok(tokens) => resolve(toml, &tokens),
        Err(e) => Err(e),
    }
}

/// Finds the slot of `toml` at the path `query`, whose segments `.`
/// separates, and creates what is missing on the way.
pub fn resolve_or_create<'doc>(toml: &'doc mut Value, query: &str) -> (r: Result<
    &'doc mut Value,
    Error,
>)
    ensures
        match parse(query@, '.') {
            Err(fault) => {
                &&& r is Err
                &&& r->Err_0@ == fault
                &&& final(toml)@ == old(toml)@
            },
            Ok(path) => match r {
                Ok(slot) => {
                    &&& lookup(grown(old(toml)@, path), path, true) == Ok::<Option<Node>, Fault>(
                        Some(slot@),
                    )
                    &&& final(toml)@ == replaced(grown(old(toml)@, path), path, final(slot)@)
                },
                Err(e) => {
                    &&& lookup(grown(old(toml)@, path), path, true) == Err::<Option<Node>, Fault>(
                        e@,
                    )
                    &&& final(toml)@ == grown(old(toml)@, path)
                },
            },
        },
{
    resolve_or_create_with_seperator(toml, query, '.')
}

} // verus!
