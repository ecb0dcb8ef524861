//! The resolver that hands out a writable slot and never creates one.
use vstd::prelude::*;
use crate::error::{Error, ErrorKind, Fault};
use crate::resolver::{lookup, replaced};
use crate::tokenizer::{path_of, Accessor, Token};
use crate::value::{lemma_array_update, lemma_array_view, Node, Value};

verus! {

/// Finds the slot of `toml` that `tokens` lead to.
///
/// A missing key and an index past the end give `None`, or, where
/// `error_if_not_found` is set, an error. A path that does not fit the
/// document's shape gives an error. Nothing is created.
///
/// The slot holds what stands at the path, and what the caller leaves in it
/// takes that place; everything else stays. Where no slot is handed out,
/// the document stays as it was.
pub fn resolve<'doc>(toml: &'doc mut Value, tokens: &Vec<Token>, error_if_not_found: bool) -> (r:
    Result<Option<&'doc mut Value>, Error>)
    ensures
        match r {
            Ok(Some(slot)) => {
                &&& lookup(old(toml)@, path_of(tokens@), error_if_not_found) == Ok::<
                    Option<Node>,
                    Fault,
                >(Some(slot@))
                &&& final(toml)@ == replaced(old(toml)@, path_of(tokens@), final(slot)@)
            },
            Ok(None) => {
                &&& lookup(old(toml)@, path_of(tokens@), error_if_not_found) == Ok::<
                    Option<Node>,
                    Fault,
                >(None)
                &&& final(toml)@ == old(toml)@
            },
            Err(e) => {
                &&& lookup(old(toml)@, path_of(tokens@), error_if_not_found) == Err::<
                    Option<Node>,
                    Fault,
                >(e@)
                &&& final(toml)@ == old(toml)@
            },
        },
{
    proof {
        assert(path_of(tokens@).skip(0) =~= path_of(tokens@));
    }
    resolve_from(toml, tokens, 0, error_if_not_found)
}

/// Finds the slot of `toml` that the tokens from position `pos` on lead to.
fn resolve_from<'doc>(
    toml: &'doc mut Value,
    tokens: &Vec<Token>,
    pos: usize,
    error_if_not_found: bool,
) -> (r: Result<Option<&'doc mut Value>, Error>)
    requires
        pos <= tokens@.len(),
    ensures
        match r {
            Ok(Some(slot)) => {
                &&& lookup(old(toml)@, path_of(tokens@).skip(pos as int), error_if_not_found)
                    == Ok::<Option<Node>, Fault>(Some(slot@))
                &&& final(toml)@ == replaced(
                    old(toml)@,
                    path_of(tokens@).skip(pos as int),
                    final(slot)@,
                )
            },
            Ok(None) => {
                &&& lookup(old(toml)@, path_of(tokens@).skip(pos as int), error_if_not_found)
                    == Ok::<Option<Node>, Fault>(None)
                &&& final(toml)@ == old(toml)@
            },
            Err(e) => {
                &&& lookup(old(toml)@, path_of(tokens@).skip(pos as int), error_if_not_found)
                    == Err::<Option<Node>, Fault>(e@)
                &&& final(toml)@ == old(toml)@
            },
        },
    decreases tokens@.len() - pos,
{
    if pos == tokens.len() {
        return Ok(Some(toml));
    }
    let ghost path = path_of(tokens@).skip(pos as int);
    proof {
        assert(path.drop_first() =~= path_of(tokens@).skip(pos + 1));
        assert(path[0] == tokens@[pos as int]@);
    }
    match toml {
        Value::Table(t) => match &tokens[pos] {
            Token::Identifier { ident } => {
                proof {
                    let m = t@;
                    if m.dom().contains(ident@) {
                        assert(m.insert(ident@, m[ident@]) =~= m);
                    }
                }
                match t.get_mut(ident.as_str()) {
                    Some(child) => resolve_from(child, tokens, pos + 1, error_if_not_found),
                    None => {
                        if error_if_not_found {
                            Err(
                                Error::from_kind(
                                    ErrorKind::IdentifierNotFoundInDocument(ident.clone()),
                                ),
                            )
                        } else {
                            Ok(None)
                        }
                    },
                }
            },
            Token::Index { idx } => Err(Error::from_kind(ErrorKind::NoIndexInTable(*idx))),
        },
        Value::Array(items) => match &tokens[pos] {
            Token::Index { idx } => {
                proof {
                    lemma_array_view(*items);
                }
                if *idx < items.len() {
                    proof {
                        lemma_array_update(*items, *idx as int);
                        assert(items@.update(*idx as int, items@[*idx as int]) =~= items@);
                    }
                    resolve_from(&mut items[*idx], tokens, pos + 1, error_if_not_found)
                } else {
                    if error_if_not_found {
                        Err(Error::from_kind(ErrorKind::IndexOutOfBounds(*idx, items.len())))
                    } else {
                        Ok(None)
                    }
                }
            },
            Token::Identifier { ident } => Err(
                Error::from_kind(ErrorKind::NoIdentifierInArray(ident.clone())),
            ),
        },
        _ => match &tokens[pos] {
            Token::Identifier { ident } => Err(
                Error::from_kind(ErrorKind::QueryingValueAsTable(ident.clone())),
            ),
            Token::Index { idx } => Err(Error::from_kind(ErrorKind::QueryingValueAsArray(*idx))),
        },
    }
}

} // verus!
