//! The resolver that reads.
use vstd::prelude::*;
use crate::error::{Error, ErrorKind, Fault};
use crate::resolver::lookup;
use crate::tokenizer::{path_of, Token};
use crate::value::{lemma_array_view, Node, Value};

verus! {

/// The outcome of a read, in mathematical form.
pub open spec fn seen<'doc>(r: Result<Option<&'doc Value>, Error>) -> Result<Option<Node>, Fault> {
    match r {
        Ok(Some(v)) => Ok(Some(v@)),
        Ok(None) => Ok(None),
        Err(e) => Err(e@),
    }
}

/// Finds the node of `toml` that `tokens` lead to.
///
/// A missing key and an index past the end give `None`, or, where
/// `error_if_not_found` is set, an error. A path that does not fit the
/// document's shape gives an error.
pub fn resolve<'doc>(toml: &'doc Value, tokens: &Vec<Token>, error_if_not_found: bool) -> (r:
    Result<Option<&'doc Value>, Error>)
    ensures
        seen(r) == lookup(toml@, path_of(tokens@), error_if_not_found),
{
    let ghost path = path_of(tokens@);
    let n = tokens.len();
    let mut current: &'doc Value = toml;
    let mut pos: usize = 0;
    proof {
        assert(path.skip(0) =~= path);
    }
    while pos < n
        invariant
            n == tokens@.len(),
            pos <= n,
            path == path_of(tokens@),
            lookup(toml@, path, error_if_not_found) == lookup(
                current@,
                path.skip(pos as int),
                error_if_not_found,
            ),
        decreases n - pos,
    {
        proof {
            assert(path.skip(pos as int).drop_first() =~= path.skip(pos + 1));
            assert(path.skip(pos as int)[0] == tokens@[pos as int]@);
        }
        match current {
            Value::Table(t) => match &tokens[pos] {
                Token::Identifier { ident } => match t.get(ident.as_str()) {
                    Some(child) => {
                        current = child;
                    },
                    None => {
                        if error_if_not_found {
                            return Err(
                                Error::from_kind(
                                    ErrorKind::IdentifierNotFoundInDocument(ident.clone()),
                                ),
                            );
                        }
                        return Ok(None);
                    },
                },
                Token::Index { idx } => {
                    return Err(Error::from_kind(ErrorKind::NoIndexInTable(*idx)));
                },
            },
            Value::Array(items) => match &tokens[pos] {
                Token::Index { idx } => {
                    proof {
                        lemma_array_view(*items);
                    }
                    if *idx < items.len() {
                        current = &items[*idx];
                    } else {
                        if error_if_not_found {
                            return Err(
                                Error::from_kind(ErrorKind::IndexOutOfBounds(*idx, items.len())),
                            );
                        }
                        return Ok(None);
                    }
                },
                Token::Identifier { ident } => {
                    return Err(Error::from_kind(ErrorKind::NoIdentifierInArray(ident.clone())));
                },
            },
            _ => match &tokens[pos] {
                Token::Identifier { ident } => {
                    return Err(Error::from_kind(ErrorKind::QueryingValueAsTable(ident.clone())));
                },
                Token::Index { idx } => {
                    return Err(Error::from_kind(ErrorKind::QueryingValueAsArray(*idx)));
                },
            },
        }
        pos += 1;
    }
    proof {
        assert(path.skip(n as int) =~= Seq::<crate::tokenizer::Accessor>::empty());
    }
    Ok(Some(current))
}

} // verus!
