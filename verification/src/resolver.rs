//! Walking a document along a path.
//!
//! What the three resolvers do is stated here once, over documents and
//! paths in mathematical form: [`lookup`] says what stands at a path,
//! [`replaced`] what a document is after the node at a path was exchanged,
//! and [`grown`] what it is after the tables missing on a path were made.
use vstd::prelude::*;
use crate::error::Fault;
use crate::tokenizer::Accessor;
use crate::value::Node;

pub mod mut_creating_resolver;
pub mod mut_resolver;
pub mod non_mut_resolver;

verus! {

/// What stands in `node` at `path`.
///
/// The empty path leads to `node` itself. A key leads into a table and an
/// index into an array. A key that the table lacks, or an index past the
/// array's end, ends the walk: with nothing found, or, where `strict` is
/// set, with a fault. A key put to an array, an index put to a table, and
/// any accessor put to a leaf are faults.
pub open spec fn lookup(node: Node, path: Seq<Accessor>, strict: bool) -> Result<
    Option<Node>,
    Fault,
>
    decreases path.len(),
{
    if path.len() == 0 {
        Ok(Some(node))
    } else {
        let rest = path.drop_first();
        match (node, path[0]) {
            (Node::Table(m), Accessor::Key(k)) => if m.dom().contains(k) {
                lookup(m[k], rest, strict)
            } else if strict {
                Err(Fault::IdentifierNotFoundInDocument(k))
            } else {
                Ok(None)
            },
            (Node::Table(_), Accessor::Index(i)) => Err(Fault::NoIndexInTable(i)),
            (Node::Array(a), Accessor::Index(i)) => if i < a.len() {
                lookup(a[i as int], rest, strict)
            } else if strict {
                Err(Fault::IndexOutOfBounds(i, a.len()))
            } else {
                Ok(None)
            },
            (Node::Array(_), Accessor::Key(k)) => Err(Fault::NoIdentifierInArray(k)),
            (_, Accessor::Key(k)) => Err(Fault::QueryingValueAsTable(k)),
            (_, Accessor::Index(i)) => Err(Fault::QueryingValueAsArray(i)),
        }
    }
}

/// The document `node` with `new` in the place of what stands at `path`.
/// Where nothing stands at `path`, it is `node`.
pub open spec fn replaced(node: Node, path: Seq<Accessor>, new: Node) -> Node
    decreases path.len(),
{
    if path.len() == 0 {
        new
    } else {
        let rest = path.drop_first();
        match (node, path[0]) {
            (Node::Table(m), Accessor::Key(k)) => if m.dom().contains(k) {
                Node::Table(m.insert(k, replaced(m[k], rest, new)))
            } else {
                node
            },
            (Node::Array(a), Accessor::Index(i)) => if i < a.len() {
                Node::Array(a.update(i as int, replaced(a[i as int], rest, new)))
            } else {
                node
            },
            _ => node,
        }
    }
}

/// The document `node` after every table that `path` asks for and that is
/// missing was made, empty, under its key. The walk goes as far as the path
/// fits the document: it stops at a key put to an array, an index put to a
/// table, an accessor put to a leaf, and at an index past an array's end.
/// Arrays never grow.
pub open spec fn grown(node: Node, path: Seq<Accessor>) -> Node
    decreases path.len(),
{
    if path.len() == 0 {
        node
    } else {
        let rest = path.drop_first();
        match (node, path[0]) {
            (Node::Table(m), Accessor::Key(k)) => {
                let child = if m.dom().contains(k) {
                    m[k]
                } else {
                    Node::Table(Map::empty())
                };
                Node::Table(m.insert(k, grown(child, rest)))
            },
            (Node::Array(a), Accessor::Index(i)) => if i < a.len() {
                Node::Array(a.update(i as int, grown(a[i as int], rest)))
            } else {
                node
            },
            _ => node,
        }
    }
}

/// The empty path leads to the document itself.
pub proof fn lemma_lookup_empty_path(node: Node, strict: bool)
    ensures
        lookup(node, Seq::empty(), strict) == Ok::<Option<Node>, Fault>(Some(node)),
{
}

/// A walk that finds a node finds the same node whether or not a miss
/// counts as a fault.
pub proof fn lemma_lookup_found_either_way(node: Node, path: Seq<Accessor>, strict: bool)
    requires
        lookup(node, path, strict) matches Ok(Some(_)),
    ensures
        lookup(node, path, !strict) == lookup(node, path, strict),
    decreases path.len(),
{
    if path.len() > 0 {
        let rest = path.drop_first();
        match (node, path[0]) {
            (Node::Table(m), Accessor::Key(k)) => {
                lemma_lookup_found_either_way(m[k], rest, strict);
            },
            (Node::Array(a), Accessor::Index(i)) => {
                lemma_lookup_found_either_way(a[i as int], rest, strict);
            },
            _ => {},
        }
    }
}

/// Reading and resolving for writing agree.
///
/// Let `read` be what the reading resolver finds in a document at a path,
/// and `slot` what the writing resolver hands out for the same document and
/// path. Then both fail with the same fault, or both find nothing, or both
/// find the same node, which then has the same variant.
pub proof fn lemma_read_and_write_agree(
    doc: Node,
    path: Seq<Accessor>,
    strict: bool,
    read: Result<Option<Node>, Fault>,
    slot: Result<Option<Node>, Fault>,
)
    requires
        read == lookup(doc, path, strict),
        slot == lookup(doc, path, strict),
    ensures
        read is Err <==> slot is Err,
        read is Err ==> read->Err_0 == slot->Err_0,
        read is Ok ==> (read->Ok_0 is Some <==> slot->Ok_0 is Some),
        read matches Ok(Some(a)) ==> slot == Ok::<Option<Node>, Fault>(Some(a)),
{
}

/// Putting back what stands at a path changes nothing.
pub proof fn lemma_replaced_by_itself(node: Node, path: Seq<Accessor>, strict: bool)
    requires
        lookup(node, path, strict) matches Ok(Some(_)),
    ensures
        replaced(node, path, lookup(node, path, strict)->Ok_0->Some_0) == node,
    decreases path.len(),
{
    if path.len() > 0 {
        let rest = path.drop_first();
        let found = lookup(node, path, strict)->Ok_0->Some_0;
        match (node, path[0]) {
            (Node::Table(m), Accessor::Key(k)) => {
                lemma_replaced_by_itself(m[k], rest, strict);
                assert(m.insert(k, replaced(m[k], rest, found)) =~= m);
            },
            (Node::Array(a), Accessor::Index(i)) => {
                lemma_replaced_by_itself(a[i as int], rest, strict);
                assert(a.update(i as int, replaced(a[i as int], rest, found)) =~= a);
            },
            _ => {},
        }
    }
}

/// What was put at a path is what a walk along that path finds.
///
/// Where a node stands at `path`, the document with `new` in its place has
/// `new` at `path`, whether or not a miss counts as a fault.
pub proof fn lemma_lookup_replaced(
    node: Node,
    path: Seq<Accessor>,
    new: Node,
    strict: bool,
    strict_after: bool,
)
    requires
        lookup(node, path, strict) matches Ok(Some(_)),
    ensures
        lookup(replaced(node, path, new), path, strict_after) == Ok::<Option<Node>, Fault>(
            Some(new),
        ),
    decreases path.len(),
{
    if path.len() > 0 {
        let rest = path.drop_first();
        match (node, path[0]) {
            (Node::Table(m), Accessor::Key(k)) => {
                lemma_lookup_replaced(m[k], rest, new, strict, strict_after);
            },
            (Node::Array(a), Accessor::Index(i)) => {
                lemma_lookup_replaced(a[i as int], rest, new, strict, strict_after);
            },
            _ => {},
        }
    }
}

/// Growing a document along a path a second time changes nothing.
pub proof fn lemma_grown_twice(node: Node, path: Seq<Accessor>)
    ensures
        grown(grown(node, path), path) == grown(node, path),
    decreases path.len(),
{
    if path.len() > 0 {
        let rest = path.drop_first();
        match (node, path[0]) {
            (Node::Table(m), Accessor::Key(k)) => {
                let child = if m.dom().contains(k) {
                    m[k]
                } else {
                    Node::Table(Map::empty())
                };
                lemma_grown_twice(child, rest);
                let once = m.insert(k, grown(child, rest));
                assert(once.insert(k, grown(once[k], rest)) =~= once);
            },
            (Node::Array(a), Accessor::Index(i)) => {
                if i < a.len() {
                    lemma_grown_twice(a[i as int], rest);
                    let once = a.update(i as int, grown(a[i as int], rest));
                    assert(once.update(i as int, grown(once[i as int], rest)) =~= once);
                }
            },
            _ => {},
        }
    }
}

/// In a grown document no key of the path is missing: a walk along the path
/// finds a node or fails, and it fails only on a path that does not fit the
/// document's shape or on an index past an array's end.
pub proof fn lemma_grown_has_no_gap(node: Node, path: Seq<Accessor>)
    ensures
        lookup(grown(node, path), path, true) != Ok::<Option<Node>, Fault>(None),
        !(lookup(grown(node, path), path, true) matches Err(
            Fault::IdentifierNotFoundInDocument(_),
        )),
    decreases path.len(),
{
    if path.len() > 0 {
        let rest = path.drop_first();
        match (node, path[0]) {
            (Node::Table(m), Accessor::Key(k)) => {
                let child = if m.dom().contains(k) {
                    m[k]
                } else {
                    Node::Table(Map::empty())
                };
                lemma_grown_has_no_gap(child, rest);
            },
            (Node::Array(a), Accessor::Index(i)) => {
                if i < a.len() {
                    lemma_grown_has_no_gap(a[i as int], rest);
                }
            },
            _ => {},
        }
    }
}

/// Resolving with creation is idempotent.
///
/// Let `once` be the document after the creating resolver has walked `path`
/// and the caller has left the slot, if one was handed out, as it was. A
/// second walk then creates nothing, ends as the first did, and hands out
/// the same node.
pub proof fn lemma_create_twice(doc: Node, path: Seq<Accessor>)
    ensures
        ({
            let once = grown(doc, path);
            let first = lookup(once, path, true);
            let after_first = match first {
                Ok(Some(slot)) => replaced(once, path, slot),
                _ => once,
            };
            &&& after_first == once
            &&& grown(after_first, path) == once
            &&& lookup(grown(after_first, path), path, true) == first
        }),
{
    let once = grown(doc, path);
    lemma_grown_twice(doc, path);
    if lookup(once, path, true) matches Ok(Some(_)) {
        lemma_replaced_by_itself(once, path, true);
    }
}

/// What is written into a created slot is what a later read finds.
///
/// Let the creating resolver walk `path` in `doc` and hand out a slot, and
/// let the caller leave `written` in it. A read along `path` then finds
/// `written`.
pub proof fn lemma_read_after_create(doc: Node, path: Seq<Accessor>, written: Node)
    requires
        lookup(grown(doc, path), path, true) is Ok,
    ensures
        lookup(replaced(grown(doc, path), path, written), path, false) == Ok::<
            Option<Node>,
            Fault,
        >(Some(written)),
{
    lemma_grown_has_no_gap(doc, path);
    lemma_lookup_replaced(grown(doc, path), path, written, true, false);
}

} // verus!
