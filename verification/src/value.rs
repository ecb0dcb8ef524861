//! The document: a tree of tables, arrays and scalar leaves.
use vstd::prelude::*;
use crate::text::same_text;

verus! {

/// A document in mathematical form. A table is a map from keys to nodes, an
/// array a sequence of nodes; the other variants are leaves.
pub enum Node {
    Text(Seq<char>),
    Integer(i64),
    /// A floating-point number, held as the bit pattern of its binary64 form.
    Float(u64),
    Boolean(bool),
    /// A date and time, held as its text.
    Datetime(Seq<char>),
    Array(Seq<Node>),
    Table(Map<Seq<char>, Node>),
}

/// A table of a document: values stored under keys, each key at most once.
/// Two tables are equal when they store equal values under the same keys,
/// in whatever order the entries were made.
#[derive(Debug)]
pub struct Table {
    keys: Vec<String>,
    values: Vec<Value>,
}

/// A node of a document. Two nodes are equal when they stand for the same
/// document.
#[derive(Debug)]
pub enum Value {
    String(String),
    Integer(i64),
    /// A floating-point number, held as the bit pattern of its binary64 form.
    Float(u64),
    Boolean(bool),
    /// A date and time, held as its text.
    Datetime(String),
    Array(Vec<Value>),
    Table(Table),
}

/// The map that the pairs of `keys` and `values` from position `from` on
/// stand for. Where a key occurs twice, its first pair counts.
spec fn bindings(keys: Seq<String>, values: Vec<Value>, from: nat) -> Map<Seq<char>, Node>
    decreases values, 1nat, values@.len() - from,
{
    if from >= values@.len() {
        Map::empty()
    } else {
        bindings(keys, values, from + 1).insert(keys[from as int]@, values@[from as int]@)
    }
}

/// What the first `upto` elements of `items` stand for.
pub open spec fn elements(items: Vec<Value>, upto: nat) -> Seq<Node>
    decreases items, 1nat, upto,
{
    if upto == 0 || upto > items@.len() {
        Seq::empty()
    } else {
        elements(items, (upto - 1) as nat).push(items@[upto - 1]@)
    }
}

impl View for Table {
    type V = Map<Seq<char>, Node>;

    closed spec fn view(&self) -> Map<Seq<char>, Node>
        decreases self, 0nat, 0nat,
    {
        bindings(self.keys@, self.values, 0)
    }
}

impl View for Value {
    type V = Node;

    open spec fn view(&self) -> Node
        decreases self, 0nat, 0nat,
    {
        match self {
            Value::String(s) => Node::Text(s@),
            Value::Integer(i) => Node::Integer(*i),
            Value::Float(bits) => Node::Float(*bits),
            Value::Boolean(b) => Node::Boolean(*b),
            Value::Datetime(s) => Node::Datetime(s@),
            Value::Array(items) => Node::Array(elements(*items, items@.len())),
            Value::Table(t) => Node::Table(t@),
        }
    }
}

/// The nodes that the elements of an array stand for.
pub open spec fn nodes_of(items: Seq<Value>) -> Seq<Node> {
    Seq::new(items.len(), |i: int| items[i]@)
}

/// The first elements of an array stand for their nodes, one by one.
proof fn lemma_elements(items: Vec<Value>, upto: nat)
    requires
        upto <= items@.len(),
    ensures
        elements(items, upto).len() == upto,
        forall|i: int| 0 <= i < upto ==> #[trigger] elements(items, upto)[i] == items@[i]@,
    decreases upto,
{
    if upto > 0 {
        lemma_elements(items, (upto - 1) as nat);
        assert(elements(items, upto) == elements(items, (upto - 1) as nat).push(
            items@[upto - 1]@,
        ));
    }
}

/// An array stands for the sequence of what its elements stand for.
pub proof fn lemma_array_view(items: Vec<Value>)
    ensures
        Value::Array(items)@ == Node::Array(nodes_of(items@)),
{
    lemma_elements(items, items@.len());
    assert(elements(items, items@.len()) =~= nodes_of(items@));
}

/// Whatever replaces the element at position `i`, the array changes there alone.
pub proof fn lemma_array_update(before: Vec<Value>, i: int)
    requires
        0 <= i < before@.len(),
    ensures
        forall|after: Vec<Value>, v: Value|
            #![trigger Value::Array(after)@, before@.update(i, v)]
            after@ == before@.update(i, v) ==> Value::Array(after)@ == Node::Array(
                nodes_of(before@).update(i, v@),
            ),
{
    assert forall|after: Vec<Value>, v: Value|
        #![trigger Value::Array(after)@, before@.update(i, v)]
        after@ == before@.update(i, v) implies Value::Array(after)@ == Node::Array(
        nodes_of(before@).update(i, v@),
    ) by {
        lemma_array_view(after);
        assert(nodes_of(after@) =~= nodes_of(before@).update(i, v@));
    }
}

/// One step of `bindings`, written out.
spec fn unfolded(keys: Seq<String>, values: Vec<Value>, from: nat) -> Map<Seq<char>, Node> {
    bindings(keys, values, (from + 1) as nat).insert(keys[from as int]@, values@[from as int]@)
}

/// Pairs with the same keys and the same nodes stand for the same map.
proof fn lemma_bindings_same(
    keys1: Seq<String>,
    values1: Vec<Value>,
    keys2: Seq<String>,
    values2: Vec<Value>,
    from: nat,
)
    requires
        keys1.len() == values1@.len(),
        keys2.len() == values2@.len(),
        values1@.len() == values2@.len(),
        forall|j: int|
            #![trigger keys1[j]]
            #![trigger values1@[j]]
            from <= j < values1@.len() ==> keys1[j]@ == keys2[j]@ && values1@[j]@ == values2@[j]@,
    ensures
        bindings(keys1, values1, from) == bindings(keys2, values2, from),
    decreases values1@.len() - from,
{
    if from < values1@.len() {
        lemma_bindings_same(keys1, values1, keys2, values2, (from + 1) as nat);
        assert(bindings(keys1, values1, from) == unfolded(keys1, values1, from));
        assert(bindings(keys2, values2, from) == unfolded(keys2, values2, from));
    }
}

/// A key that none of the pairs has is not in the map.
proof fn lemma_bindings_absent(keys: Seq<String>, values: Vec<Value>, from: nat, k: Seq<char>)
    requires
        keys.len() == values@.len(),
        forall|j: int| from <= j < values@.len() ==> keys[j]@ != k,
    ensures
        !bindings(keys, values, from).dom().contains(k),
    decreases values@.len() - from,
{
    if from < values@.len() {
        lemma_bindings_absent(keys, values, (from + 1) as nat, k);
        assert(bindings(keys, values, from) == unfolded(keys, values, from));
    }
}

/// The first pair with a key gives what the map holds under that key.
proof fn lemma_bindings_present(keys: Seq<String>, values: Vec<Value>, from: nat, i: int)
    requires
        keys.len() == values@.len(),
        from <= i < values@.len(),
        forall|j: int| from <= j < i ==> keys[j]@ != keys[i]@,
    ensures
        bindings(keys, values, from).dom().contains(keys[i]@),
        bindings(keys, values, from)[keys[i]@] == values@[i]@,
    decreases i - from,
{
    assert(bindings(keys, values, from) == unfolded(keys, values, from));
    if from < i {
        lemma_bindings_present(keys, values, (from + 1) as nat, i);
    }
}

/// Replacing the value of the first pair with a key changes the map under
/// that key alone.
proof fn lemma_bindings_update(
    keys: Seq<String>,
    before: Vec<Value>,
    after: Vec<Value>,
    from: nat,
    i: int,
)
    requires
        keys.len() == before@.len(),
        from <= i < before@.len(),
        after@.len() == before@.len(),
        forall|j: int| 0 <= j < before@.len() && j != i ==> after@[j]@ == before@[j]@,
        forall|j: int| from <= j < i ==> keys[j]@ != keys[i]@,
    ensures
        bindings(keys, after, from) == bindings(keys, before, from).insert(
            keys[i]@,
            after@[i]@,
        ),
    decreases i - from,
{
    assert(bindings(keys, before, from) == unfolded(keys, before, from));
    assert(bindings(keys, after, from) == unfolded(keys, after, from));
    if from < i {
        lemma_bindings_update(keys, before, after, (from + 1) as nat, i);
        assert(bindings(keys, after, from) =~= bindings(keys, before, from).insert(
            keys[i]@,
            after@[i]@,
        ));
    } else {
        lemma_bindings_same(keys, before, keys, after, (from + 1) as nat);
        assert(bindings(keys, after, from) =~= bindings(keys, before, from).insert(
            keys[i]@,
            after@[i]@,
        ));
    }
}

/// Whatever replaces the value at position `i`, the table changes at that key alone.
proof fn lemma_table_update(before: Table, i: int)
    requires
        before.keys@.len() == before.values@.len(),
        0 <= i < before.values@.len(),
        forall|j: int| 0 <= j < i ==> before.keys@[j]@ != before.keys@[i]@,
    ensures
        forall|after: Table, v: Value|
            #![trigger after@, before.values@.update(i, v)]
            after.keys == before.keys && after.values@ == before.values@.update(i, v) ==> after@
                == before@.insert(before.keys@[i]@, v@),
{
    assert forall|after: Table, v: Value|
        #![trigger after@, before.values@.update(i, v)]
        after.keys == before.keys && after.values@ == before.values@.update(
            i,
            v,
        ) implies after@ == before@.insert(before.keys@[i]@, v@) by {
        lemma_bindings_update(before.keys@, before.values, after.values, 0, i);
    }
}

/// A pair appended under a key that no pair has adds that key to the map.
proof fn lemma_bindings_push(
    keys: Seq<String>,
    before: Vec<Value>,
    keys_after: Seq<String>,
    after: Vec<Value>,
    from: nat,
)
    requires
        keys.len() == before@.len(),
        keys_after.len() == after@.len(),
        after@.len() == before@.len() + 1,
        from <= before@.len(),
        forall|j: int|
            #![trigger keys_after[j]]
            #![trigger after@[j]]
            0 <= j < before@.len() ==> keys_after[j]@ == keys[j]@ && after@[j]@ == before@[j]@,
        forall|j: int| from <= j < before@.len() ==> keys[j]@ != keys_after.last()@,
    ensures
        bindings(keys_after, after, from) == bindings(keys, before, from).insert(
            keys_after.last()@,
            after@.last()@,
        ),
    decreases before@.len() - from,
{
    assert(bindings(keys_after, after, from) == unfolded(keys_after, after, from));
    if from < before@.len() {
        assert(bindings(keys, before, from) == unfolded(keys, before, from));
        lemma_bindings_push(keys, before, keys_after, after, (from + 1) as nat);
        assert(bindings(keys_after, after, from) =~= bindings(keys, before, from).insert(
            keys_after.last()@,
            after@.last()@,
        ));
    } else {
        assert(bindings(keys_after, after, (from + 1) as nat) =~= Map::empty());
        assert(bindings(keys_after, after, from) =~= bindings(keys, before, from).insert(
            keys_after.last()@,
            after@.last()@,
        ));
    }
}

/// With distinct keys the map has as many keys as there are pairs.
proof fn lemma_bindings_count(keys: Seq<String>, values: Vec<Value>, from: nat)
    requires
        keys.len() == values@.len(),
        from <= values@.len(),
        forall|i: int, j: int|
            0 <= i < keys.len() && 0 <= j < keys.len() && i != j ==> keys[i]@ != keys[j]@,
    ensures
        bindings(keys, values, from).dom().finite(),
        bindings(keys, values, from).dom().len() == values@.len() - from,
    decreases values@.len() - from,
{
    if from < values@.len() {
        assert(bindings(keys, values, from) == unfolded(keys, values, from));
        lemma_bindings_count(keys, values, (from + 1) as nat);
        lemma_bindings_absent(keys, values, (from + 1) as nat, keys[from as int]@);
    }
}

impl Table {
    /// Every key has its value, and no key occurs twice.
    #[verifier::type_invariant]
    spec fn keys_distinct(self) -> bool {
        &&& self.keys@.len() == self.values@.len()
        &&& forall|i: int, j: int|
            0 <= i < self.keys@.len() && 0 <= j < self.keys@.len() && i != j
                ==> self.keys@[i]@ != self.keys@[j]@
    }

    /// A table without entries.
    pub fn new() -> (t: Table)
        ensures
            t@ == Map::<Seq<char>, Node>::empty(),
            t.key_order() == Seq::<Seq<char>>::empty(),
    {
        Table { keys: Vec::new(), values: Vec::new() }
    }

    /// The keys of the table, in the order in which their entries were made.
    pub closed spec fn key_order(&self) -> Seq<Seq<char>> {
        self.keys@.map_values(|k: String| k@)
    }

    /// The number of entries. The keys in order are the keys of the map,
    /// each once.
    pub fn len(&self) -> (n: usize)
        ensures
            self@.dom().finite(),
            n == self@.dom().len(),
            n == self.key_order().len(),
            self.key_order().no_duplicates(),
            forall|k: Seq<char>| self@.dom().contains(k) <==> self.key_order().contains(k),
    {
        proof {
            use_type_invariant(self);
            lemma_bindings_count(self.keys@, self.values, 0);
            assert forall|k: Seq<char>| self@.dom().contains(k) implies self.key_order().contains(
                k,
            ) by {
                lemma_bindings_key(self.keys@, self.values, 0, k);
                let i = choose|i: int| 0 <= i < self.values@.len() && #[trigger] self.keys@[i]@ == k;
                assert(self.key_order()[i] == k);
            }
            assert forall|k: Seq<char>| self.key_order().contains(k) implies self@.dom().contains(
                k,
            ) by {
                let i = choose|i: int| 0 <= i < self.key_order().len() && self.key_order()[i] == k;
                lemma_bindings_present(self.keys@, self.values, 0, i);
            }
        }
        self.values.len()
    }

    /// The entry at position `i` in the order in which the entries were
    /// made, if there are that many.
    pub fn nth(&self, i: usize) -> (r: Option<(&String, &Value)>)
        ensures
            match r {
                Some((key, value)) => {
                    &&& i < self.key_order().len()
                    &&& key@ == self.key_order()[i as int]
                    &&& self@.dom().contains(key@)
                    &&& value@ == self@[key@]
                },
                None => i >= self.key_order().len(),
            },
    {
        proof {
            use_type_invariant(self);
        }
        if i < self.values.len() {
            proof {
                lemma_bindings_present(self.keys@, self.values, 0, i as int);
            }
            Some((&self.keys[i], &self.values[i]))
        } else {
            None
        }
    }

    /// Whether the table has no entry.
    pub fn is_empty(&self) -> (r: bool)
        ensures
            r == (self@ == Map::<Seq<char>, Node>::empty()),
    {
        proof {
            use_type_invariant(self);
            if self.values@.len() > 0 {
                lemma_bindings_present(self.keys@, self.values, 0, 0);
            }
        }
        self.values.len() == 0
    }

    /// Where `key` stands among the keys, if it does.
    fn position(&self, key: &str) -> (r: Option<usize>)
        ensures
            match r {
                Some(i) => i < self.keys@.len() && self.keys@[i as int]@ == key@,
                None => forall|j: int| 0 <= j < self.keys@.len() ==> self.keys@[j]@ != key@,
            },
    {
        let n = self.keys.len();
        let mut i: usize = 0;
        while i < n
            invariant
                n == self.keys@.len(),
                i <= n,
                forall|j: int| 0 <= j < i ==> self.keys@[j]@ != key@,
            decreases n - i,
        {
            if same_text(self.keys[i].as_str(), key) {
                return Some(i);
            }
            i += 1;
        }
        None
    }

    /// Adds an entry for a key that the table does not hold yet.
    fn append(&mut self, key: String, value: Value)
        requires
            forall|j: int| 0 <= j < old(self).keys@.len() ==> old(self).keys@[j]@ != key@,
        ensures
            final(self).keys@ == old(self).keys@.push(key),
            final(self).values@ == old(self).values@.push(value),
            final(self)@ == old(self)@.insert(key@, value@),
            final(self).key_order() == old(self).key_order().push(key@),
    {
        proof {
            use_type_invariant(&*self);
        }
        let ghost before = *self;
        let mut taken = Table::new();
        core::mem::swap(self, &mut taken);
        let Table { mut keys, mut values } = taken;
        keys.push(key);
        values.push(value);
        proof {
            lemma_bindings_push(before.keys@, before.values, keys@, values, 0);
        }
        *self = Table { keys, values };
    }

    /// Whether a value is stored under `key`.
    pub fn contains_key(&self, key: &str) -> (r: bool)
        ensures
            r == self@.dom().contains(key@),
    {
        let found = self.position(key);
        proof {
            use_type_invariant(self);
            match found {
                Some(i) => lemma_bindings_present(self.keys@, self.values, 0, i as int),
                None => lemma_bindings_absent(self.keys@, self.values, 0, key@),
            }
        }
        found.is_some()
    }

    /// The value stored under `key`, if there is one.
    pub fn get(&self, key: &str) -> (r: Option<&Value>)
        ensures
            match r {
                Some(v) => self@.dom().contains(key@) && v@ == self@[key@],
                None => !self@.dom().contains(key@),
            },
    {
        let found = self.position(key);
        proof {
            use_type_invariant(self);
        }
        match found {
            Some(i) => {
                proof {
                    lemma_bindings_present(self.keys@, self.values, 0, i as int);
                }
                Some(&self.values[i])
            },
            None => {
                proof {
                    lemma_bindings_absent(self.keys@, self.values, 0, key@);
                }
                None
            },
        }
    }

    /// A writable slot for the value stored under `key`, if there is one.
    /// What the caller leaves in the slot is what the table then holds under
    /// `key`; nothing else changes.
    pub fn get_mut(&mut self, key: &str) -> (r: Option<&mut Value>)
        ensures
            match r {
                Some(slot) => {
                    &&& old(self)@.dom().contains(key@)
                    &&& slot@ == old(self)@[key@]
                    &&& final(self)@ == old(self)@.insert(key@, final(slot)@)
                },
                None => !old(self)@.dom().contains(key@) && final(self)@ == old(self)@,
            },
            final(self).key_order() == old(self).key_order(),
    {
        let found = self.position(key);
        proof {
            use_type_invariant(&*self);
        }
        match found {
            Some(i) => {
                proof {
                    lemma_bindings_present(self.keys@, self.values, 0, i as int);
                }
                proof {
                    lemma_table_update(*self, i as int);
                }
                Some(&mut self.values[i])
            },
            None => {
                proof {
                    lemma_bindings_absent(self.keys@, self.values, 0, key@);
                }
                None
            },
        }
    }

    /// A writable slot for the value stored under `key`; where there is none
    /// yet, `default` is stored there first.
    pub fn get_or_insert(&mut self, key: String, default: Value) -> (slot: &mut Value)
        ensures
            slot@ == (if old(self)@.dom().contains(key@) {
                old(self)@[key@]
            } else {
                default@
            }),
            final(self)@ == old(self)@.insert(key@, final(slot)@),
            final(self).key_order() == (if old(self)@.dom().contains(key@) {
                old(self).key_order()
            } else {
                old(self).key_order().push(key@)
            }),
    {
        let found = self.position(key.as_str());
        proof {
            use_type_invariant(&*self);
        }
        match found {
            Some(i) => {
                proof {
                    lemma_bindings_present(self.keys@, self.values, 0, i as int);
                    lemma_table_update(*self, i as int);
                }
                &mut self.values[i]
            },
            None => {
                let n = self.values.len();
                proof {
                    lemma_bindings_absent(self.keys@, self.values, 0, key@);
                }
                self.append(key, default);
                proof {
                    lemma_table_update(*self, n as int);
                    assert(self@ =~= self@.insert(key@, default@));
                }
                &mut self.values[n]
            },
        }
    }

    /// Stores `value` under `key` and hands back what was stored there before.
    pub fn insert(&mut self, key: String, value: Value) -> (previous: Option<Value>)
        ensures
            final(self)@ == old(self)@.insert(key@, value@),
            final(self).key_order() == (if old(self)@.dom().contains(key@) {
                old(self).key_order()
            } else {
                old(self).key_order().push(key@)
            }),
            match previous {
                Some(v) => old(self)@.dom().contains(key@) && v@ == old(self)@[key@],
                None => !old(self)@.dom().contains(key@),
            },
    {
        let found = self.position(key.as_str());
        proof {
            use_type_invariant(&*self);
        }
        match found {
            Some(i) => {
                proof {
                    lemma_bindings_present(self.keys@, self.values, 0, i as int);
                    lemma_table_update(*self, i as int);
                }
                let mut stored = value;
                core::mem::swap(&mut self.values[i], &mut stored);
                Some(stored)
            },
            None => {
                proof {
                    lemma_bindings_absent(self.keys@, self.values, 0, key@);
                }
                self.append(key, value);
                None
            },
        }
    }
}

impl Clone for Table {
    /// A table with copies of the same entries.
    fn clone(&self) -> (r: Table)
        ensures
            r@ == self@,
            r.key_order() == self.key_order(),
        decreases self, 0nat,
    {
        proof {
            use_type_invariant(self);
        }
        let n = self.keys.len();
        let mut keys: Vec<String> = Vec::new();
        let mut values: Vec<Value> = Vec::new();
        let mut i: usize = 0;
        while i < n
            invariant
                n == self.keys@.len(),
                n == self.values@.len(),
                i <= n,
                keys@.len() == i,
                values@.len() == i,
                forall|j: int| 0 <= j < i ==> #[trigger] keys@[j]@ == self.keys@[j]@,
                forall|j: int| 0 <= j < i ==> #[trigger] values@[j]@ == self.values@[j]@,
            decreases n - i,
        {
            keys.push(self.keys[i].clone());
            values.push(self.values[i].clone());
            i += 1;
        }
        proof {
            lemma_bindings_same(keys@, values, self.keys@, self.values, 0);
        }
        Table { keys, values }
    }
}

impl Clone for Value {
    /// A copy of the whole tree below this node.
    fn clone(&self) -> (r: Value)
        ensures
            r@ == self@,
        decreases self, 1nat,
    {
        match self {
            Value::String(s) => Value::String(s.clone()),
            Value::Integer(i) => Value::Integer(*i),
            Value::Float(bits) => Value::Float(*bits),
            Value::Boolean(b) => Value::Boolean(*b),
            Value::Datetime(s) => Value::Datetime(s.clone()),
            Value::Array(items) => {
                let n = items.len();
                let mut copies: Vec<Value> = Vec::new();
                let mut i: usize = 0;
                while i < n
                    invariant
                        *self == Value::Array(*items),
                        n == items@.len(),
                        i <= n,
                        copies@.len() == i,
                        forall|j: int| 0 <= j < i ==> #[trigger] copies@[j]@ == items@[j]@,
                    decreases n - i,
                {
                    assert(decreases_to!(*self => self->Array_0@[i as int]));
                    copies.push(items[i].clone());
                    i += 1;
                }
                proof {
                    lemma_array_view(*items);
                    lemma_array_view(copies);
                    assert(nodes_of(copies@) =~= nodes_of(items@));
                }
                Value::Array(copies)
            },
            Value::Table(t) => Value::Table(t.clone()),
        }
    }
}

/// A key of the map is one of the keys from position `from` on.
proof fn lemma_bindings_key(keys: Seq<String>, values: Vec<Value>, from: nat, k: Seq<char>)
    requires
        keys.len() == values@.len(),
        bindings(keys, values, from).dom().contains(k),
    ensures
        exists|i: int| from <= i < values@.len() && #[trigger] keys[i]@ == k,
{
    if !(exists|i: int| from <= i < values@.len() && #[trigger] keys[i]@ == k) {
        lemma_bindings_absent(keys, values, from, k);
    }
}

/// Whether two tables stand for the same map.
fn same_table(a: &Table, b: &Table) -> (r: bool)
    ensures
        r == (a@ == b@),
    decreases a, 0nat,
{
    proof {
        use_type_invariant(a);
        use_type_invariant(b);
        lemma_bindings_count(a.keys@, a.values, 0);
        lemma_bindings_count(b.keys@, b.values, 0);
    }
    let n = a.values.len();
    if n != b.values.len() {
        return false;
    }
    let mut i: usize = 0;
    while i < n
        invariant
            a.keys_distinct(),
            n == a.values@.len(),
            i <= n,
            forall|j: int|
                0 <= j < i ==> b@.dom().contains(#[trigger] a.keys@[j]@) && b@[a.keys@[j]@]
                    == a.values@[j]@,
        decreases n - i,
    {
        proof {
            lemma_bindings_present(a.keys@, a.values, 0, i as int);
        }
        match b.get(a.keys[i].as_str()) {
            None => {
                return false;
            },
            Some(v) => {
                assert(decreases_to!(a => a.values@[i as int]));
                if !same_value(&a.values[i], v) {
                    return false;
                }
            },
        }
        i += 1;
    }
    proof {
        assert forall|k: Seq<char>| #[trigger]
            a@.dom().contains(k) implies b@.dom().contains(k) && a@[k] == b@[k] by {
            lemma_bindings_key(a.keys@, a.values, 0, k);
            let j = choose|j: int| 0 <= j < a.values@.len() && #[trigger] a.keys@[j]@ == k;
            lemma_bindings_present(a.keys@, a.values, 0, j);
        }
        assert(a@.dom().subset_of(b@.dom()));
        vstd::set_lib::lemma_subset_equality(a@.dom(), b@.dom());
        assert(a@ =~= b@);
    }
    true
}

/// Whether two nodes stand for the same document.
fn same_value(a: &Value, b: &Value) -> (r: bool)
    ensures
        r == (a@ == b@),
    decreases a, 1nat,
{
    match (a, b) {
        (Value::String(x), Value::String(y)) => *x == *y,
        (Value::Integer(x), Value::Integer(y)) => *x == *y,
        (Value::Float(x), Value::Float(y)) => *x == *y,
        (Value::Boolean(x), Value::Boolean(y)) => *x == *y,
        (Value::Datetime(x), Value::Datetime(y)) => *x == *y,
        (Value::Array(x), Value::Array(y)) => {
            proof {
                lemma_array_view(*x);
                lemma_array_view(*y);
            }
            let n = x.len();
            if n != y.len() {
                assert(nodes_of(x@).len() != nodes_of(y@).len());
                return false;
            }
            let mut i: usize = 0;
            while i < n
                invariant
                    *a == Value::Array(*x),
                    n == x@.len(),
                    n == y@.len(),
                    i <= n,
                    a@ == Node::Array(nodes_of(x@)),
                    b@ == Node::Array(nodes_of(y@)),
                    forall|j: int| 0 <= j < i ==> #[trigger] x@[j]@ == y@[j]@,
                decreases n - i,
            {
                assert(decreases_to!(*a => a->Array_0@[i as int]));
                if !same_value(&x[i], &y[i]) {
                    assert(nodes_of(x@)[i as int] != nodes_of(y@)[i as int]);
                    return false;
                }
                i += 1;
            }
            assert(nodes_of(x@) =~= nodes_of(y@));
            true
        },
        (Value::Table(x), Value::Table(y)) => same_table(x, y),
        _ => false,
    }
}

impl PartialEq for Table {
    fn eq(&self, other: &Table) -> (r: bool) {
        same_table(self, other)
    }
}

impl vstd::std_specs::cmp::PartialEqSpecImpl for Table {
    open spec fn obeys_eq_spec() -> bool {
        true
    }

    open spec fn eq_spec(&self, other: &Table) -> bool {
        self@ == other@
    }
}

impl PartialEq for Value {
    fn eq(&self, other: &Value) -> (r: bool) {
        same_value(self, other)
    }
}

impl vstd::std_specs::cmp::PartialEqSpecImpl for Value {
    open spec fn obeys_eq_spec() -> bool {
        true
    }

    open spec fn eq_spec(&self, other: &Value) -> bool {
        self@ == other@
    }
}

} // verus!
