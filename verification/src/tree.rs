use vstd::prelude::*;

verus! {

broadcast use {vstd::seq::group_seq_axioms, vstd::std_specs::vec::group_vec_axioms};

/// Mathematical model of a configuration tree: the payload of every
/// variant is a pure value (`Seq`-based), so contracts can speak of whole
/// documents without reference to heap containers.
pub enum TreeModel {
    Null,
    Bool(bool),
    Integer(i64),
    /// IEEE-754 bit pattern, carried opaquely: the engine never computes with it.
    Float(u64),
    Text(Seq<char>),
    Datetime(Seq<char>),
    Array(Seq<TreeModel>),
    Table(Seq<(Seq<char>, TreeModel)>),
}

/// Generic tree value: the universal intermediate representation for a
/// parsed configuration document. A table is a sequence of key/value
/// entries whose keys are unique (see `model_wf`), in insertion order.
#[derive(Debug)]
pub enum TreeValue {
    Null,
    Bool(bool),
    Integer(i64),
    /// IEEE-754 bit pattern, carried opaquely: the engine never computes with it.
    Float(u64),
    Text(String),
    Datetime(String),
    Array(Vec<TreeValue>),
    Table(Vec<(String, TreeValue)>),
}

/// The model of a tree value.
pub open spec fn tree_model(v: TreeValue) -> TreeModel
    decreases v,
    via tree_model_dec
{
    match v {
        TreeValue::Null => TreeModel::Null,
        TreeValue::Bool(b) => TreeModel::Bool(b),
        TreeValue::Integer(i) => TreeModel::Integer(i),
        TreeValue::Float(bits) => TreeModel::Float(bits),
        TreeValue::Text(s) => TreeModel::Text(s@),
        TreeValue::Datetime(s) => TreeModel::Datetime(s@),
        TreeValue::Array(items) => TreeModel::Array(
            Seq::new(
                items.len() as nat,
                |i: int|
                    if 0 <= i < items.len() {
                        tree_model(items[i])
                    } else {
                        TreeModel::Null
                    },
            ),
        ),
        TreeValue::Table(entries) => TreeModel::Table(
            Seq::new(
                entries.len() as nat,
                |i: int|
                    if 0 <= i < entries.len() {
                        (entries[i].0@, tree_model(entries[i].1))
                    } else {
                        (Seq::empty(), TreeModel::Null)
                    },
            ),
        ),
    }
}

#[via_fn]
proof fn tree_model_dec(v: TreeValue) {
    broadcast use {vstd::seq::group_seq_axioms, vstd::std_specs::vec::group_vec_axioms};

    match v {
        TreeValue::Array(items) => {
            assert forall|i: int| 0 <= i < items.len() implies decreases_to!(v =>
            items[i]) by {
                assert(decreases_to!(items => items[i]));
            }
        },
        TreeValue::Table(entries) => {
            assert forall|i: int| 0 <= i < entries.len() implies decreases_to!(v =>
            entries[i].1) by {
                assert(decreases_to!(entries => entries[i]));
            }
        },
        _ => {},
    }
}

impl View for TreeValue {
    type V = TreeModel;

    open spec fn view(&self) -> TreeModel {
        tree_model(*self)
    }
}

/// The keys of a table's entries are pairwise distinct.
pub open spec fn entries_unique_keys(entries: Seq<(Seq<char>, TreeModel)>) -> bool {
    forall|i: int, j: int|
        0 <= i < j < entries.len() ==> (#[trigger] entries[i]).0 != (#[trigger] entries[j]).0
}

/// Well-formedness of a tree: every table, at every depth, has unique keys.
pub open spec fn model_wf(m: TreeModel) -> bool
    decreases m,
{
    match m {
        TreeModel::Array(items) => forall|i: int|
            0 <= i < items.len() ==> model_wf(#[trigger] items[i]),
        TreeModel::Table(entries) => {
            &&& entries_unique_keys(entries)
            &&& forall|i: int| 0 <= i < entries.len() ==> model_wf((#[trigger] entries[i]).1)
        },
        _ => true,
    }
}

/// Whether some entry of `entries` has key `k`.
pub open spec fn tab_has_key(entries: Seq<(Seq<char>, TreeModel)>, k: Seq<char>) -> bool {
    exists|i: int| 0 <= i < entries.len() && (#[trigger] entries[i]).0 == k
}

/// The index of the entry with key `k` (meaningful when `tab_has_key` holds
/// and keys are unique).
pub open spec fn tab_index_of(entries: Seq<(Seq<char>, TreeModel)>, k: Seq<char>) -> int {
    choose|i: int| 0 <= i < entries.len() && (#[trigger] entries[i]).0 == k
}

/// The value bound to key `k` in `entries`.
pub open spec fn tab_get(entries: Seq<(Seq<char>, TreeModel)>, k: Seq<char>) -> TreeModel {
    entries[tab_index_of(entries, k)].1
}

/// An empty table: the identity-like base of the import folds.
pub open spec fn empty_table() -> TreeModel {
    TreeModel::Table(Seq::empty())
}

impl TreeValue {
    /// An empty table value.
    pub fn new_table() -> (r: TreeValue)
        ensures
            r@ == empty_table(),
            model_wf(r@),
    {
        let entries: Vec<(String, TreeValue)> = Vec::new();
        let r = TreeValue::Table(entries);
        proof {
            assert(r@->Table_0 =~= Seq::<(Seq<char>, TreeModel)>::empty());
        }
        r
    }
}

/// Index of the entry of `entries` whose key equals `k`, if any.
pub fn find_key(entries: &Vec<(String, TreeValue)>, k: &String) -> (r: Option<usize>)
    ensures
        match r {
            Some(i) => 0 <= i < entries.len() && entries[i as int].0@ == k@,
            None => forall|i: int| 0 <= i < entries.len() ==> (#[trigger] entries[i]).0@ != k@,
        },
{
    let mut i: usize = 0;
    while i < entries.len()
        invariant
            0 <= i <= entries.len(),
            forall|j: int| 0 <= j < i ==> (#[trigger] entries[j]).0@ != k@,
        decreases entries.len() - i,
    {
        if entries[i].0.eq(k) {
            return Some(i);
        }
        i = i + 1;
    }
    None
}

impl Clone for TreeValue {
    /// Deep copy: the clone models the same tree.
    fn clone(&self) -> (r: Self)
        ensures
            r@ == self@,
        decreases self,
    {
        match self {
            TreeValue::Null => TreeValue::Null,
            TreeValue::Bool(b) => TreeValue::Bool(*b),
            TreeValue::Integer(i) => TreeValue::Integer(*i),
            TreeValue::Float(bits) => TreeValue::Float(*bits),
            TreeValue::Text(s) => TreeValue::Text(s.clone()),
            TreeValue::Datetime(s) => TreeValue::Datetime(s.clone()),
            TreeValue::Array(items) => {
                let mut out: Vec<TreeValue> = Vec::new();
                let mut i: usize = 0;
                while i < items.len()
                    invariant
                        self is Array && self->Array_0 == *items,
                        0 <= i <= items.len(),
                        out.len() == i,
                        forall|j: int| 0 <= j < i ==> (#[trigger] out[j])@ == items[j]@,
                    decreases items.len() - i,
                {
                    proof {
                        assert(self->Array_0 == *items);
                        assert(decreases_to!(*self => self->Array_0));
                        assert(decreases_to!(*items => items@));
                        assert(decreases_to!(items@ => items@[i as int]));
                        assert(decreases_to!(*self => items@[i as int]));
                    }
                    out.push(items[i].clone());
                    i = i + 1;
                }
                let r = TreeValue::Array(out);
                proof {
                    assert(r@->Array_0 =~= self@->Array_0);
                }
                r
            },
            TreeValue::Table(entries) => {
                let mut out: Vec<(String, TreeValue)> = Vec::new();
                let mut i: usize = 0;
                while i < entries.len()
                    invariant
                        self is Table && self->Table_0 == *entries,
                        0 <= i <= entries.len(),
                        out.len() == i,
                        forall|j: int| 0 <= j < i ==> (#[trigger] out[j]).0@ == entries[j].0@
                            && out[j].1@ == entries[j].1@,
                    decreases entries.len() - i,
                {
                    proof {
                        assert(self->Table_0 == *entries);
                        assert(decreases_to!(*self => self->Table_0));
                        assert(decreases_to!(*entries => entries@));
                        assert(decreases_to!(entries@ => entries@[i as int]));
                        assert(decreases_to!(entries@[i as int] => entries@[i as int].1));
                        assert(decreases_to!(*self => entries@[i as int].1));
                    }
                    let entry = (entries[i].0.clone(), entries[i].1.clone());
                    out.push(entry);
                    i = i + 1;
                }
                let r = TreeValue::Table(out);
                proof {
                    assert(r@->Table_0 =~= self@->Table_0);
                }
                r
            },
        }
    }
}

} // verus!
