//! The value tree that composition builds: scalars resolved by a tag
//! resolution scheme, sequences, and insertion-ordered mappings whose keys
//! are unique. A float is kept as its spelling.
use vstd::prelude::*;

verus! {

/// A composed YAML value.
#[derive(Debug)]
pub enum ValueTree {
    /// Null.
    Null,
    /// A boolean.
    Bool(bool),
    /// A signed 64-bit integer.
    Integer(i64),
    /// A float, as its spelling (to be read as an `f64`).
    Float(String),
    /// Positive infinity.
    Infinity,
    /// Negative infinity.
    NegInfinity,
    /// Not a number.
    NaN,
    /// A string.
    Str(String),
    /// A sequence of values.
    Sequence(Vec<ValueTree>),
    /// Key/value pairs in insertion order, keys unique.
    Mapping(Vec<(ValueTree, ValueTree)>),
}

/// A value tree as plain values.
pub enum NodeView {
    /// Null.
    Null,
    /// A boolean.
    Bool(bool),
    /// An integer.
    Integer(int),
    /// A float spelling.
    Float(Seq<char>),
    /// Positive infinity.
    Infinity,
    /// Negative infinity.
    NegInfinity,
    /// Not a number.
    NaN,
    /// A string.
    Str(Seq<char>),
    /// A sequence.
    Sequence(Seq<NodeView>),
    /// A mapping.
    Mapping(Seq<(NodeView, NodeView)>),
}

/// The plain view of a value tree.
pub open spec fn tree_view(t: ValueTree) -> NodeView
    decreases t,
{
    match t {
        ValueTree::Null => NodeView::Null,
        ValueTree::Bool(b) => NodeView::Bool(b),
        ValueTree::Integer(n) => NodeView::Integer(n as int),
        ValueTree::Float(s) => NodeView::Float(s@),
        ValueTree::Infinity => NodeView::Infinity,
        ValueTree::NegInfinity => NodeView::NegInfinity,
        ValueTree::NaN => NodeView::NaN,
        ValueTree::Str(s) => NodeView::Str(s@),
        ValueTree::Sequence(v) => {
            proof {
                assert(decreases_to!(t => v));
                assert(decreases_to!(v => v@));
            }
            NodeView::Sequence(trees_view(v@, 0))
        },
        ValueTree::Mapping(v) => {
            proof {
                assert(decreases_to!(t => v));
                assert(decreases_to!(v => v@));
            }
            NodeView::Mapping(pairs_view(v@, 0))
        },
    }
}

/// The plain views of `s[i..]`.
pub open spec fn trees_view(s: Seq<ValueTree>, i: int) -> Seq<NodeView>
    decreases s, s.len() - i,
{
    if i < 0 || i >= s.len() {
        seq![]
    } else {
        proof {
            assert(decreases_to!(s => s[i]));
        }
        seq![tree_view(s[i])] + trees_view(s, i + 1)
    }
}

/// The plain views of the pairs `s[i..]`.
pub open spec fn pairs_view(s: Seq<(ValueTree, ValueTree)>, i: int) -> Seq<(NodeView, NodeView)>
    decreases s, s.len() - i,
{
    if i < 0 || i >= s.len() {
        seq![]
    } else {
        proof {
            assert(decreases_to!(s => s[i]));
            assert(decreases_to!(s[i] => s[i].0));
            assert(decreases_to!(s[i] => s[i].1));
        }
        seq![(tree_view(s[i].0), tree_view(s[i].1))] + pairs_view(s, i + 1)
    }
}

/// Whether a NaN occurs anywhere in the value.
pub open spec fn contains_nan(v: NodeView) -> bool
    decreases v,
{
    match v {
        NodeView::NaN => true,
        NodeView::Sequence(s) => any_nan(s, 0),
        NodeView::Mapping(m) => pairs_nan(m, 0),
        _ => false,
    }
}

/// Whether a NaN occurs in `s[i..]`.
pub open spec fn any_nan(s: Seq<NodeView>, i: int) -> bool
    decreases s, s.len() - i,
{
    if i < 0 || i >= s.len() {
        false
    } else {
        proof {
            assert(decreases_to!(s => s[i]));
        }
        contains_nan(s[i]) || any_nan(s, i + 1)
    }
}

/// Whether a NaN occurs in the pairs `s[i..]`.
pub open spec fn pairs_nan(s: Seq<(NodeView, NodeView)>, i: int) -> bool
    decreases s, s.len() - i,
{
    if i < 0 || i >= s.len() {
        false
    } else {
        proof {
            assert(decreases_to!(s => s[i]));
            assert(decreases_to!(s[i] => s[i].0));
            assert(decreases_to!(s[i] => s[i].1));
        }
        contains_nan(s[i].0) || contains_nan(s[i].1) || pairs_nan(s, i + 1)
    }
}

/// Whether two values are equal as mapping keys: the same value, with no
/// NaN in it (NaN equals nothing, itself included). Floats compare by
/// spelling.
pub open spec fn key_match(a: NodeView, b: NodeView) -> bool {
    a == b && !contains_nan(a)
}

/// The first index in `m[i..]` whose key matches `k`, or `m.len()`.
pub open spec fn find_key(m: Seq<(NodeView, NodeView)>, k: NodeView, i: int) -> int
    decreases m.len() - i,
{
    if i < 0 || i >= m.len() {
        m.len() as int
    } else if key_match(m[i].0, k) {
        i
    } else {
        find_key(m, k, i + 1)
    }
}

/// A mapping with `k` set to `v`: the value of a matching key is replaced
/// in place (the key kept), otherwise the pair is appended.
pub open spec fn map_insert(m: Seq<(NodeView, NodeView)>, k: NodeView, v: NodeView) -> Seq<(NodeView, NodeView)> {
    let j = find_key(m, k, 0);
    if 0 <= j < m.len() {
        m.update(j, (m[j].0, v))
    } else {
        m.push((k, v))
    }
}

/// The pairs `ps` inserted into `m` in order.
pub open spec fn insert_all(m: Seq<(NodeView, NodeView)>, ps: Seq<(NodeView, NodeView)>) -> Seq<(NodeView, NodeView)>
    decreases ps.len(),
{
    if ps.len() == 0 {
        m
    } else {
        map_insert(insert_all(m, ps.drop_last()), ps.last().0, ps.last().1)
    }
}

pub proof fn lemma_trees_view(s: Seq<ValueTree>, i: int)
    requires
        0 <= i <= s.len(),
    ensures
        trees_view(s, i).len() == s.len() - i,
        forall|k: int| 0 <= k < s.len() - i ==> #[trigger] trees_view(s, i)[k] == tree_view(s[i + k]),
    decreases s.len() - i,
{
    if i < s.len() {
        lemma_trees_view(s, i + 1);
        assert forall|k: int| 0 <= k < s.len() - i implies #[trigger] trees_view(s, i)[k] == tree_view(s[i + k]) by {
            if k > 0 {
                assert(trees_view(s, i)[k] == trees_view(s, i + 1)[k - 1]);
            }
        }
    }
}

pub proof fn lemma_pairs_view(s: Seq<(ValueTree, ValueTree)>, i: int)
    requires
        0 <= i <= s.len(),
    ensures
        pairs_view(s, i).len() == s.len() - i,
        forall|k: int|
            0 <= k < s.len() - i ==> #[trigger] pairs_view(s, i)[k] == (tree_view(s[i + k].0), tree_view(s[i + k].1)),
    decreases s.len() - i,
{
    if i < s.len() {
        lemma_pairs_view(s, i + 1);
        assert forall|k: int| 0 <= k < s.len() - i implies #[trigger] pairs_view(s, i)[k] == (
        tree_view(s[i + k].0),
        tree_view(s[i + k].1),
        ) by {
            if k > 0 {
                assert(pairs_view(s, i)[k] == pairs_view(s, i + 1)[k - 1]);
            }
        }
    }
}

proof fn lemma_any_nan(s: Seq<NodeView>, i: int)
    requires
        0 <= i <= s.len(),
    ensures
        any_nan(s, i) == exists|k: int| i <= k < s.len() && #[trigger] contains_nan(s[k]),
    decreases s.len() - i,
{
    if i < s.len() {
        lemma_any_nan(s, i + 1);
        if contains_nan(s[i]) {
            assert(i <= i < s.len() && contains_nan(s[i]));
        } else {
            assert forall|k: int| i <= k < s.len() && #[trigger] contains_nan(s[k]) implies i + 1 <= k < s.len()
                && contains_nan(s[k]) by {}
        }
    }
}

proof fn lemma_pairs_nan(s: Seq<(NodeView, NodeView)>, i: int)
    requires
        0 <= i <= s.len(),
    ensures
        pairs_nan(s, i) == exists|k: int| i <= k < s.len() && (contains_nan(#[trigger] s[k].0) || contains_nan(s[k].1)),
    decreases s.len() - i,
{
    if i < s.len() {
        lemma_pairs_nan(s, i + 1);
        if contains_nan(s[i].0) || contains_nan(s[i].1) {
            assert(i <= i < s.len() && (contains_nan(s[i].0) || contains_nan(s[i].1)));
        } else {
            assert forall|k: int| i <= k < s.len() && (contains_nan(#[trigger] s[k].0) || contains_nan(s[k].1))
                implies i + 1 <= k < s.len() && (contains_nan(s[k].0) || contains_nan(s[k].1)) by {}
        }
    }
}

proof fn lemma_pairs_nan_at(s: Seq<(NodeView, NodeView)>, i: int, k: int)
    requires
        0 <= i <= k < s.len(),
        contains_nan(s[k].0) || contains_nan(s[k].1),
    ensures
        pairs_nan(s, i),
    decreases k - i,
{
    if i < k {
        lemma_pairs_nan_at(s, i + 1, k);
    }
}

proof fn lemma_find_key(m: Seq<(NodeView, NodeView)>, k: NodeView, i: int)
    requires
        0 <= i <= m.len(),
    ensures
        i <= find_key(m, k, i) <= m.len(),
        find_key(m, k, i) < m.len() ==> key_match(m[find_key(m, k, i)].0, k),
        forall|j: int| i <= j < find_key(m, k, i) ==> !key_match(#[trigger] m[j].0, k),
    decreases m.len() - i,
{
    if i < m.len() {
        lemma_find_key(m, k, i + 1);
    }
}

/// A copy of a value tree.
#[verifier::loop_isolation(false)]
pub fn clone_tree(t: &ValueTree) -> (r: ValueTree)
    ensures
        tree_view(r) == tree_view(*t),
    decreases t,
{
    match t {
        ValueTree::Null => ValueTree::Null,
        ValueTree::Bool(b) => ValueTree::Bool(*b),
        ValueTree::Integer(n) => ValueTree::Integer(*n),
        ValueTree::Float(s) => ValueTree::Float(s.clone()),
        ValueTree::Infinity => ValueTree::Infinity,
        ValueTree::NegInfinity => ValueTree::NegInfinity,
        ValueTree::NaN => ValueTree::NaN,
        ValueTree::Str(s) => ValueTree::Str(s.clone()),
        ValueTree::Sequence(v) => {
            let mut out: Vec<ValueTree> = Vec::new();
            let mut i: usize = 0;
            while i < v.len()
                invariant
                    i <= v@.len(),
                    out@.len() == i,
                    forall|k: int| 0 <= k < i ==> #[trigger] tree_view(out@[k]) == tree_view(v@[k]),
                decreases v@.len() - i,
            {
                proof {
                    assert(decreases_to!(*t => *v));
                    assert(decreases_to!(*v => v@));
                    assert(decreases_to!(v@ => v@[i as int]));
                }
                let c = clone_tree(&v[i]);
                out.push(c);
                i = i + 1;
            }
            proof {
                lemma_trees_view(out@, 0);
                lemma_trees_view(v@, 0);
                assert(trees_view(out@, 0) =~= trees_view(v@, 0));
            }
            ValueTree::Sequence(out)
        },
        ValueTree::Mapping(v) => {
            let mut out: Vec<(ValueTree, ValueTree)> = Vec::new();
            let mut i: usize = 0;
            while i < v.len()
                invariant
                    i <= v@.len(),
                    out@.len() == i,
                    forall|k: int|
                        0 <= k < i ==> #[trigger] tree_view(out@[k].0) == tree_view(v@[k].0) && tree_view(out@[k].1)
                            == tree_view(v@[k].1),
                decreases v@.len() - i,
            {
                proof {
                    assert(decreases_to!(*t => *v));
                    assert(decreases_to!(*v => v@));
                    assert(decreases_to!(v@ => v@[i as int]));
                    assert(decreases_to!(v@[i as int] => v@[i as int].0));
                    assert(decreases_to!(v@[i as int] => v@[i as int].1));
                }
                let a = clone_tree(&v[i].0);
                let b = clone_tree(&v[i].1);
                out.push((a, b));
                i = i + 1;
            }
            proof {
                lemma_pairs_view(out@, 0);
                lemma_pairs_view(v@, 0);
                assert(pairs_view(out@, 0) =~= pairs_view(v@, 0));
            }
            ValueTree::Mapping(out)
        },
    }
}

/// Whether a NaN occurs anywhere in the tree.
#[verifier::loop_isolation(false)]
pub fn has_nan(t: &ValueTree) -> (r: bool)
    ensures
        r == contains_nan(tree_view(*t)),
    decreases t,
{
    match t {
        ValueTree::NaN => true,
        ValueTree::Sequence(v) => {
            let mut i: usize = 0;
            proof {
                lemma_trees_view(v@, 0);
                lemma_any_nan(trees_view(v@, 0), 0);
            }
            while i < v.len()
                invariant
                    i <= v@.len(),
                    trees_view(v@, 0).len() == v@.len(),
                    forall|k: int| 0 <= k < v@.len() ==> #[trigger] trees_view(v@, 0)[k] == tree_view(v@[k]),
                    forall|k: int| 0 <= k < i ==> !contains_nan(#[trigger] trees_view(v@, 0)[k]),
                    any_nan(trees_view(v@, 0), 0) == exists|k: int|
                        0 <= k < trees_view(v@, 0).len() && #[trigger] contains_nan(trees_view(v@, 0)[k]),
                decreases v@.len() - i,
            {
                proof {
                    assert(decreases_to!(*t => *v));
                    assert(decreases_to!(*v => v@));
                    assert(decreases_to!(v@ => v@[i as int]));
                }
                if has_nan(&v[i]) {
                    assert(contains_nan(trees_view(v@, 0)[i as int]));
                    return true;
                }
                i = i + 1;
            }
            false
        },
        ValueTree::Mapping(v) => {
            let mut i: usize = 0;
            proof {
                lemma_pairs_view(v@, 0);
                lemma_pairs_nan(pairs_view(v@, 0), 0);
            }
            while i < v.len()
                invariant
                    i <= v@.len(),
                    pairs_view(v@, 0).len() == v@.len(),
                    forall|k: int|
                        0 <= k < v@.len() ==> #[trigger] pairs_view(v@, 0)[k] == (tree_view(v@[k].0), tree_view(v@[k].1)),
                    forall|k: int| 0 <= k < i ==> !contains_nan(#[trigger] pairs_view(v@, 0)[k].0),
                    forall|k: int| 0 <= k < i ==> !contains_nan(#[trigger] pairs_view(v@, 0)[k].1),
                    pairs_nan(pairs_view(v@, 0), 0) == exists|k: int|
                        0 <= k < pairs_view(v@, 0).len() && (contains_nan(#[trigger] pairs_view(v@, 0)[k].0)
                            || contains_nan(pairs_view(v@, 0)[k].1)),
                decreases v@.len() - i,
            {
                proof {
                    assert(decreases_to!(*t => *v));
                    assert(decreases_to!(*v => v@));
                    assert(decreases_to!(v@ => v@[i as int]));
                    assert(decreases_to!(v@[i as int] => v@[i as int].0));
                    assert(decreases_to!(v@[i as int] => v@[i as int].1));
                }
                let a = has_nan(&v[i].0);
                let b = has_nan(&v[i].1);
                assert(pairs_view(v@, 0)[i as int] == (tree_view(v@[i as int].0), tree_view(v@[i as int].1)));
                assert(a == contains_nan(tree_view(v@[i as int].0)));
                assert(b == contains_nan(tree_view(v@[i as int].1)));
                if a || b {
                    assert(contains_nan(pairs_view(v@, 0)[i as int].0) || contains_nan(pairs_view(v@, 0)[i as int].1));
                    proof { lemma_pairs_nan_at(pairs_view(v@, 0), 0, i as int); }
                    assert(tree_view(*t) == NodeView::Mapping(pairs_view(v@, 0)));
                    return true;
                }
                assert(!contains_nan(pairs_view(v@, 0)[i as int].0));
                assert(!contains_nan(pairs_view(v@, 0)[i as int].1));
                i = i + 1;
            }
            false
        },
        _ => false,
    }
}

fn str_eq(a: &String, b: &String) -> (r: bool)
    ensures
        r == (a@ == b@),
{
    let x = a.as_str();
    let y = b.as_str();
    let n = x.unicode_len();
    if n != y.unicode_len() {
        return false;
    }
    let mut i: usize = 0;
    while i < n
        invariant
            n == x@.len(),
            n == y@.len(),
            i <= n,
            x@ == a@,
            y@ == b@,
            forall|k: int| 0 <= k < i ==> x@[k] == y@[k],
        decreases n - i,
    {
        if x.get_char(i) != y.get_char(i) {
            return false;
        }
        i = i + 1;
    }
    assert(x@ =~= y@);
    true
}

/// Structural equality of two trees.
#[verifier::loop_isolation(false)]
fn same_tree(a: &ValueTree, b: &ValueTree) -> (r: bool)
    ensures
        r == (tree_view(*a) == tree_view(*b)),
    decreases a,
{
    match (a, b) {
        (ValueTree::Null, ValueTree::Null) => true,
        (ValueTree::Bool(x), ValueTree::Bool(y)) => *x == *y,
        (ValueTree::Integer(x), ValueTree::Integer(y)) => *x == *y,
        (ValueTree::Float(x), ValueTree::Float(y)) => str_eq(x, y),
        (ValueTree::Infinity, ValueTree::Infinity) => true,
        (ValueTree::NegInfinity, ValueTree::NegInfinity) => true,
        (ValueTree::NaN, ValueTree::NaN) => true,
        (ValueTree::Str(x), ValueTree::Str(y)) => str_eq(x, y),
        (ValueTree::Sequence(x), ValueTree::Sequence(y)) => {
            proof {
                lemma_trees_view(x@, 0);
                lemma_trees_view(y@, 0);
            }
            if x.len() != y.len() {
                return false;
            }
            let mut i: usize = 0;
            while i < x.len()
                invariant
                    i <= x@.len(),
                    x@.len() == y@.len(),
                    trees_view(x@, 0).len() == x@.len(),
                    trees_view(y@, 0).len() == y@.len(),
                    forall|k: int| 0 <= k < x@.len() ==> #[trigger] trees_view(x@, 0)[k] == tree_view(x@[k]),
                    forall|k: int| 0 <= k < y@.len() ==> #[trigger] trees_view(y@, 0)[k] == tree_view(y@[k]),
                    forall|k: int| 0 <= k < i ==> tree_view(#[trigger] x@[k]) == tree_view(y@[k]),
                decreases x@.len() - i,
            {
                proof {
                    assert(decreases_to!(*a => *x));
                    assert(decreases_to!(*x => x@));
                    assert(decreases_to!(x@ => x@[i as int]));
                }
                if !same_tree(&x[i], &y[i]) {
                    assert(trees_view(x@, 0)[i as int] != trees_view(y@, 0)[i as int]);
                    return false;
                }
                i = i + 1;
            }
            assert(trees_view(x@, 0) =~= trees_view(y@, 0));
            true
        },
        (ValueTree::Mapping(x), ValueTree::Mapping(y)) => {
            proof {
                lemma_pairs_view(x@, 0);
                lemma_pairs_view(y@, 0);
            }
            if x.len() != y.len() {
                return false;
            }
            let mut i: usize = 0;
            while i < x.len()
                invariant
                    i <= x@.len(),
                    x@.len() == y@.len(),
                    pairs_view(x@, 0).len() == x@.len(),
                    pairs_view(y@, 0).len() == y@.len(),
                    forall|k: int|
                        0 <= k < x@.len() ==> #[trigger] pairs_view(x@, 0)[k] == (tree_view(x@[k].0), tree_view(x@[k].1)),
                    forall|k: int|
                        0 <= k < y@.len() ==> #[trigger] pairs_view(y@, 0)[k] == (tree_view(y@[k].0), tree_view(y@[k].1)),
                    forall|k: int|
                        0 <= k < i ==> tree_view(#[trigger] x@[k].0) == tree_view(y@[k].0) && tree_view(x@[k].1)
                            == tree_view(y@[k].1),
                decreases x@.len() - i,
            {
                proof {
                    assert(decreases_to!(*a => *x));
                    assert(decreases_to!(*x => x@));
                    assert(decreases_to!(x@ => x@[i as int]));
                    assert(decreases_to!(x@[i as int] => x@[i as int].0));
                    assert(decreases_to!(x@[i as int] => x@[i as int].1));
                }
                if !same_tree(&x[i].0, &y[i].0) || !same_tree(&x[i].1, &y[i].1) {
                    assert(pairs_view(x@, 0)[i as int] != pairs_view(y@, 0)[i as int]);
                    return false;
                }
                i = i + 1;
            }
            assert(pairs_view(x@, 0) =~= pairs_view(y@, 0));
            true
        },
        _ => false,
    }
}

/// Whether two trees are equal as mapping keys (see [`key_match`]).
pub fn keys_equal(a: &ValueTree, b: &ValueTree) -> (r: bool)
    ensures
        r == key_match(tree_view(*a), tree_view(*b)),
{
    same_tree(a, b) && !has_nan(a)
}

/// Sets `key` to `value` in the mapping `m`: replaces the value of a
/// matching key (keeping that key), or appends the pair.
pub fn mapping_insert(m: &mut Vec<(ValueTree, ValueTree)>, key: ValueTree, value: ValueTree)
    ensures
        pairs_view(final(m)@, 0) == map_insert(pairs_view(old(m)@, 0), tree_view(key), tree_view(value)),
{
    let ghost pv = pairs_view(m@, 0);
    proof {
        lemma_pairs_view(m@, 0);
        lemma_find_key(pv, tree_view(key), 0);
    }
    let mut i: usize = 0;
    while i < m.len()
        invariant
            i <= m@.len(),
            m@ == old(m)@,
            pv == pairs_view(m@, 0),
            pv.len() == m@.len(),
            forall|k: int| 0 <= k < m@.len() ==> #[trigger] pv[k] == (tree_view(m@[k].0), tree_view(m@[k].1)),
            forall|j: int| 0 <= j < i ==> !key_match(#[trigger] pv[j].0, tree_view(key)),
            find_key(pv, tree_view(key), 0) >= i,
            0 <= find_key(pv, tree_view(key), 0) <= pv.len(),
            find_key(pv, tree_view(key), 0) < pv.len() ==> key_match(pv[find_key(pv, tree_view(key), 0)].0, tree_view(key)),
            forall|j: int| 0 <= j < find_key(pv, tree_view(key), 0) ==> !key_match(#[trigger] pv[j].0, tree_view(key)),
        decreases m@.len() - i,
    {
        if keys_equal(&m[i].0, &key) {
            assert(find_key(pv, tree_view(key), 0) == i);
            let k0 = clone_tree(&m[i].0);
            let ghost before = m@;
            m.set(i, (k0, value));
            proof {
                lemma_pairs_view(m@, 0);
                assert(pairs_view(m@, 0) =~= pv.update(i as int, (pv[i as int].0, tree_view(value))));
            }
            return;
        }
        i = i + 1;
    }
    let ghost kv = tree_view(key);
    let ghost vv = tree_view(value);
    m.push((key, value));
    proof {
        lemma_pairs_view(m@, 0);
        assert(pairs_view(m@, 0) =~= pv.push((kv, vv)));
    }
}

} // verus!
