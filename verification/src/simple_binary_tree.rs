use vstd::prelude::*;

verus! {

broadcast use vstd::set::group_set_axioms, vstd::map::group_map_axioms;

/// One entry of the tree: a key, its value and the owned child subtrees.
struct Node<V> {
    key: i64,
    value: V,
    left: Option<Box<Node<V>>>,
    right: Option<Box<Node<V>>>,
}

/// An ordered key-value store kept as a plain unbalanced binary search tree,
/// without parent back-references.
pub struct BinaryTree<V> {
    root: Option<Box<Node<V>>>,
}

/// The order in which `traverse` visits a node relative to its subtrees:
/// node-left-right, left-node-right, or left-right-node.
pub enum TraverseDirection {
    NLR,
    LNR,
    LRN,
}

/// The key/value entries stored in an optional subtree.
spec fn map_of<V>(sub: Option<Box<Node<V>>>) -> Map<i64, V>
    decreases sub,
{
    match sub {
        None => Map::empty(),
        Some(n) => map_of(n.left).union_prefer_right(map_of(n.right)).insert(n.key, n.value),
    }
}

/// Strict ordering of keys below every node.
spec fn sub_wf<V>(sub: Option<Box<Node<V>>>) -> bool
    decreases sub,
{
    match sub {
        None => true,
        Some(n) => {
            &&& forall|k: i64| map_of(n.left).dom().contains(k) ==> k < n.key
            &&& forall|k: i64| map_of(n.right).dom().contains(k) ==> k > n.key
            &&& sub_wf(n.left)
            &&& sub_wf(n.right)
        }
    }
}

/// Keys in node-left-right order.
spec fn keys_nlr<V>(sub: Option<Box<Node<V>>>) -> Seq<i64>
    decreases sub,
{
    match sub {
        None => Seq::empty(),
        Some(n) => seq![n.key] + keys_nlr(n.left) + keys_nlr(n.right),
    }
}

/// Keys in left-node-right order.
spec fn keys_lnr<V>(sub: Option<Box<Node<V>>>) -> Seq<i64>
    decreases sub,
{
    match sub {
        None => Seq::empty(),
        Some(n) => keys_lnr(n.left) + seq![n.key] + keys_lnr(n.right),
    }
}

/// Keys in left-right-node order.
spec fn keys_lrn<V>(sub: Option<Box<Node<V>>>) -> Seq<i64>
    decreases sub,
{
    match sub {
        None => Seq::empty(),
        Some(n) => keys_lrn(n.left) + keys_lrn(n.right) + seq![n.key],
    }
}

impl<V> View for BinaryTree<V> {
    type V = Map<i64, V>;

    closed spec fn view(&self) -> Map<i64, V> {
        map_of(self.root)
    }
}

impl<V> BinaryTree<V> {
    /// Validity: the strict search ordering holds below every node.
    pub closed spec fn well_formed(self) -> bool {
        sub_wf(self.root)
    }

    /// The keys in node-left-right (pre-order) sequence.
    pub closed spec fn preorder_keys(self) -> Seq<i64> {
        keys_nlr(self.root)
    }

    /// The keys in left-node-right (in-order) sequence.
    pub closed spec fn inorder_keys(self) -> Seq<i64> {
        keys_lnr(self.root)
    }

    /// The keys in left-right-node (post-order) sequence.
    pub closed spec fn postorder_keys(self) -> Seq<i64> {
        keys_lrn(self.root)
    }

    pub fn new() -> (tree: Self)
        ensures
            tree.well_formed(),
            tree@ == Map::<i64, V>::empty(),
    {
        BinaryTree { root: None }
    }

    pub fn add(&mut self, key: i64, value: V)
        requires
            old(self).well_formed(),
        ensures
            final(self).well_formed(),
            final(self)@ == old(self)@.insert(key, value),
    {
        add_to(&mut self.root, key, value);
    }

    pub fn get(&self, key: i64) -> (r: Option<&V>)
        requires
            self.well_formed(),
        ensures
            r == (if self@.contains_key(key) {
                Some(&self@[key])
            } else {
                None::<&V>
            }),
    {
        find_in(&self.root, key)
    }

    pub fn remove(&mut self, key: i64) -> (r: Option<V>)
        requires
            old(self).well_formed(),
        ensures
            final(self).well_formed(),
            final(self)@ == old(self)@.remove(key),
            r == (if old(self)@.contains_key(key) {
                Some(old(self)@[key])
            } else {
                None::<V>
            }),
    {
        remove_from(&mut self.root, key)
    }

    /// Ordering law: the left-node-right traversal of a consistent tree
    /// lists each live key exactly once, in strictly increasing order.
    pub proof fn lemma_inorder_strictly_increasing(self)
        requires
            self.well_formed(),
        ensures
            crate::strictly_increasing(self.inorder_keys()),
            forall|k: i64| #[trigger] self.inorder_keys().contains(k) <==> self@.contains_key(k),
    {
        lemma_lnr_props(self.root);
    }

    /// The keys in the chosen visiting order.
    pub fn traverse(&self, direction: TraverseDirection) -> (r: Vec<i64>)
        requires
            self.well_formed(),
        ensures
            r@ == (match direction {
                TraverseDirection::NLR => self.preorder_keys(),
                TraverseDirection::LNR => self.inorder_keys(),
                TraverseDirection::LRN => self.postorder_keys(),
            }),
    {
        let mut out: Vec<i64> = Vec::new();
        match direction {
            TraverseDirection::NLR => push_keys_nlr(&self.root, &mut out),
            TraverseDirection::LNR => push_keys_lnr(&self.root, &mut out),
            TraverseDirection::LRN => push_keys_lrn(&self.root, &mut out),
        }
        proof {
            assert(out@ =~= (match direction {
                TraverseDirection::NLR => self.preorder_keys(),
                TraverseDirection::LNR => self.inorder_keys(),
                TraverseDirection::LRN => self.postorder_keys(),
            }));
        }
        out
    }
}

/// In-order keys of a consistent subtree are strictly increasing and cover
/// exactly the stored keys.
proof fn lemma_lnr_props<V>(sub: Option<Box<Node<V>>>)
    requires
        sub_wf(sub),
    ensures
        forall|k: i64| #[trigger] keys_lnr(sub).contains(k) <==> map_of(sub).dom().contains(k),
        crate::strictly_increasing(keys_lnr(sub)),
    decreases sub,
{
    match sub {
        None => {
            assert(map_of(sub).dom() =~= Set::<i64>::empty());
        }
        Some(n) => {
            lemma_lnr_props(n.left);
            lemma_lnr_props(n.right);
            let ls = keys_lnr(n.left);
            let rs = keys_lnr(n.right);
            let s = keys_lnr(sub);
            assert(s == ls + seq![n.key] + rs);
            assert forall|k: i64| #[trigger] s.contains(k) implies map_of(sub).dom().contains(k) by {
                let i = choose|i: int| 0 <= i < s.len() && s[i] == k;
                if i < ls.len() {
                    assert(ls.contains(k));
                } else if i > ls.len() {
                    assert(rs[i - ls.len() - 1] == k);
                    assert(rs.contains(k));
                }
            }
            assert forall|k: i64| map_of(sub).dom().contains(k) implies s.contains(k) by {
                if k == n.key {
                    assert(s[ls.len() as int] == k);
                } else if map_of(n.left).dom().contains(k) {
                    assert(ls.contains(k));
                    let i = choose|i: int| 0 <= i < ls.len() && ls[i] == k;
                    assert(s[i] == k);
                } else {
                    assert(map_of(n.right).dom().contains(k));
                    assert(rs.contains(k));
                    let i = choose|i: int| 0 <= i < rs.len() && rs[i] == k;
                    assert(s[ls.len() + 1 + i] == k);
                }
            }
            assert forall|i: int, j: int| 0 <= i < j < s.len() implies s[i] < s[j] by {
                let li = ls.len() as int;
                if i < li {
                    assert(ls.contains(ls[i]));
                    assert(s[i] < n.key);
                }
                if j < li {
                    assert(ls.contains(ls[j]));
                    assert(s[j] < n.key);
                }
                if i > li {
                    assert(rs.contains(rs[i - li - 1]));
                    assert(s[i] > n.key);
                }
                if j > li {
                    assert(rs.contains(rs[j - li - 1]));
                    assert(s[j] > n.key);
                }
            }
        }
    }
}

/// Point lookup by comparison descent.
fn find_in<'a, V>(sub: &'a Option<Box<Node<V>>>, key: i64) -> (r: Option<&'a V>)
    requires
        sub_wf(*sub),
    ensures
        r == (if map_of(*sub).contains_key(key) {
            Some(&map_of(*sub)[key])
        } else {
            None::<&V>
        }),
    decreases *sub,
{
    match sub {
        None => None,
        Some(n) => {
            if key == n.key {
                Some(&n.value)
            } else if key < n.key {
                proof {
                    assert(!map_of(n.right).dom().contains(key));
                }
                find_in(&n.left, key)
            } else {
                proof {
                    assert(!map_of(n.left).dom().contains(key));
                }
                find_in(&n.right, key)
            }
        }
    }
}

/// Insertion or in-place update under the last visited node.
fn add_to<V>(sub: &mut Option<Box<Node<V>>>, key: i64, value: V)
    requires
        sub_wf(*old(sub)),
    ensures
        sub_wf(*final(sub)),
        map_of(*final(sub)) =~= map_of(*old(sub)).insert(key, value),
    decreases *old(sub),
{
    match sub.take() {
        None => {
            *sub = Some(Box::new(Node { key, value, left: None, right: None }));
        }
        Some(mut n) => {
            if key == n.key {
                n.value = value;
                proof {
                    assert(!map_of(n.left).dom().contains(key));
                    assert(!map_of(n.right).dom().contains(key));
                }
            } else if key < n.key {
                add_to(&mut n.left, key, value);
                proof {
                    assert(!map_of(n.right).dom().contains(key));
                }
            } else {
                add_to(&mut n.right, key, value);
                proof {
                    assert(!map_of(n.left).dom().contains(key));
                }
            }
            *sub = Some(n);
        }
    }
}

/// Detaches the least entry of a non-empty subtree and returns it; the
/// detached node's right subtree fills the gap.
fn take_min<V>(sub: &mut Option<Box<Node<V>>>) -> (min: (i64, V))
    requires
        (*old(sub)) is Some,
        sub_wf(*old(sub)),
    ensures
        sub_wf(*final(sub)),
        map_of(*final(sub)) =~= map_of(*old(sub)).remove(min.0),
        map_of(*old(sub)).contains_key(min.0),
        map_of(*old(sub))[min.0] == min.1,
        forall|k: i64| map_of(*old(sub)).dom().contains(k) ==> min.0 <= k,
    decreases *old(sub),
{
    let mut n = sub.take().unwrap();
    if n.left.is_none() {
        *sub = n.right.take();
        proof {
            assert(map_of(n.left) =~= Map::<i64, V>::empty());
            assert(!map_of(*sub).dom().contains(n.key));
        }
        (n.key, n.value)
    } else {
        let min = take_min(&mut n.left);
        proof {
            assert(!map_of(n.right).dom().contains(min.0));
            assert(min.0 != n.key);
        }
        *sub = Some(n);
        min
    }
}

/// Keyed removal with the three structural cases: a childless node is
/// detached, a node with one child is replaced by it, and a node with two
/// children is replaced by the least entry of its right subtree.
fn remove_from<V>(sub: &mut Option<Box<Node<V>>>, key: i64) -> (r: Option<V>)
    requires
        sub_wf(*old(sub)),
    ensures
        sub_wf(*final(sub)),
        map_of(*final(sub)) =~= map_of(*old(sub)).remove(key),
        r == (if map_of(*old(sub)).contains_key(key) {
            Some(map_of(*old(sub))[key])
        } else {
            None::<V>
        }),
    decreases *old(sub),
{
    match sub.take() {
        None => None,
        Some(mut n) => {
            if key == n.key {
                proof {
                    assert(!map_of(n.left).dom().contains(key));
                    assert(!map_of(n.right).dom().contains(key));
                }
                let left = n.left.take();
                let mut right = n.right.take();
                if left.is_none() {
                    *sub = right;
                } else if right.is_none() {
                    *sub = left;
                } else {
                    let min = take_min(&mut right);
                    proof {
                        assert(forall|k: i64| map_of(right).dom().contains(k) ==> k > min.0);
                        assert(forall|k: i64| map_of(left).dom().contains(k) ==> k < min.0);
                    }
                    *sub = Some(Box::new(Node { key: min.0, value: min.1, left, right }));
                }
                Some(n.value)
            } else if key < n.key {
                proof {
                    assert(!map_of(n.right).dom().contains(key));
                }
                let r = remove_from(&mut n.left, key);
                *sub = Some(n);
                r
            } else {
                proof {
                    assert(!map_of(n.left).dom().contains(key));
                }
                let r = remove_from(&mut n.right, key);
                *sub = Some(n);
                r
            }
        }
    }
}

/// Appends the node-left-right keys of a subtree to `out`.
fn push_keys_nlr<V>(sub: &Option<Box<Node<V>>>, out: &mut Vec<i64>)
    ensures
        final(out)@ == old(out)@ + keys_nlr(*sub),
    decreases *sub,
{
    match sub {
        None => {
            proof {
                assert(old(out)@ + keys_nlr(*sub) =~= old(out)@);
            }
        }
        Some(n) => {
            out.push(n.key);
            push_keys_nlr(&n.left, out);
            push_keys_nlr(&n.right, out);
            proof {
                assert(final(out)@ =~= old(out)@ + keys_nlr(*sub));
            }
        }
    }
}

/// Appends the left-node-right keys of a subtree to `out`.
fn push_keys_lnr<V>(sub: &Option<Box<Node<V>>>, out: &mut Vec<i64>)
    ensures
        final(out)@ == old(out)@ + keys_lnr(*sub),
    decreases *sub,
{
    match sub {
        None => {
            proof {
                assert(old(out)@ + keys_lnr(*sub) =~= old(out)@);
            }
        }
        Some(n) => {
            push_keys_lnr(&n.left, out);
            out.push(n.key);
            push_keys_lnr(&n.right, out);
            proof {
                assert(final(out)@ =~= old(out)@ + keys_lnr(*sub));
            }
        }
    }
}

/// Appends the left-right-node keys of a subtree to `out`.
fn push_keys_lrn<V>(sub: &Option<Box<Node<V>>>, out: &mut Vec<i64>)
    ensures
        final(out)@ == old(out)@ + keys_lrn(*sub),
    decreases *sub,
{
    match sub {
        None => {
            proof {
                assert(old(out)@ + keys_lrn(*sub) =~= old(out)@);
            }
        }
        Some(n) => {
            push_keys_lrn(&n.left, out);
            push_keys_lrn(&n.right, out);
            out.push(n.key);
            proof {
                assert(final(out)@ =~= old(out)@ + keys_lrn(*sub));
            }
        }
    }
}

} // verus!
