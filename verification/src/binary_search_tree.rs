use vstd::prelude::*;

verus! {

broadcast use vstd::set::group_set_axioms, vstd::map::group_map_axioms;

/// One entry of the tree: a key, its value, the key of the parent entry
/// (`None` at the root), and the owned child subtrees.
///
/// The parent field is a non-owning back-reference: keys are unique, so the
/// parent's key identifies the parent node.  It is bookkeeping only and is
/// never used to decide where a key lives.
struct Node<V> {
    key: i64,
    value: V,
    parent: Option<i64>,
    left: Option<Box<Node<V>>>,
    right: Option<Box<Node<V>>>,
}

/// An ordered map kept as an unbalanced binary search tree whose nodes carry
/// parent back-references.  `size` counts the live entries.
pub struct BinarySearchTree<V> {
    root: Option<Box<Node<V>>>,
    size: usize,
}

/// The key/value entries stored in an optional subtree.
spec fn map_of<V>(sub: Option<Box<Node<V>>>) -> Map<i64, V>
    decreases sub,
{
    match sub {
        None => Map::empty(),
        Some(n) => map_of(n.left).union_prefer_right(map_of(n.right)).insert(n.key, n.value),
    }
}

/// Internal consistency of a subtree: strict ordering of keys, and every
/// child's parent back-reference naming the node that owns it.
spec fn sub_wf<V>(sub: Option<Box<Node<V>>>) -> bool
    decreases sub,
{
    match sub {
        None => true,
        Some(n) => {
            &&& forall|k: i64| map_of(n.left).dom().contains(k) ==> k < n.key
            &&& forall|k: i64| map_of(n.right).dom().contains(k) ==> k > n.key
            &&& (n.left matches Some(l) ==> l.parent == Some(n.key))
            &&& (n.right matches Some(r) ==> r.parent == Some(n.key))
            &&& sub_wf(n.left)
            &&& sub_wf(n.right)
        }
    }
}

/// The parent back-reference stored at the top of an optional subtree.
spec fn top_parent<V>(sub: Option<Box<Node<V>>>) -> Option<i64> {
    match sub {
        None => None,
        Some(n) => n.parent,
    }
}

proof fn lemma_map_of_finite<V>(sub: Option<Box<Node<V>>>)
    ensures
        map_of(sub).dom().finite(),
    decreases sub,
{
    match sub {
        None => {
            assert(map_of(sub).dom() =~= Set::<i64>::empty());
        }
        Some(n) => {
            lemma_map_of_finite(n.left);
            lemma_map_of_finite(n.right);
            assert(map_of(sub).dom() =~= map_of(n.left).dom().union(map_of(n.right).dom()).insert(
                n.key,
            ));
        }
    }
}

impl<V> View for BinarySearchTree<V> {
    type V = Map<i64, V>;

    closed spec fn view(&self) -> Map<i64, V> {
        map_of(self.root)
    }
}

impl<V> BinarySearchTree<V> {
    /// Validity of the whole structure: the subtree is consistent, the root
    /// has no parent, and `size` agrees with the number of stored keys.
    pub closed spec fn well_formed(self) -> bool {
        &&& sub_wf(self.root)
        &&& top_parent(self.root) == None::<i64>
        &&& self@.dom().finite()
        &&& self.size == self@.dom().len()
    }

    pub fn new() -> (tree: Self)
        ensures
            tree.well_formed(),
            tree@ == Map::<i64, V>::empty(),
    {
        BinarySearchTree { root: None, size: 0 }
    }

    pub fn size(&self) -> (n: usize)
        requires
            self.well_formed(),
        ensures
            n == self@.dom().len(),
    {
        self.size
    }

    pub fn get(&self, key: &i64) -> (r: Option<&V>)
        requires
            self.well_formed(),
        ensures
            r == (if self@.contains_key(*key) {
                Some(&self@[*key])
            } else {
                None::<&V>
            }),
    {
        find_in(&self.root, *key)
    }

    pub fn get_mut(&mut self, key: &i64) -> (r: Option<&mut V>)
        requires
            old(self).well_formed(),
        ensures
            !old(self)@.contains_key(*key) ==> r is None && *final(self) == *old(self)
                && final(self).well_formed(),
            old(self)@.contains_key(*key) ==> r is Some && *r.unwrap() == old(self)@[*key]
                && final(self)@ == old(self)@.insert(*key, *final(r.unwrap()))
                && final(self).well_formed(),
    {
        find_in_mut(&mut self.root, *key)
    }

    pub fn put(&mut self, key: i64, value: V)
        requires
            old(self).well_formed(),
            old(self)@.dom().len() < usize::MAX,
        ensures
            final(self).well_formed(),
            final(self)@ == old(self)@.insert(key, value),
    {
        let added = insert_into(&mut self.root, None, key, value);
        if added {
            self.size = self.size + 1;
        }
        proof {
            assert(self@.dom() =~= old(self)@.dom().insert(key));
        }
    }

    pub fn remove(&mut self, key: &i64) -> (r: Option<V>)
        requires
            old(self).well_formed(),
        ensures
            final(self).well_formed(),
            final(self)@ == old(self)@.remove(*key),
            r == (if old(self)@.contains_key(*key) {
                Some(old(self)@[*key])
            } else {
                None::<V>
            }),
    {
        let r = remove_from(&mut self.root, *key);
        if r.is_some() {
            proof {
                assert(self@.dom() =~= old(self)@.dom().remove(*key));
            }
            self.size = self.size - 1;
        } else {
            proof {
                assert(self@.dom() =~= old(self)@.dom());
            }
        }
        r
    }
}

impl<V> crate::types::ReadonlyMap<i64, V> for BinarySearchTree<V> {
    open spec fn map_view(&self) -> Map<i64, V> {
        self.view()
    }

    open spec fn map_inv(&self) -> bool {
        self.well_formed()
    }

    fn get(&self, key: &i64) -> (r: Option<&V>) {
        BinarySearchTree::get(self, key)
    }

    fn size(&self) -> (n: usize) {
        BinarySearchTree::size(self)
    }
}

impl<V> crate::types::MutableMap<i64, V> for BinarySearchTree<V> {
    fn get_mut(&mut self, key: &i64) -> (r: Option<&mut V>) {
        BinarySearchTree::get_mut(self, key)
    }

    fn put(&mut self, key: i64, value: V) {
        BinarySearchTree::put(self, key, value)
    }

    fn remove(&mut self, key: &i64) -> (r: Option<V>) {
        BinarySearchTree::remove(self, key)
    }
}

/// The keys of a subtree as an in-order walk: left subtree, node, right
/// subtree.
spec fn keys_inorder<V>(sub: Option<Box<Node<V>>>) -> Seq<i64>
    decreases sub,
{
    match sub {
        None => Seq::empty(),
        Some(n) => keys_inorder(n.left) + seq![n.key] + keys_inorder(n.right),
    }
}

/// The node holding `key`, found by comparison descent.
spec fn find_node<V>(sub: Option<Box<Node<V>>>, key: i64) -> Option<Box<Node<V>>>
    decreases sub,
{
    match sub {
        None => None,
        Some(n) => {
            if key == n.key {
                Some(n)
            } else if key < n.key {
                find_node(n.left, key)
            } else {
                find_node(n.right, key)
            }
        }
    }
}

proof fn lemma_find_node_present<V>(sub: Option<Box<Node<V>>>, key: i64)
    requires
        sub_wf(sub),
        map_of(sub).dom().contains(key),
    ensures
        find_node(sub, key) is Some,
        find_node(sub, key).unwrap().key == key,
        find_node(sub, key).unwrap().value == map_of(sub)[key],
    decreases sub,
{
    let n = sub.unwrap();
    if key == n.key {
    } else if key < n.key {
        assert(!map_of(n.right).dom().contains(key));
        lemma_find_node_present(n.left, key);
    } else {
        assert(!map_of(n.left).dom().contains(key));
        lemma_find_node_present(n.right, key);
    }
}

/// In-order keys of a consistent subtree are strictly increasing, cover
/// exactly the stored keys, and count them.
proof fn lemma_inorder_props<V>(sub: Option<Box<Node<V>>>)
    requires
        sub_wf(sub),
    ensures
        forall|k: i64| #[trigger] keys_inorder(sub).contains(k) <==> map_of(sub).dom().contains(k),
        crate::strictly_increasing(keys_inorder(sub)),
        keys_inorder(sub).len() == map_of(sub).dom().len(),
    decreases sub,
{
    lemma_map_of_finite(sub);
    match sub {
        None => {
            assert(map_of(sub).dom() =~= Set::<i64>::empty());
        }
        Some(n) => {
            lemma_inorder_props(n.left);
            lemma_inorder_props(n.right);
            lemma_map_of_finite(n.left);
            lemma_map_of_finite(n.right);
            let ls = keys_inorder(n.left);
            let rs = keys_inorder(n.right);
            let s = keys_inorder(sub);
            assert(s == ls + seq![n.key] + rs);
            assert forall|k: i64| #[trigger] s.contains(k) implies map_of(sub).dom().contains(k) by {
                let i = choose|i: int| 0 <= i < s.len() && s[i] == k;
                if i < ls.len() {
                    assert(ls.contains(k));
                } else if i > ls.len() {
                    assert(rs[i - ls.len() - 1] == k);
                    assert(rs.contains(k));
                }
            }
            assert forall|k: i64| map_of(sub).dom().contains(k) implies s.contains(k) by {
                if k == n.key {
                    assert(s[ls.len() as int] == k);
                } else if map_of(n.left).dom().contains(k) {
                    assert(ls.contains(k));
                    let i = choose|i: int| 0 <= i < ls.len() && ls[i] == k;
                    assert(s[i] == k);
                } else {
                    assert(map_of(n.right).dom().contains(k));
                    assert(rs.contains(k));
                    let i = choose|i: int| 0 <= i < rs.len() && rs[i] == k;
                    assert(s[ls.len() + 1 + i] == k);
                }
            }
            assert forall|i: int, j: int| 0 <= i < j < s.len() implies s[i] < s[j] by {
                let li = ls.len() as int;
                if i < li {
                    assert(ls.contains(ls[i]));
                    assert(s[i] < n.key);
                }
                if j < li {
                    assert(ls.contains(ls[j]));
                    assert(s[j] < n.key);
                }
                if i > li {
                    assert(rs.contains(rs[i - li - 1]));
                    assert(s[i] > n.key);
                }
                if j > li {
                    assert(rs.contains(rs[j - li - 1]));
                    assert(s[j] > n.key);
                }
            }
            let ld = map_of(n.left).dom();
            let rd = map_of(n.right).dom();
            assert(map_of(sub).dom() =~= (ld + rd).insert(n.key));
            vstd::set_lib::lemma_set_disjoint_lens(ld, rd);
            assert(ld.disjoint(rd));
            assert(!(ld + rd).contains(n.key));
        }
    }
}

/// Every entry except the root points at a live parent whose child slot, on
/// the side the entry's key falls, is exactly the entry found under that key.
proof fn lemma_parent_link<V>(sub: Option<Box<Node<V>>>, key: i64)
    requires
        sub_wf(sub),
        map_of(sub).dom().contains(key),
        sub matches Some(n) && key != n.key,
    ensures
        ({
            let t = find_node(sub, key).unwrap();
            &&& t.parent is Some
            &&& map_of(sub).dom().contains(t.parent.unwrap())
            &&& (key < t.parent.unwrap() ==> find_node(sub, t.parent.unwrap()).unwrap().left
                == find_node(sub, key))
            &&& (key > t.parent.unwrap() ==> find_node(sub, t.parent.unwrap()).unwrap().right
                == find_node(sub, key))
            &&& key != t.parent.unwrap()
        }),
    decreases sub,
{
    let n = sub.unwrap();
    lemma_find_node_present(sub, key);
    if key < n.key {
        assert(!map_of(n.right).dom().contains(key));
        assert(map_of(n.left).dom().contains(key));
        lemma_find_node_present(n.left, key);
        let l = n.left.unwrap();
        if l.key == key {
            assert(find_node(sub, key) == Some(l));
            assert(find_node(sub, n.key) == Some(n));
        } else {
            lemma_parent_link(n.left, key);
            let t = find_node(n.left, key).unwrap();
            let p = t.parent.unwrap();
            assert(map_of(n.left).dom().contains(p));
            assert(p < n.key);
            assert(find_node(sub, p) == find_node(n.left, p));
        }
    } else {
        assert(!map_of(n.left).dom().contains(key));
        assert(map_of(n.right).dom().contains(key));
        lemma_find_node_present(n.right, key);
        let r = n.right.unwrap();
        if r.key == key {
            assert(find_node(sub, key) == Some(r));
            assert(find_node(sub, n.key) == Some(n));
        } else {
            lemma_parent_link(n.right, key);
            let t = find_node(n.right, key).unwrap();
            let p = t.parent.unwrap();
            assert(map_of(n.right).dom().contains(p));
            assert(p > n.key);
            assert(find_node(sub, p) == find_node(n.right, p));
        }
    }
}

impl<V> BinarySearchTree<V> {
    /// The in-order key sequence of the tree.
    pub closed spec fn key_seq(self) -> Seq<i64> {
        keys_inorder(self.root)
    }

    /// The key of the root entry, if the tree is not empty.
    pub closed spec fn root_key(self) -> Option<i64> {
        match self.root {
            None => None,
            Some(n) => Some(n.key),
        }
    }

    /// The parent back-reference stored at the entry holding `key`.
    pub closed spec fn parent_key_of(self, key: i64) -> Option<i64> {
        match find_node(self.root, key) {
            None => None,
            Some(n) => n.parent,
        }
    }

    /// The key of the left child of the entry holding `key`, if either exists.
    pub closed spec fn left_key_of(self, key: i64) -> Option<i64> {
        match find_node(self.root, key) {
            None => None,
            Some(n) => match n.left {
                None => None,
                Some(l) => Some(l.key),
            },
        }
    }

    /// The key of the right child of the entry holding `key`, if either exists.
    pub closed spec fn right_key_of(self, key: i64) -> Option<i64> {
        match find_node(self.root, key) {
            None => None,
            Some(n) => match n.right {
                None => None,
                Some(r) => Some(r.key),
            },
        }
    }

    /// The live keys, in order.
    pub fn in_order_keys(&self) -> (r: Vec<i64>)
        requires
            self.well_formed(),
        ensures
            r@ == self.key_seq(),
    {
        let mut out: Vec<i64> = Vec::new();
        push_keys_inorder(&self.root, &mut out);
        proof {
            assert(out@ =~= self.key_seq());
        }
        out
    }

    /// Ordering law: an in-order traversal of a consistent tree lists each
    /// live key exactly once, in strictly increasing order.
    pub proof fn lemma_key_seq_strictly_increasing(self)
        requires
            self.well_formed(),
        ensures
            crate::strictly_increasing(self.key_seq()),
            forall|k: i64| #[trigger] self.key_seq().contains(k) <==> self@.contains_key(k),
            self.key_seq().len() == self@.dom().len(),
    {
        lemma_inorder_props(self.root);
    }

    /// Back-reference law: after any sequence of operations, following a
    /// surviving entry's parent back-reference and then the child slot on the
    /// side of the entry's key leads back to that same entry; only the root
    /// carries no back-reference.
    pub proof fn lemma_no_dangling_parent(self, key: i64)
        requires
            self.well_formed(),
            self@.contains_key(key),
        ensures
            match self.parent_key_of(key) {
                None => self.root_key() == Some(key),
                Some(p) => {
                    &&& self@.contains_key(p)
                    &&& p != key
                    &&& (if key < p {
                        self.left_key_of(p) == Some(key)
                    } else {
                        self.right_key_of(p) == Some(key)
                    })
                },
            },
    {
        let n = self.root.unwrap();
        lemma_find_node_present(self.root, key);
        if key != n.key {
            lemma_parent_link(self.root, key);
            let t = find_node(self.root, key).unwrap();
            let p = t.parent.unwrap();
            lemma_find_node_present(self.root, p);
        }
    }
}

/// Appends the in-order keys of a subtree to `out`.
fn push_keys_inorder<V>(sub: &Option<Box<Node<V>>>, out: &mut Vec<i64>)
    ensures
        final(out)@ == old(out)@ + keys_inorder(*sub),
    decreases *sub,
{
    match sub {
        None => {
            proof {
                assert(old(out)@ + keys_inorder(*sub) =~= old(out)@);
            }
        }
        Some(n) => {
            push_keys_inorder(&n.left, out);
            out.push(n.key);
            push_keys_inorder(&n.right, out);
            proof {
                assert(final(out)@ =~= old(out)@ + keys_inorder(*sub));
            }
        }
    }
}

/// Round-trip law: storing a value under a key and looking that key up
/// immediately yields the value just stored.
pub proof fn lemma_put_get_round_trip<V>(m: Map<i64, V>, key: i64, value: V)
    ensures
        m.insert(key, value).contains_key(key),
        m.insert(key, value)[key] == value,
{
}

/// Overwrite law: storing twice under one key leaves the value of the second
/// store, and the second store does not change the number of keys.
pub proof fn lemma_put_overwrite<V>(m: Map<i64, V>, key: i64, v1: V, v2: V)
    requires
        m.dom().finite(),
    ensures
        m.insert(key, v1).insert(key, v2) == m.insert(key, v2),
        m.insert(key, v1).insert(key, v2).dom().len() == m.insert(key, v1).dom().len(),
{
    assert(m.insert(key, v1).insert(key, v2) =~= m.insert(key, v2));
    assert(m.insert(key, v1).dom() =~= m.insert(key, v2).dom());
}

/// Absence law: a key that is not stored is left alone by removal, a removed
/// key is no longer stored, and removing it again changes nothing.
pub proof fn lemma_absence<V>(m: Map<i64, V>, key: i64)
    ensures
        !m.contains_key(key) ==> m.remove(key) == m,
        !m.remove(key).contains_key(key),
        m.remove(key).remove(key) == m.remove(key),
{
    if !m.contains_key(key) {
        assert(m.remove(key) =~= m);
    }
    assert(m.remove(key).remove(key) =~= m.remove(key));
}

/// Size law: storing a key grows the key count exactly when the key was
/// absent, and removal shrinks it exactly when the key was present.
pub proof fn lemma_size_step<V>(m: Map<i64, V>, key: i64, value: V)
    requires
        m.dom().finite(),
    ensures
        m.insert(key, value).dom().len() == m.dom().len() + (if m.contains_key(key) {
            0int
        } else {
            1int
        }),
        m.remove(key).dom().len() == m.dom().len() - (if m.contains_key(key) {
            1int
        } else {
            0int
        }),
{
    assert(m.insert(key, value).dom() =~= m.dom().insert(key));
    assert(m.remove(key).dom() =~= m.dom().remove(key));
}

/// Point lookup by the usual comparison descent.
fn find_in<'a, V>(sub: &'a Option<Box<Node<V>>>, key: i64) -> (r: Option<&'a V>)
    requires
        sub_wf(*sub),
    ensures
        r == (if map_of(*sub).contains_key(key) {
            Some(&map_of(*sub)[key])
        } else {
            None::<&V>
        }),
    decreases *sub,
{
    match sub {
        None => None,
        Some(n) => {
            if key == n.key {
                Some(&n.value)
            } else if key < n.key {
                proof {
                    assert(!map_of(n.right).dom().contains(key));
                }
                find_in(&n.left, key)
            } else {
                proof {
                    assert(!map_of(n.left).dom().contains(key));
                }
                find_in(&n.right, key)
            }
        }
    }
}

/// Point lookup handing out write access to the stored value.  Only the
/// value behind the found key can change through the returned reference.
fn find_in_mut<'a, V>(sub: &'a mut Option<Box<Node<V>>>, key: i64) -> (r: Option<&'a mut V>)
    requires
        sub_wf(*old(sub)),
    ensures
        !map_of(*old(sub)).contains_key(key) ==> r is None && *final(sub) == *old(sub),
        map_of(*old(sub)).contains_key(key) ==> r is Some && *r.unwrap() == map_of(*old(sub))[key]
            && map_of(*final(sub)) =~= map_of(*old(sub)).insert(key, *final(r.unwrap()))
            && map_of(*final(sub)).dom() =~= map_of(*old(sub)).dom()
            && sub_wf(*final(sub))
            && top_parent(*final(sub)) == top_parent(*old(sub)),
    decreases *old(sub),
{
    match sub {
        None => None,
        Some(n) => {
            if key == n.key {
                proof {
                    assert(!map_of(n.left).dom().contains(key));
                    assert(!map_of(n.right).dom().contains(key));
                }
                Some(&mut n.value)
            } else if key < n.key {
                proof {
                    assert(!map_of(n.right).dom().contains(key));
                }
                find_in_mut(&mut n.left, key)
            } else {
                proof {
                    assert(!map_of(n.left).dom().contains(key));
                }
                find_in_mut(&mut n.right, key)
            }
        }
    }
}

/// Insertion or in-place update.  A fresh node is linked under the last
/// visited node with its back-reference set to that node's key; `added`
/// reports whether a new key was created.
fn insert_into<V>(sub: &mut Option<Box<Node<V>>>, parent: Option<i64>, key: i64, value: V) -> (added: bool)
    requires
        sub_wf(*old(sub)),
    ensures
        sub_wf(*final(sub)),
        top_parent(*final(sub)) == (if (*old(sub)) is Some { top_parent(*old(sub)) } else { parent }),
        map_of(*final(sub)) =~= map_of(*old(sub)).insert(key, value),
        added <==> !map_of(*old(sub)).contains_key(key),
    decreases *old(sub),
{
    match sub.take() {
        None => {
            *sub = Some(Box::new(Node { key, value, parent, left: None, right: None }));
            true
        }
        Some(mut n) => {
            let added;
            if key == n.key {
                n.value = value;
                added = false;
                proof {
                    assert(!map_of(n.left).dom().contains(key));
                    assert(!map_of(n.right).dom().contains(key));
                }
            } else if key < n.key {
                added = insert_into(&mut n.left, Some(n.key), key, value);
                proof {
                    assert(!map_of(n.right).dom().contains(key));
                }
            } else {
                added = insert_into(&mut n.right, Some(n.key), key, value);
                proof {
                    assert(!map_of(n.left).dom().contains(key));
                }
            }
            *sub = Some(n);
            added
        }
    }
}

/// Rewrites the parent back-reference at the top of a subtree after a relink.
fn set_parent<V>(sub: &mut Option<Box<Node<V>>>, parent: Option<i64>)
    requires
        sub_wf(*old(sub)),
    ensures
        sub_wf(*final(sub)),
        map_of(*final(sub)) == map_of(*old(sub)),
        (*final(sub)) is Some <==> (*old(sub)) is Some,
        top_parent(*final(sub)) == (if (*old(sub)) is Some { parent } else { None::<i64> }),
    decreases *old(sub),
{
    match sub.take() {
        None => {}
        Some(mut n) => {
            n.parent = parent;
            *sub = Some(n);
        }
    }
}

/// Unlinks the node with the least key of a non-empty subtree and hands it
/// back with its child links cleared.  The detached node's former right
/// subtree is threaded into the gap, its back-reference rewritten to the
/// detached node's former parent.
fn take_min<V>(sub: &mut Option<Box<Node<V>>>) -> (min: Box<Node<V>>)
    requires
        (*old(sub)) is Some,
        sub_wf(*old(sub)),
    ensures
        sub_wf(*final(sub)),
        map_of(*final(sub)) =~= map_of(*old(sub)).remove(min.key),
        map_of(*old(sub)).contains_key(min.key),
        map_of(*old(sub))[min.key] == min.value,
        forall|k: i64| map_of(*old(sub)).dom().contains(k) ==> min.key <= k,
        min.left is None,
        min.right is None,
        top_parent(*final(sub)) == (if (*final(sub)) is Some {
            top_parent(*old(sub))
        } else {
            None::<i64>
        }),
    decreases *old(sub),
{
    let mut n = sub.take().unwrap();
    if n.left.is_none() {
        let mut lifted = n.right.take();
        let gap_parent = n.parent;
        set_parent(&mut lifted, gap_parent);
        *sub = lifted;
        proof {
            assert(map_of(n.left) =~= Map::<i64, V>::empty());
            assert(!map_of(*sub).dom().contains(n.key));
        }
        n
    } else {
        let min = take_min(&mut n.left);
        proof {
            assert(!map_of(n.right).dom().contains(min.key));
            assert(min.key != n.key);
        }
        *sub = Some(n);
        min
    }
}

/// Keyed removal.  The three structural cases: a childless node is detached;
/// a node with one child is replaced by it; a node with two children is
/// replaced by the least node of its right subtree, which inherits both
/// former subtrees.  Every node whose parent changes has its back-reference
/// rewritten.
fn remove_from<V>(sub: &mut Option<Box<Node<V>>>, key: i64) -> (r: Option<V>)
    requires
        sub_wf(*old(sub)),
    ensures
        sub_wf(*final(sub)),
        map_of(*final(sub)) =~= map_of(*old(sub)).remove(key),
        r == (if map_of(*old(sub)).contains_key(key) {
            Some(map_of(*old(sub))[key])
        } else {
            None::<V>
        }),
        top_parent(*final(sub)) == (if (*final(sub)) is Some {
            top_parent(*old(sub))
        } else {
            None::<i64>
        }),
        (*final(sub)) is Some ==> (*old(sub)) is Some,
    decreases *old(sub),
{
    match sub.take() {
        None => None,
        Some(mut n) => {
            if key == n.key {
                proof {
                    assert(!map_of(n.left).dom().contains(key));
                    assert(!map_of(n.right).dom().contains(key));
                }
                let gap_parent = n.parent;
                let mut left = n.left.take();
                let mut right = n.right.take();
                if left.is_none() && right.is_none() {
                    *sub = None;
                } else if left.is_none() {
                    set_parent(&mut right, gap_parent);
                    *sub = right;
                } else if right.is_none() {
                    set_parent(&mut left, gap_parent);
                    *sub = left;
                } else {
                    let mut succ = take_min(&mut right);
                    proof {
                        assert(forall|k: i64|
                            map_of(right).dom().contains(k) ==> k > succ.key);
                        assert(forall|k: i64|
                            map_of(left).dom().contains(k) ==> k < succ.key);
                    }
                    set_parent(&mut left, Some(succ.key));
                    set_parent(&mut right, Some(succ.key));
                    succ.parent = gap_parent;
                    succ.left = left;
                    succ.right = right;
                    *sub = Some(succ);
                }
                Some(n.value)
            } else if key < n.key {
                proof {
                    assert(!map_of(n.right).dom().contains(key));
                }
                let r = remove_from(&mut n.left, key);
                *sub = Some(n);
                r
            } else {
                proof {
                    assert(!map_of(n.left).dom().contains(key));
                }
                let r = remove_from(&mut n.right, key);
                *sub = Some(n);
                r
            }
        }
    }
}

} // verus!
