use vstd::prelude::*;
use crate::utils::Id;

verus! {

/// How a part of a unit moves relative to its parent.
#[derive(Clone, Copy, Debug, PartialEq, Eq, Structural)]
pub enum Joint {
    Fix,
    AimWeapon0,
}

impl Joint {
    /// The joint kind that follows `self` in the editor's cycle.
    pub open spec fn spec_next(self) -> Joint {
        match self {
            Joint::Fix => Joint::AimWeapon0,
            Joint::AimWeapon0 => Joint::Fix,
        }
    }

    pub fn next(&self) -> (r: Self)
        ensures
            r == self.spec_next(),
    {
        match self {
            Joint::Fix => Joint::AimWeapon0,
            Joint::AimWeapon0 => Joint::Fix,
        }
    }

    pub fn replace_with_next(&mut self)
        ensures
            *final(self) == old(self).spec_next(),
    {
        let next = self.next();
        *self = next;
    }
}

/// Kind tag of the identifiers of unit parts.
pub struct Part;

/// A part of a unit and, recursively, the parts attached to it.
pub struct PartTree {
    pub id: Id<Part>,
    pub joint: Joint,
    pub children: Vec<PartTree>,
}

impl PartTree {
    /// All parts of the tree in depth-first pre-order: the root, then the
    /// parts of each child's subtree, children taken in order.
    pub open spec fn nodes(self) -> Seq<PartTree>
        decreases self,
    {
        seq![self] + forest_nodes(self.children@)
    }
}

/// The parts of the trees `ts`, each tree in pre-order, trees in order.
pub open spec fn forest_nodes(ts: Seq<PartTree>) -> Seq<PartTree>
    decreases ts,
{
    if ts.len() == 0 {
        Seq::empty()
    } else {
        ts[0].nodes() + forest_nodes(ts.drop_first())
    }
}

/// The first part in `s` whose identifier has value `id`.
pub open spec fn first_with_id(s: Seq<PartTree>, id: u64) -> Option<PartTree>
    decreases s.len(),
{
    if s.len() == 0 {
        None
    } else if s[0].id.value == id {
        Some(s[0])
    } else {
        first_with_id(s.drop_first(), id)
    }
}

pub open spec fn deref_part(r: Option<&PartTree>) -> Option<PartTree> {
    match r {
        Some(p) => Some(*p),
        None => None,
    }
}

proof fn lemma_first_with_id_append(a: Seq<PartTree>, b: Seq<PartTree>, id: u64)
    ensures
        first_with_id(a + b, id) == (if first_with_id(a, id) is Some {
            first_with_id(a, id)
        } else {
            first_with_id(b, id)
        }),
    decreases a.len(),
{
    if a.len() == 0 {
        assert(a + b =~= b);
    } else {
        assert((a + b).drop_first() =~= a.drop_first() + b);
        lemma_first_with_id_append(a.drop_first(), b, id);
    }
}

proof fn lemma_forest_push(ts: Seq<PartTree>, t: PartTree)
    ensures
        forest_nodes(ts.push(t)) == forest_nodes(ts) + t.nodes(),
    decreases ts.len(),
{
    if ts.len() == 0 {
        assert(ts.push(t).drop_first() =~= Seq::<PartTree>::empty());
        assert(ts.push(t)[0] == t);
        assert(forest_nodes(Seq::<PartTree>::empty()) =~= Seq::<PartTree>::empty());
        assert(forest_nodes(ts.push(t)) =~= t.nodes() + Seq::<PartTree>::empty());
        assert(forest_nodes(ts) =~= Seq::<PartTree>::empty());
    } else {
        assert(ts.push(t).drop_first() =~= ts.drop_first().push(t));
        lemma_forest_push(ts.drop_first(), t);
        assert(forest_nodes(ts.push(t)) =~= forest_nodes(ts) + t.nodes());
    }
}

proof fn lemma_forest_append(a: Seq<PartTree>, b: Seq<PartTree>)
    ensures
        forest_nodes(a + b) == forest_nodes(a) + forest_nodes(b),
    decreases a.len(),
{
    if a.len() == 0 {
        assert(a + b =~= b);
        assert(forest_nodes(a) =~= Seq::<PartTree>::empty());
        assert(forest_nodes(a + b) =~= forest_nodes(a) + forest_nodes(b));
    } else {
        assert((a + b).drop_first() =~= a.drop_first() + b);
        assert((a + b)[0] == a[0]);
        lemma_forest_append(a.drop_first(), b);
        assert(forest_nodes(a + b) =~= forest_nodes(a) + forest_nodes(b));
    }
}

proof fn lemma_first_in_children(t: PartTree, id: u64)
    requires
        t.id.value != id,
    ensures
        first_with_id(t.nodes(), id) == first_with_id(forest_nodes(t.children@), id),
{
    assert(t.nodes().drop_first() =~= forest_nodes(t.children@));
}

impl PartTree {
    /// The first part in pre-order whose identifier equals `id`.
    pub fn find_node(&self, id: Id<Part>) -> (r: Option<&PartTree>)
        ensures
            deref_part(r) == first_with_id(self.nodes(), id.value),
        decreases self,
    {
        if self.id.value == id.value {
            return Some(self);
        }
        let n = self.children.len();
        let mut i: usize = 0;
        proof {
            assert(self.children@.take(0) =~= Seq::<PartTree>::empty());
        }
        while i < n
            invariant
                n == self.children@.len(),
                0 <= i <= n,
                self.id.value != id.value,
                first_with_id(forest_nodes(self.children@.take(i as int)), id.value) is None,
            decreases n - i,
        {
            proof {
                assert(decreases_to!(self => self.children@[i as int]));
            }
            let found = self.children[i].find_node(id);
            proof {
                let ts = self.children@.take(i as int);
                assert(self.children@.take(i + 1) =~= ts.push(self.children@[i as int]));
                lemma_forest_push(ts, self.children@[i as int]);
                lemma_first_with_id_append(
                    forest_nodes(ts),
                    self.children@[i as int].nodes(),
                    id.value,
                );
            }
            match found {
                Some(node) => {
                    proof {
                        let a = self.children@.take(i + 1);
                        let b = self.children@.skip(i + 1);
                        assert(self.children@ =~= a + b);
                        lemma_forest_append(a, b);
                        lemma_first_with_id_append(forest_nodes(a), forest_nodes(b), id.value);
                        lemma_first_in_children(*self, id.value);
                    }
                    return Some(node);
                },
                None => {},
            }
            i = i + 1;
        }
        assert(self.children@.take(n as int) =~= self.children@);
        proof {
            lemma_first_in_children(*self, id.value);
        }
        None
    }
}

} // verus!
verus! {

/// Index of the first tree in `ts` that holds a part with identifier `id`.
pub open spec fn subtree_index(ts: Seq<PartTree>, id: u64) -> int
    decreases ts.len(),
{
    if ts.len() == 0 {
        0
    } else if first_with_id(ts[0].nodes(), id) is Some {
        0
    } else {
        1 + subtree_index(ts.drop_first(), id)
    }
}

/// `new_t` is `old_t` in which the first part in pre-order with identifier
/// `id` has been replaced, subtree and all, by `sub`.
pub open spec fn replaces_first(old_t: PartTree, new_t: PartTree, id: u64, sub: PartTree) -> bool
    decreases old_t,
{
    if old_t.id.value == id {
        new_t == sub
    } else {
        let k = subtree_index(old_t.children@, id);
        &&& new_t.id == old_t.id
        &&& new_t.joint == old_t.joint
        &&& new_t.children@.len() == old_t.children@.len()
        &&& 0 <= k < old_t.children@.len()
        &&& forall|j: int|
            0 <= j < old_t.children@.len() && j != k ==> new_t.children@[j] == old_t.children@[j]
        &&& replaces_first(old_t.children@[k], new_t.children@[k], id, sub)
    }
}

proof fn lemma_subtree_index(ts: Seq<PartTree>, id: u64, i: int)
    requires
        0 <= i < ts.len(),
        forall|j: int| 0 <= j < i ==> first_with_id(#[trigger] ts[j].nodes(), id) is None,
        first_with_id(ts[i].nodes(), id) is Some,
    ensures
        subtree_index(ts, id) == i,
        first_with_id(forest_nodes(ts), id) == first_with_id(ts[i].nodes(), id),
    decreases i,
{
    lemma_first_with_id_append(ts[0].nodes(), forest_nodes(ts.drop_first()), id);
    if i > 0 {
        assert forall|j: int| 0 <= j < i - 1 implies first_with_id(
            #[trigger] ts.drop_first()[j].nodes(),
            id,
        ) is None by {
            assert(ts.drop_first()[j] == ts[j + 1]);
        }
        assert(first_with_id(ts[0].nodes(), id) is None);
        lemma_subtree_index(ts.drop_first(), id, i - 1);
    }
}

proof fn lemma_none_in_forest(ts: Seq<PartTree>, id: u64)
    requires
        forall|j: int| 0 <= j < ts.len() ==> first_with_id(#[trigger] ts[j].nodes(), id) is None,
    ensures
        first_with_id(forest_nodes(ts), id) is None,
    decreases ts.len(),
{
    if ts.len() > 0 {
        lemma_first_with_id_append(ts[0].nodes(), forest_nodes(ts.drop_first()), id);
        assert forall|j: int| 0 <= j < ts.len() - 1 implies first_with_id(
            #[trigger] ts.drop_first()[j].nodes(),
            id,
        ) is None by {
            assert(ts.drop_first()[j] == ts[j + 1]);
        }
        lemma_none_in_forest(ts.drop_first(), id);
    }
}

impl PartTree {
    /// Mutable access to the first part in pre-order whose identifier
    /// equals `id`.
    pub fn find_node_mut(&mut self, id: Id<Part>) -> (r: Option<&mut PartTree>)
        ensures
            r is None <==> first_with_id(old(self).nodes(), id.value) is None,
            r is None ==> *final(self) == *old(self),
            match r {
                Some(n) => Some(*n) == first_with_id(old(self).nodes(), id.value) && replaces_first(
                    *old(self),
                    *final(self),
                    id.value,
                    *final(n),
                ),
                None => true,
            },
        decreases *old(self),
    {
        if self.id.value == id.value {
            return Some(self);
        }
        let n = self.children.len();
        let mut i: usize = 0;
        while i < n
            invariant
                n == self.children@.len(),
                0 <= i <= n,
                forall|j: int| 0 <= j < i ==> first_with_id(#[trigger] self.children@[j].nodes(), id.value) is None,
            ensures
                0 <= i <= n,
                forall|j: int| 0 <= j < i ==> first_with_id(#[trigger] self.children@[j].nodes(), id.value) is None,
                i < n ==> first_with_id(self.children@[i as int].nodes(), id.value) is Some,
            decreases n - i,
        {
            if self.children[i].find_node(id).is_some() {
                break;
            }
            i = i + 1;
        }
        proof {
            lemma_first_in_children(*self, id.value);
        }
        if i < n {
            proof {
                lemma_subtree_index(self.children@, id.value, i as int);
                assert(decreases_to!(*old(self) => old(self).children@[i as int]));
            }
            self.children[i].find_node_mut(id)
        } else {
            proof {
                lemma_none_in_forest(self.children@, id.value);
            }
            None
        }
    }
}

impl PartTree {
    /// Attaches `child`, after the other children, to the first part in
    /// pre-order whose identifier equals `parent`; leaves the tree as it is
    /// when no part has that identifier. Answers whether it was attached.
    pub fn add_child(&mut self, parent: Id<Part>, child: PartTree) -> (added: bool)
        ensures
            added <==> first_with_id(old(self).nodes(), parent.value) is Some,
            !added ==> *final(self) == *old(self),
            added ==> exists|n: PartTree|
                #![trigger replaces_first(*old(self), *final(self), parent.value, n)]
                {
                    let p = first_with_id(old(self).nodes(), parent.value)->0;
                    &&& replaces_first(*old(self), *final(self), parent.value, n)
                    &&& n.id == p.id
                    &&& n.joint == p.joint
                    &&& n.children@ == p.children@.push(child)
                },
    {
        match self.find_node_mut(parent) {
            Some(node) => {
                node.children.push(child);
                true
            },
            None => false,
        }
    }
}

/// Index of the first tree in `ts` whose root has identifier `id`, or the
/// length of `ts` when there is none.
pub open spec fn child_index(ts: Seq<PartTree>, id: u64) -> int
    decreases ts.len(),
{
    if ts.len() == 0 {
        0
    } else if ts[0].id.value == id {
        0
    } else {
        1 + child_index(ts.drop_first(), id)
    }
}

/// What `remove_node(id)` answers on `t`: the identifier of `t` when one
/// of its children has identifier `id`, otherwise the first answer given
/// by its children's subtrees.
pub open spec fn removal_result(t: PartTree, id: u64) -> Option<u64>
    decreases t,
{
    if child_index(t.children@, id) < t.children@.len() {
        Some(t.id.value)
    } else {
        forest_removal_result(t.children@, id)
    }
}

/// The first answer of `remove_node(id)` among the trees `ts`.
pub open spec fn forest_removal_result(ts: Seq<PartTree>, id: u64) -> Option<u64>
    decreases ts,
{
    if ts.len() == 0 {
        None
    } else if removal_result(ts[0], id) is Some {
        removal_result(ts[0], id)
    } else {
        forest_removal_result(ts.drop_first(), id)
    }
}

/// `new_t` is what `remove_node(id)` leaves of `old_t`: when a child of
/// the root has identifier `id`, the first such child is dropped with its
/// subtree; otherwise the removal is applied to every child.
pub open spec fn is_removal(old_t: PartTree, new_t: PartTree, id: u64) -> bool
    decreases old_t,
{
    let k = child_index(old_t.children@, id);
    &&& new_t.id == old_t.id
    &&& new_t.joint == old_t.joint
    &&& if k < old_t.children@.len() {
        new_t.children@ == old_t.children@.remove(k)
    } else {
        &&& new_t.children@.len() == old_t.children@.len()
        &&& forall|j: int|
            0 <= j < old_t.children@.len() ==> is_removal(
                #[trigger] old_t.children@[j],
                new_t.children@[j],
                id,
            )
    }
}

proof fn lemma_child_index(ts: Seq<PartTree>, id: u64)
    ensures
        0 <= child_index(ts, id) <= ts.len(),
        child_index(ts, id) < ts.len() ==> ts[child_index(ts, id)].id.value == id,
        forall|j: int| 0 <= j < child_index(ts, id) ==> (#[trigger] ts[j]).id.value != id,
    decreases ts.len(),
{
    if ts.len() > 0 && ts[0].id.value != id {
        lemma_child_index(ts.drop_first(), id);
        assert forall|j: int| 0 <= j < child_index(ts, id) implies (#[trigger] ts[j]).id.value
            != id by {
            if j > 0 {
                assert(ts[j] == ts.drop_first()[j - 1]);
            }
        }
    }
}

proof fn lemma_forest_removal_push(ts: Seq<PartTree>, t: PartTree, id: u64)
    ensures
        forest_removal_result(ts.push(t), id) == (if forest_removal_result(ts, id) is Some {
            forest_removal_result(ts, id)
        } else {
            removal_result(t, id)
        }),
    decreases ts.len(),
{
    if ts.len() == 0 {
        assert(ts.push(t).drop_first() =~= Seq::<PartTree>::empty());
        assert(ts.push(t)[0] == t);
        assert(forest_removal_result(Seq::<PartTree>::empty(), id) is None);
        assert(forest_removal_result(ts, id) is None);
    } else {
        assert(ts.push(t).drop_first() =~= ts.drop_first().push(t));
        assert(ts.push(t)[0] == ts[0]);
        lemma_forest_removal_push(ts.drop_first(), t, id);
    }
}

impl PartTree {
    /// Removes a part and answers the identifier of its parent.
    ///
    /// When a child of the root has identifier `id`, the first such child
    /// is removed with its subtree and the root's identifier is answered.
    /// Otherwise the removal is applied to every child subtree and the first
    /// answer among them is returned.
    pub fn remove_node(&mut self, id: Id<Part>) -> (r: Option<Id<Part>>)
        ensures
            is_removal(*old(self), *final(self), id.value),
            match r {
                Some(p) => removal_result(*old(self), id.value) == Some(p.value),
                None => removal_result(*old(self), id.value) is None,
            },
        decreases *old(self),
    {
        let n = self.children.len();
        let mut k: usize = 0;
        proof {
            lemma_child_index(self.children@, id.value);
        }
        while k < n
            invariant
                n == self.children@.len(),
                0 <= k <= n,
                forall|j: int| 0 <= j < k ==> (#[trigger] self.children@[j]).id.value != id.value,
            ensures
                0 <= k <= n,
                forall|j: int| 0 <= j < k ==> (#[trigger] self.children@[j]).id.value != id.value,
                k < n ==> self.children@[k as int].id.value == id.value,
            decreases n - k,
        {
            if self.children[k].id.value == id.value {
                break;
            }
            k = k + 1;
        }
        assert(k == child_index(self.children@, id.value)) by {
            let c = child_index(self.children@, id.value);
            if c < k {
                assert(self.children@[c].id.value != id.value);
            }
            if k < c {
                assert(self.children@[k as int].id.value != id.value);
            }
        }
        if k < n {
            self.children.remove(k);
            return Some(self.id);
        }
        let mut res: Option<Id<Part>> = None;
        let mut i: usize = 0;
        proof {
            assert(old(self).children@.take(0) =~= Seq::<PartTree>::empty());
        }
        while i < n
            invariant
                n == self.children@.len(),
                n == old(self).children@.len(),
                0 <= i <= n,
                self.id == old(self).id,
                self.joint == old(self).joint,
                child_index(old(self).children@, id.value) == n,
                forall|j: int|
                    0 <= j < i ==> is_removal(
                        #[trigger] old(self).children@[j],
                        self.children@[j],
                        id.value,
                    ),
                forall|j: int| i <= j < n ==> self.children@[j] == old(self).children@[j],
                match res {
                    Some(p) => forest_removal_result(old(self).children@.take(i as int), id.value)
                        == Some(p.value),
                    None => forest_removal_result(old(self).children@.take(i as int), id.value) is None,
                },
            decreases n - i,
        {
            proof {
                assert(decreases_to!(*old(self) => old(self).children@[i as int]));
                let ts = old(self).children@.take(i as int);
                assert(old(self).children@.take(i + 1) =~= ts.push(old(self).children@[i as int]));
                lemma_forest_removal_push(ts, old(self).children@[i as int], id.value);
            }
            let sub = self.children[i].remove_node(id);
            if res.is_none() {
                res = sub;
            }
            i = i + 1;
        }
        assert(old(self).children@.take(n as int) =~= old(self).children@);
        res
    }
}

/// Order in which a traversal holding the stack `s` (top of the stack
/// last) hands out parts: the whole subtree of the top part first, then
/// the rest of the stack.
pub open spec fn pending(s: Seq<PartTree>) -> Seq<PartTree>
    decreases s,
{
    if s.len() == 0 {
        Seq::empty()
    } else {
        visit(s[s.len() - 1]) + pending(s.drop_last())
    }
}

/// Order in which a traversal started at `t` hands out the parts of `t`:
/// `t` itself, then its children's subtrees from the last child to the first.
pub open spec fn visit(t: PartTree) -> Seq<PartTree>
    decreases t,
{
    seq![t] + pending(t.children@)
}

proof fn lemma_pending_append(a: Seq<PartTree>, b: Seq<PartTree>)
    ensures
        pending(a + b) == pending(b) + pending(a),
    decreases b.len(),
{
    if b.len() == 0 {
        assert(a + b =~= a);
        assert(pending(b) =~= Seq::<PartTree>::empty());
        assert(pending(a + b) =~= pending(b) + pending(a));
    } else {
        assert((a + b).drop_last() =~= a + b.drop_last());
        assert((a + b)[(a + b).len() - 1] == b[b.len() - 1]);
        lemma_pending_append(a, b.drop_last());
        assert(pending(a + b) =~= pending(b) + pending(a));
    }
}

/// Depth-first traversal of a part tree, driven by a stack of parts still
/// to hand out.
pub struct PartTreeIter<'a> {
    pub stack: Vec<&'a PartTree>,
}

impl<'a> View for PartTreeIter<'a> {
    type V = Seq<PartTree>;

    open spec fn view(&self) -> Seq<PartTree> {
        self.stack@.map_values(|r: &PartTree| *r)
    }
}

impl<'a> PartTreeIter<'a> {
    /// Hands out the part on top of the stack and puts its children on the
    /// stack, first child lowest.
    pub fn next(&mut self) -> (r: Option<&'a PartTree>)
        ensures
            old(self)@.len() == 0 ==> r is None && final(self)@ == old(self)@,
            old(self)@.len() > 0 ==> {
                &&& deref_part(r) == Some(old(self)@.last())
                &&& final(self)@ == old(self)@.drop_last() + old(self)@.last().children@
            },
            pending(old(self)@) == match r {
                Some(p) => seq![*p] + pending(final(self)@),
                None => Seq::<PartTree>::empty(),
            },
    {
        let ghost s = self@;
        let item = match self.stack.pop() {
            Some(item) => item,
            None => {
                return None;
            },
        };
        proof {
            assert(old(self)@.last() == *item);
            assert(self@ =~= s.drop_last());
        }
        let n = item.children.len();
        let mut i: usize = 0;
        while i < n
            invariant
                n == item.children@.len(),
                0 <= i <= n,
                s.len() > 0,
                self@ == s.drop_last() + item.children@.take(i as int),
            decreases n - i,
        {
            let ghost prev = self@;
            self.stack.push(&item.children[i]);
            proof {
                assert(self@ =~= prev.push(item.children@[i as int]));
                assert(item.children@.take(i + 1) =~= item.children@.take(i as int).push(
                    item.children@[i as int],
                ));
                assert(self@ =~= s.drop_last() + item.children@.take(i + 1));
            }
            i = i + 1;
        }
        proof {
            assert(item.children@.take(n as int) =~= item.children@);
            lemma_pending_append(s.drop_last(), item.children@);
            assert(s[s.len() - 1] == *item);
            assert(pending(s) == visit(*item) + pending(s.drop_last()));
            assert(visit(*item) == seq![*item] + pending(item.children@));
            assert(pending(self@) == pending(item.children@) + pending(s.drop_last()));
            assert(pending(s) =~= seq![*item] + pending(self@));
        }
        Some(item)
    }
}

impl PartTree {
    /// A traversal of every part of the tree, starting at the root.
    pub fn iter(&self) -> (r: PartTreeIter<'_>)
        ensures
            r@ == seq![*self],
            pending(r@) == visit(*self),
    {
        let mut stack: Vec<&PartTree> = Vec::new();
        stack.push(self);
        let r = PartTreeIter { stack };
        proof {
            assert(r@ =~= seq![*self]);
            assert(r@.drop_last() =~= Seq::<PartTree>::empty());
            assert(pending(r@) =~= visit(*self) + pending(Seq::<PartTree>::empty()));
        }
        r
    }
}

/// Changing the joint twice gives back the joint one started with.
pub proof fn law_joint_cycle(j: Joint)
    ensures
        j.spec_next().spec_next() == j,
        j.spec_next() != j,
{
}

proof fn lemma_first_with_id_found(s: Seq<PartTree>, id: u64)
    ensures
        first_with_id(s, id) is Some <==> exists|k: int| 0 <= k < s.len() && s[k].id.value == id,
        first_with_id(s, id) matches Some(p) ==> p.id.value == id && s.contains(p),
    decreases s.len(),
{
    if s.len() > 0 {
        lemma_first_with_id_found(s.drop_first(), id);
        if s[0].id.value != id {
            if exists|k: int| 0 <= k < s.len() && s[k].id.value == id {
                let k = choose|k: int| 0 <= k < s.len() && s[k].id.value == id;
                assert(s.drop_first()[k - 1].id.value == id);
            }
            if first_with_id(s, id) is Some {
                let p = first_with_id(s, id)->0;
                let j = choose|j: int| 0 <= j < s.drop_first().len() && s.drop_first()[j] == p;
                assert(s[j + 1] == p);
            }
        } else {
            assert(s[0] == s[0]);
        }
    }
}

/// `find_node` finds a part exactly when some part of the tree has the
/// identifier looked for, and what it finds is a part of the tree with
/// that identifier.
pub proof fn law_find_node(t: PartTree, id: u64)
    ensures
        first_with_id(t.nodes(), id) is Some <==> exists|k: int|
            0 <= k < t.nodes().len() && t.nodes()[k].id.value == id,
        first_with_id(t.nodes(), id) matches Some(p) ==> p.id.value == id && t.nodes().contains(p),
{
    lemma_first_with_id_found(t.nodes(), id);
}

proof fn lemma_pending_multiset(s: Seq<PartTree>)
    ensures
        pending(s).to_multiset() == forest_nodes(s).to_multiset(),
    decreases s,
{
    broadcast use vstd::seq_lib::lemma_multiset_commutative;

    if s.len() == 0 {
        assert(pending(s) =~= forest_nodes(s));
    } else {
        let last = s[s.len() - 1];
        assert(s =~= s.drop_last().push(last));
        lemma_forest_push(s.drop_last(), last);
        lemma_visit_multiset(last);
        lemma_pending_multiset(s.drop_last());
        assert(pending(s).to_multiset() =~= visit(last).to_multiset().add(pending(s.drop_last()).to_multiset()));
        assert(forest_nodes(s).to_multiset() =~= forest_nodes(s.drop_last()).to_multiset().add(last.nodes().to_multiset()));
    }
}

proof fn lemma_visit_multiset(t: PartTree)
    ensures
        visit(t).to_multiset() == t.nodes().to_multiset(),
    decreases t,
{
    broadcast use vstd::seq_lib::lemma_multiset_commutative;

    lemma_pending_multiset(t.children@);
    assert(visit(t).to_multiset() =~= seq![t].to_multiset().add(pending(t.children@).to_multiset()));
    assert(t.nodes().to_multiset() =~= seq![t].to_multiset().add(forest_nodes(t.children@).to_multiset()));
}

/// A traversal started with `iter` hands out every part of the tree, each
/// as many times as it occurs in the tree.
pub proof fn law_iter_visits_every_part(t: PartTree)
    ensures
        visit(t).to_multiset() == t.nodes().to_multiset(),
        visit(t).len() == t.nodes().len(),
{
    lemma_visit_multiset(t);
    vstd::seq_lib::to_multiset_len(visit(t));
    vstd::seq_lib::to_multiset_len(t.nodes());
}

/// One of the children of `n` has identifier `id`.
pub open spec fn has_child_with_id(n: PartTree, id: u64) -> bool {
    child_index(n.children@, id) < n.children@.len()
}

/// Some part in `s` has a child with identifier `id`.
pub open spec fn some_parent_of(s: Seq<PartTree>, id: u64) -> bool {
    exists|k: int| 0 <= k < s.len() && has_child_with_id(#[trigger] s[k], id)
}

/// Some part in `s` with identifier `p` has a child with identifier `id`.
pub open spec fn is_parent_of(s: Seq<PartTree>, id: u64, p: u64) -> bool {
    exists|k: int| 0 <= k < s.len() && has_child_with_id(#[trigger] s[k], id) && s[k].id.value == p
}

proof fn lemma_some_parent_append(a: Seq<PartTree>, b: Seq<PartTree>, id: u64, p: u64)
    ensures
        some_parent_of(a + b, id) <==> some_parent_of(a, id) || some_parent_of(b, id),
        is_parent_of(a, id, p) ==> is_parent_of(a + b, id, p),
        is_parent_of(b, id, p) ==> is_parent_of(a + b, id, p),
{
    if some_parent_of(a + b, id) {
        let k = choose|k: int| 0 <= k < (a + b).len() && has_child_with_id(#[trigger] (a + b)[k], id);
        if k < a.len() {
            assert(a[k] == (a + b)[k]);
        } else {
            assert(b[k - a.len()] == (a + b)[k]);
        }
    }
    if some_parent_of(a, id) {
        let k = choose|k: int| 0 <= k < a.len() && has_child_with_id(#[trigger] a[k], id);
        assert((a + b)[k] == a[k]);
    }
    if some_parent_of(b, id) {
        let k = choose|k: int| 0 <= k < b.len() && has_child_with_id(#[trigger] b[k], id);
        assert((a + b)[k + a.len()] == b[k]);
    }
    if is_parent_of(a, id, p) {
        let k = choose|k: int| 0 <= k < a.len() && has_child_with_id(#[trigger] a[k], id) && a[k].id.value == p;
        assert((a + b)[k] == a[k]);
    }
    if is_parent_of(b, id, p) {
        let k = choose|k: int| 0 <= k < b.len() && has_child_with_id(#[trigger] b[k], id) && b[k].id.value == p;
        assert((a + b)[k + a.len()] == b[k]);
    }
}

proof fn lemma_removal_result(t: PartTree, id: u64)
    ensures
        removal_result(t, id) is Some <==> some_parent_of(t.nodes(), id),
        removal_result(t, id) matches Some(p) ==> is_parent_of(t.nodes(), id, p),
    decreases t,
{
    let p = t.id.value;
    lemma_some_parent_append(seq![t], forest_nodes(t.children@), id, p);
    if has_child_with_id(t, id) {
        assert(seq![t][0] == t);
        assert(is_parent_of(seq![t], id, p));
    } else {
        lemma_forest_removal_result(t.children@, id);
        assert(!some_parent_of(seq![t], id)) by {
            if some_parent_of(seq![t], id) {
                let k = choose|k: int| 0 <= k < 1 && has_child_with_id(#[trigger] seq![t][k], id);
                assert(seq![t][k] == t);
            }
        }
        if removal_result(t, id) is Some {
            let q = removal_result(t, id)->0;
            lemma_some_parent_append(seq![t], forest_nodes(t.children@), id, q);
        }
    }
}

proof fn lemma_forest_removal_result(ts: Seq<PartTree>, id: u64)
    ensures
        forest_removal_result(ts, id) is Some <==> some_parent_of(forest_nodes(ts), id),
        forest_removal_result(ts, id) matches Some(p) ==> is_parent_of(forest_nodes(ts), id, p),
    decreases ts,
{
    if ts.len() == 0 {
        assert(!some_parent_of(forest_nodes(ts), id)) by {
            assert(forest_nodes(ts).len() == 0);
        }
    } else {
        lemma_removal_result(ts[0], id);
        lemma_forest_removal_result(ts.drop_first(), id);
        let a = ts[0].nodes();
        let b = forest_nodes(ts.drop_first());
        lemma_some_parent_append(a, b, id, 0);
        if forest_removal_result(ts, id) is Some {
            let q = forest_removal_result(ts, id)->0;
            lemma_some_parent_append(a, b, id, q);
        }
    }
}

/// `remove_node` answers a part exactly when some part of the tree has a
/// child with the identifier given, and what it answers is the identifier
/// of such a part: a parent of a removed part.
pub proof fn law_remove_node_answers_parent(t: PartTree, id: u64)
    ensures
        removal_result(t, id) is Some <==> some_parent_of(t.nodes(), id),
        removal_result(t, id) matches Some(p) ==> is_parent_of(t.nodes(), id, p),
{
    lemma_removal_result(t, id);
}

/// Some part in `s` has identifier `id`.
pub open spec fn has_id(s: Seq<PartTree>, id: u64) -> bool {
    exists|k: int| 0 <= k < s.len() && (#[trigger] s[k]).id.value == id
}

/// No two parts in `s` share an identifier.
pub open spec fn unique_ids(s: Seq<PartTree>) -> bool {
    forall|a: int, b: int| 0 <= a < s.len() && 0 <= b < s.len() && a != b ==> (#[trigger] s[a]).id.value != (#[trigger] s[b]).id.value
}

proof fn lemma_has_id_append(a: Seq<PartTree>, b: Seq<PartTree>, id: u64)
    ensures
        has_id(a + b, id) <==> has_id(a, id) || has_id(b, id),
        unique_ids(a + b) ==> unique_ids(a) && unique_ids(b) && !(has_id(a, id) && has_id(b, id)),
{
    if has_id(a + b, id) {
        let k = choose|k: int| 0 <= k < (a + b).len() && (#[trigger] (a + b)[k]).id.value == id;
        if k < a.len() {
            assert(a[k] == (a + b)[k]);
        } else {
            assert(b[k - a.len()] == (a + b)[k]);
        }
    }
    if has_id(a, id) {
        let k = choose|k: int| 0 <= k < a.len() && (#[trigger] a[k]).id.value == id;
        assert((a + b)[k] == a[k]);
    }
    if has_id(b, id) {
        let k = choose|k: int| 0 <= k < b.len() && (#[trigger] b[k]).id.value == id;
        assert((a + b)[k + a.len()] == b[k]);
    }
    if unique_ids(a + b) {
        assert forall|x: int, y: int| 0 <= x < a.len() && 0 <= y < a.len() && x != y implies (#[trigger] a[x]).id.value != (#[trigger] a[y]).id.value by {
            assert((a + b)[x] == a[x] && (a + b)[y] == a[y]);
        }
        assert forall|x: int, y: int| 0 <= x < b.len() && 0 <= y < b.len() && x != y implies (#[trigger] b[x]).id.value != (#[trigger] b[y]).id.value by {
            assert((a + b)[x + a.len()] == b[x] && (a + b)[y + a.len()] == b[y]);
        }
        if has_id(a, id) && has_id(b, id) {
            let x = choose|k: int| 0 <= k < a.len() && (#[trigger] a[k]).id.value == id;
            let y = choose|k: int| 0 <= k < b.len() && (#[trigger] b[k]).id.value == id;
            assert((a + b)[x] == a[x] && (a + b)[y + a.len()] == b[y]);
        }
    }
}

proof fn lemma_forest_split(ts: Seq<PartTree>, k: int)
    requires
        0 <= k < ts.len(),
    ensures
        forest_nodes(ts) == forest_nodes(ts.take(k)) + ts[k].nodes() + forest_nodes(ts.skip(k + 1)),
        forest_nodes(ts.remove(k)) == forest_nodes(ts.take(k)) + forest_nodes(ts.skip(k + 1)),
{
    assert(ts =~= ts.take(k).push(ts[k]) + ts.skip(k + 1));
    assert(ts.remove(k) =~= ts.take(k) + ts.skip(k + 1));
    lemma_forest_append(ts.take(k).push(ts[k]), ts.skip(k + 1));
    lemma_forest_push(ts.take(k), ts[k]);
    lemma_forest_append(ts.take(k), ts.skip(k + 1));
}

proof fn lemma_no_id_in_forest(ts: Seq<PartTree>, id: u64)
    requires
        forall|j: int| 0 <= j < ts.len() ==> !has_id(#[trigger] ts[j].nodes(), id),
    ensures
        !has_id(forest_nodes(ts), id),
    decreases ts.len(),
{
    if ts.len() == 0 {
        assert(forest_nodes(ts).len() == 0);
    } else {
        assert forall|j: int| 0 <= j < ts.drop_first().len() implies !has_id(#[trigger] ts.drop_first()[j].nodes(), id) by {
            assert(ts.drop_first()[j] == ts[j + 1]);
        }
        lemma_no_id_in_forest(ts.drop_first(), id);
        lemma_has_id_append(ts[0].nodes(), forest_nodes(ts.drop_first()), id);
    }
}

proof fn lemma_nodes_head(t: PartTree, id: u64)
    ensures
        t.nodes() == seq![t] + forest_nodes(t.children@),
        has_id(t.nodes(), id) <==> t.id.value == id || has_id(forest_nodes(t.children@), id),
        unique_ids(t.nodes()) ==> unique_ids(forest_nodes(t.children@)),
{
    lemma_has_id_append(seq![t], forest_nodes(t.children@), id);
    assert(has_id(seq![t], id) <==> t.id.value == id) by {
        if has_id(seq![t], id) {
            let k = choose|k: int| 0 <= k < 1 && (#[trigger] seq![t][k]).id.value == id;
            assert(seq![t][k] == t);
        }
        if t.id.value == id {
            assert(seq![t][0] == t);
        }
    }
}

proof fn lemma_removal_drops_id(old_t: PartTree, new_t: PartTree, id: u64)
    requires
        is_removal(old_t, new_t, id),
        unique_ids(old_t.nodes()),
        old_t.id.value != id,
    ensures
        !has_id(new_t.nodes(), id),
    decreases old_t,
{
    let olds = old_t.children@;
    let news = new_t.children@;
    let k = child_index(olds, id);
    lemma_child_index(olds, id);
    lemma_nodes_head(old_t, id);
    lemma_nodes_head(new_t, id);
    if k < olds.len() {
        lemma_forest_split(olds, k);
        let before = forest_nodes(olds.take(k));
        let after = forest_nodes(olds.skip(k + 1));
        let mid = olds[k].nodes();
        lemma_nodes_head(olds[k], id);
        lemma_has_id_append(before + mid, after, id);
        lemma_has_id_append(before, mid, id);
        lemma_has_id_append(before, after, id);
        assert(news == olds.remove(k));
    } else {
        assert forall|j: int| 0 <= j < news.len() implies !has_id(#[trigger] news[j].nodes(), id) by {
            assert(is_removal(olds[j], news[j], id));
            lemma_forest_split(olds, j);
            let before = forest_nodes(olds.take(j));
            let after = forest_nodes(olds.skip(j + 1));
            lemma_has_id_append(before + olds[j].nodes(), after, id);
            lemma_has_id_append(before, olds[j].nodes(), id);
            assert(olds[j].id.value != id);
            assert(decreases_to!(old_t => olds[j]));
            lemma_removal_drops_id(olds[j], news[j], id);
        }
        lemma_no_id_in_forest(news, id);
    }
}

/// In a tree whose parts have distinct identifiers, `remove_node(id)`
/// leaves no part with identifier `id` below the root.
pub proof fn law_remove_node_removes(old_t: PartTree, new_t: PartTree, id: u64)
    requires
        is_removal(old_t, new_t, id),
        unique_ids(old_t.nodes()),
        old_t.id.value != id,
    ensures
        !has_id(new_t.nodes(), id),
{
    lemma_removal_drops_id(old_t, new_t, id);
}


/// A sequence of parts in which no part has identifier `id` gives no
/// match for it.
proof fn lemma_no_id_no_match(s: Seq<PartTree>, id: u64)
    requires
        !has_id(s, id),
    ensures
        first_with_id(s, id) is None,
{
    lemma_first_with_id_found(s, id);
}

/// The tree `subtree_index` picks is the first that holds a part with
/// identifier `id`, and the forest's first match is that tree's.
proof fn lemma_subtree_index_found(ts: Seq<PartTree>, id: u64)
    requires
        first_with_id(forest_nodes(ts), id) is Some,
    ensures
        0 <= subtree_index(ts, id) < ts.len(),
        first_with_id(ts[subtree_index(ts, id)].nodes(), id) is Some,
        forall|j: int| 0 <= j < subtree_index(ts, id) ==> first_with_id(#[trigger] ts[j].nodes(), id) is None,
        first_with_id(forest_nodes(ts), id) == first_with_id(ts[subtree_index(ts, id)].nodes(), id),
    decreases ts.len(),
{
    if ts.len() == 0 {
        assert(forest_nodes(ts) =~= Seq::<PartTree>::empty());
    } else {
        lemma_first_with_id_append(ts[0].nodes(), forest_nodes(ts.drop_first()), id);
        if first_with_id(ts[0].nodes(), id) is None {
            lemma_subtree_index_found(ts.drop_first(), id);
            assert forall|j: int| 0 <= j < subtree_index(ts, id) implies first_with_id(#[trigger] ts[j].nodes(), id) is None by {
                if j > 0 {
                    assert(ts[j] == ts.drop_first()[j - 1]);
                }
            }
        }
    }
}

/// Attaching `child`, whose identifier no part of `old_t` has, under the
/// first part with identifier `parent` (the tree that `add_child` leaves)
/// makes a lookup of the child's identifier find exactly the child.
pub proof fn law_add_child_then_find(old_t: PartTree, new_t: PartTree, parent: u64, child: PartTree, n: PartTree)
    requires
        first_with_id(old_t.nodes(), parent) is Some,
        replaces_first(old_t, new_t, parent, n),
        n.id == first_with_id(old_t.nodes(), parent)->0.id,
        n.joint == first_with_id(old_t.nodes(), parent)->0.joint,
        n.children@ == first_with_id(old_t.nodes(), parent)->0.children@.push(child),
        !has_id(old_t.nodes(), child.id.value),
    ensures
        first_with_id(new_t.nodes(), child.id.value) == Some(child),
    decreases old_t,
{
    let cid = child.id.value;
    assert(old_t.nodes()[0] == old_t);
    assert(old_t.id.value != cid);
    assert(old_t.nodes().drop_first() =~= forest_nodes(old_t.children@));
    lemma_has_id_append(seq![old_t], forest_nodes(old_t.children@), cid);
    assert(seq![old_t] + forest_nodes(old_t.children@) =~= old_t.nodes());
    assert(child.nodes()[0] == child);
    assert(new_t.nodes()[0] == new_t);
    assert(new_t.nodes().drop_first() =~= forest_nodes(new_t.children@));
    if old_t.id.value == parent {
        assert(new_t == n);
        lemma_forest_push(old_t.children@, child);
        lemma_no_id_no_match(forest_nodes(old_t.children@), cid);
        lemma_first_with_id_append(forest_nodes(old_t.children@), child.nodes(), cid);
    } else {
        let ts = old_t.children@;
        let us = new_t.children@;
        let k = subtree_index(ts, parent);
        lemma_first_in_children(old_t, parent);
        lemma_subtree_index_found(ts, parent);
        lemma_forest_split(ts, k);
        lemma_forest_split(us, k);
        assert(us.take(k) =~= ts.take(k));
        assert(us.skip(k + 1) =~= ts.skip(k + 1));
        lemma_has_id_append(forest_nodes(ts.take(k)) + ts[k].nodes(), forest_nodes(ts.skip(k + 1)), cid);
        lemma_has_id_append(forest_nodes(ts.take(k)), ts[k].nodes(), cid);
        assert(decreases_to!(old_t => old_t.children@[k]));
        law_add_child_then_find(ts[k], us[k], parent, child, n);
        lemma_no_id_no_match(forest_nodes(ts.take(k)), cid);
        lemma_first_with_id_append(forest_nodes(us.take(k)), us[k].nodes(), cid);
        lemma_first_with_id_append(forest_nodes(us.take(k)) + us[k].nodes(), forest_nodes(us.skip(k + 1)), cid);
        assert(new_t.id.value != cid);
    }
}


/// `a` and `b` are the same tree: the same identifiers and joints, with the
/// same number of children, each the same tree.
pub open spec fn same_tree(a: PartTree, b: PartTree) -> bool
    decreases a,
{
    &&& a.id == b.id
    &&& a.joint == b.joint
    &&& a.children@.len() == b.children@.len()
    &&& forall|j: int| 0 <= j < a.children@.len() ==> same_tree(#[trigger] a.children@[j], b.children@[j])
}

/// A part of tree `k` of `ts` is a part of the forest `ts`.
proof fn lemma_forest_has_subtree_id(ts: Seq<PartTree>, k: int, id: u64)
    requires
        0 <= k < ts.len(),
        has_id(ts[k].nodes(), id),
    ensures
        has_id(forest_nodes(ts), id),
{
    lemma_forest_split(ts, k);
    lemma_has_id_append(forest_nodes(ts.take(k)), ts[k].nodes(), id);
    lemma_has_id_append(forest_nodes(ts.take(k)) + ts[k].nodes(), forest_nodes(ts.skip(k + 1)), id);
}

/// No tree of `ts` gives an answer, so the forest gives none.
proof fn lemma_forest_removal_none(ts: Seq<PartTree>, id: u64)
    requires
        forall|j: int| 0 <= j < ts.len() ==> removal_result(#[trigger] ts[j], id) is None,
    ensures
        forest_removal_result(ts, id) is None,
    decreases ts.len(),
{
    if ts.len() > 0 {
        assert(removal_result(ts[0], id) is None);
        assert forall|j: int| 0 <= j < ts.drop_first().len() implies removal_result(#[trigger] ts.drop_first()[j], id) is None by {
            assert(ts.drop_first()[j] == ts[j + 1]);
        }
        lemma_forest_removal_none(ts.drop_first(), id);
    }
}

/// Removing an identifier that no part below the root has leaves the tree
/// as it was, and answers no parent.
pub proof fn law_remove_node_absent(old_t: PartTree, new_t: PartTree, id: u64)
    requires
        is_removal(old_t, new_t, id),
        !has_id(forest_nodes(old_t.children@), id),
    ensures
        same_tree(old_t, new_t),
        removal_result(old_t, id) is None,
    decreases old_t,
{
    let ts = old_t.children@;
    lemma_child_index(ts, id);
    if child_index(ts, id) < ts.len() {
        let k = child_index(ts, id);
        assert(ts[k].nodes()[0] == ts[k]);
        assert(has_id(ts[k].nodes(), id));
        lemma_forest_has_subtree_id(ts, k, id);
    }
    assert forall|j: int| 0 <= j < ts.len() implies same_tree(#[trigger] ts[j], new_t.children@[j]) && removal_result(
        ts[j],
        id,
    ) is None by {
        assert(is_removal(ts[j], new_t.children@[j], id));
        if has_id(forest_nodes(ts[j].children@), id) {
            assert(ts[j].nodes().drop_first() =~= forest_nodes(ts[j].children@));
            lemma_has_id_append(seq![ts[j]], forest_nodes(ts[j].children@), id);
            assert(seq![ts[j]] + forest_nodes(ts[j].children@) =~= ts[j].nodes());
            lemma_forest_has_subtree_id(ts, j, id);
        }
        assert(decreases_to!(old_t => old_t.children@[j]));
        law_remove_node_absent(ts[j], new_t.children@[j], id);
    }
    assert forall|j: int| 0 <= j < ts.len() implies removal_result(#[trigger] ts[j], id) is None by {
        assert(same_tree(ts[j], new_t.children@[j]) && removal_result(ts[j], id) is None);
    }
    lemma_forest_removal_none(ts, id);
}

/// In a tree whose parts have distinct identifiers, removing the root's
/// own identifier leaves the tree as it was and answers no parent.
pub proof fn law_remove_root_id(old_t: PartTree, new_t: PartTree)
    requires
        is_removal(old_t, new_t, old_t.id.value),
        unique_ids(old_t.nodes()),
    ensures
        same_tree(old_t, new_t),
        removal_result(old_t, old_t.id.value) is None,
{
    let id = old_t.id.value;
    assert(old_t.nodes().drop_first() =~= forest_nodes(old_t.children@));
    assert(seq![old_t] + forest_nodes(old_t.children@) =~= old_t.nodes());
    lemma_has_id_append(seq![old_t], forest_nodes(old_t.children@), id);
    assert(seq![old_t][0] == old_t);
    assert(has_id(seq![old_t], id));
    law_remove_node_absent(old_t, new_t, id);
}

} // verus!
