use vstd::prelude::*;

use crate::object::{lemma_slab_hit_grows, slab_hit, BoundingBox, Object};
use crate::types::Ray;
use crate::types::Axis;

verus! {

broadcast use vstd::seq_lib::group_to_multiset_ensures;

/// The coordinate of an object's midpoint along `axis`.
pub open spec fn key<O: Object>(o: O, axis: Axis) -> int {
    axis.spec_get(o.spec_midpoint()) as int
}

/// `b` grown by the box of a child, if the child has one.
pub open spec fn with_child(b: BoundingBox, child: Option<BoundingBox>) -> BoundingBox {
    match child {
        Some(c) => b.union(c),
        None => b,
    }
}

/// A node of a k-d tree: an object, the axis on which the node splits, the
/// subtrees on either side, and a box that holds the whole subtree.
pub struct KdBranch<O> {
    pub object: O,
    pub bounding_box: BoundingBox,
    pub axis: Axis,
    pub left: KdTree<O>,
    pub right: KdTree<O>,
}

/// A k-d tree over scene objects.
pub enum KdTree<O> {
    Branch(Box<KdBranch<O>>),
    Leaf,
}

impl<O: Object> KdTree<O> {
    /// The box stored at the root, if the tree is not empty.
    pub open spec fn spec_box(self) -> Option<BoundingBox> {
        match self {
            KdTree::Branch(br) => Some(br.bounding_box),
            KdTree::Leaf => None,
        }
    }

    /// The objects of the tree in order: left subtree, node, right subtree.
    pub open spec fn objects(self) -> Seq<O>
        decreases self,
    {
        match self {
            KdTree::Branch(br) => br.left.objects() + seq![br.object] + br.right.objects(),
            KdTree::Leaf => Seq::empty(),
        }
    }

    /// The tree's invariant, for a root that splits on `axis`: each branch
    /// splits on the axis that follows its parent's, holds a well-formed
    /// object, and stores the union of its object's box with the boxes of
    /// its subtrees.
    pub open spec fn wf_at(self, axis: Axis) -> bool
        decreases self,
    {
        match self {
            KdTree::Branch(br) => {
                &&& br.axis == axis
                &&& br.object.obj_wf()
                &&& br.object.spec_bounding_box().wf()
                &&& br.bounding_box == with_child(
                    with_child(br.object.spec_bounding_box(), br.left.spec_box()),
                    br.right.spec_box(),
                )
                &&& br.left.wf_at(axis.spec_next())
                &&& br.right.wf_at(axis.spec_next())
            },
            KdTree::Leaf => true,
        }
    }

    /// Each branch splits its objects by their midpoints' coordinate on its
    /// axis: none on the left lies after the branch's own object, none on the
    /// right lies before it.
    pub open spec fn ordered_at(self, axis: Axis) -> bool
        decreases self,
    {
        match self {
            KdTree::Branch(br) => {
                &&& forall|x: O| #[trigger] br.left.objects().contains(x) ==> key(x, axis) <= key(br.object, axis)
                &&& forall|x: O| #[trigger] br.right.objects().contains(x) ==> key(x, axis) >= key(br.object, axis)
                &&& br.left.ordered_at(axis.spec_next())
                &&& br.right.ordered_at(axis.spec_next())
            },
            KdTree::Leaf => true,
        }
    }

    /// At each branch the two subtrees differ in size by at most one object.
    pub open spec fn balanced(self) -> bool
        decreases self,
    {
        match self {
            KdTree::Branch(br) => {
                &&& br.left.objects().len() <= br.right.objects().len() + 1
                &&& br.right.objects().len() <= br.left.objects().len() + 1
                &&& br.left.balanced()
                &&& br.right.balanced()
            },
            KdTree::Leaf => true,
        }
    }

    /// The invariant of a whole tree, whose root splits on the X axis.
    pub open spec fn wf(self) -> bool {
        self.wf_at(Axis::X) && self.ordered_at(Axis::X)
    }
}

/// A well-formed tree stores a well-formed box at its root, if it has one.
pub proof fn lemma_box_wf<O: Object>(t: KdTree<O>, axis: Axis)
    requires
        t.wf_at(axis),
    ensures
        t.spec_box() matches Some(b) ==> b.wf(),
    decreases t,
{
    if let KdTree::Branch(br) = t {
        lemma_box_wf(br.left, axis.spec_next());
        lemma_box_wf(br.right, axis.spec_next());
        let own = br.object.spec_bounding_box();
        let mid = with_child(own, br.left.spec_box());
        if let Some(l) = br.left.spec_box() {
            crate::object::lemma_expand_laws(own, l);
        }
        if let Some(r) = br.right.spec_box() {
            crate::object::lemma_expand_laws(mid, r);
        }
    }
}

/// Every branch's box holds the box of its own object and the boxes of both
/// of its subtrees, all the way down.
pub open spec fn boxes_nest<O: Object>(t: KdTree<O>) -> bool
    decreases t,
{
    match t {
        KdTree::Branch(br) => {
            &&& br.bounding_box.contains(br.object.spec_bounding_box())
            &&& (br.left.spec_box() matches Some(l) ==> br.bounding_box.contains(l))
            &&& (br.right.spec_box() matches Some(r) ==> br.bounding_box.contains(r))
            &&& boxes_nest(br.left)
            &&& boxes_nest(br.right)
        },
        KdTree::Leaf => true,
    }
}

/// In a well-formed tree, the box of every branch holds the box of its own
/// object and the boxes of both of its subtrees.
pub proof fn lemma_branch_box_contains<O: Object>(t: KdTree<O>, axis: Axis)
    requires
        t.wf_at(axis),
    ensures
        boxes_nest(t),
    decreases t,
{
    if let KdTree::Branch(br) = t {
        lemma_box_wf(br.left, axis.spec_next());
        lemma_box_wf(br.right, axis.spec_next());
        lemma_branch_box_contains(br.left, axis.spec_next());
        lemma_branch_box_contains(br.right, axis.spec_next());
        let own = br.object.spec_bounding_box();
        let mid = with_child(own, br.left.spec_box());
        if let Some(l) = br.left.spec_box() {
            crate::object::lemma_expand_laws(own, l);
        }
        if let Some(r) = br.right.spec_box() {
            crate::object::lemma_expand_laws(mid, r);
        }
    }
}

/// The objects that a query along `ray` reports, in tree order: a subtree
/// whose box the ray's line misses is skipped whole, and a node's object is
/// reported where the line passes through the object's own box.
pub open spec fn box_hits<O: Object>(t: KdTree<O>, ray: Ray) -> Seq<O>
    decreases t,
{
    match t {
        KdTree::Branch(br) => if slab_hit(br.bounding_box, ray) {
            box_hits(br.left, ray) + (if slab_hit(br.object.spec_bounding_box(), ray) {
                seq![br.object]
            } else {
                Seq::empty()
            }) + box_hits(br.right, ray)
        } else {
            Seq::empty()
        },
        KdTree::Leaf => Seq::empty(),
    }
}

impl<O: Object + Copy> KdTree<O> {
    fn collect_box_hits(&self, axis: Axis, ray: &Ray, out: &mut Vec<O>)
        requires
            self.wf_at(axis),
        ensures
            final(out)@ == old(out)@ + box_hits(*self, *ray),
        decreases self,
    {
        match self {
            KdTree::Branch(br) => {
                if br.bounding_box.test_ray_simple(ray) {
                    let next = axis.next();
                    br.left.collect_box_hits(next, ray, out);
                    let own = br.object.bounding_box();
                    if own.test_ray_simple(ray) {
                        out.push(br.object);
                    }
                    br.right.collect_box_hits(next, ray, out);
                    assert(final(out)@ =~= old(out)@ + box_hits(*self, *ray));
                } else {
                    assert(final(out)@ =~= old(out)@ + box_hits(*self, *ray));
                }
            },
            KdTree::Leaf => {
                assert(final(out)@ =~= old(out)@ + box_hits(*self, *ray));
            },
        }
    }

    /// The objects whose boxes the line of `ray` passes through, found by
    /// walking down the tree and skipping each subtree whose box the line
    /// misses.
    pub fn query(&self, ray: &Ray) -> (r: Vec<O>)
        requires
            self.wf(),
        ensures
            r@ == box_hits(*self, *ray),
            forall|x: O| r@.contains(x) <==> (self.objects().contains(x) && slab_hit(x.spec_bounding_box(), *ray)),
    {
        let mut r: Vec<O> = Vec::new();
        self.collect_box_hits(Axis::X, ray, &mut r);
        proof {
            assert(r@ =~= box_hits(*self, *ray));
            assert forall|x: O| r@.contains(x) <==> (self.objects().contains(x) && slab_hit(x.spec_bounding_box(), *ray)) by {
                lemma_box_hits_complete(*self, Axis::X, *ray, x);
            }
        }
        r
    }
}

/// Skipping the subtrees whose boxes a ray misses loses nothing: the query
/// reports exactly the objects of the tree whose own boxes the ray's line
/// passes through.
pub proof fn lemma_box_hits_complete<O: Object>(t: KdTree<O>, axis: Axis, ray: Ray, x: O)
    requires
        t.wf_at(axis),
    ensures
        box_hits(t, ray).contains(x) <==> (t.objects().contains(x) && slab_hit(x.spec_bounding_box(), ray)),
    decreases t,
{
    lemma_branch_box_contains(t, axis);
    if let KdTree::Branch(br) = t {
        lemma_box_hits_complete(br.left, axis.spec_next(), ray, x);
        lemma_box_hits_complete(br.right, axis.spec_next(), ray, x);
        lemma_within(br.left, axis.spec_next(), x);
        lemma_within(br.right, axis.spec_next(), x);
        let mid: Seq<O> = if slab_hit(br.object.spec_bounding_box(), ray) { seq![br.object] } else { Seq::empty() };
        let whole = br.left.objects() + seq![br.object] + br.right.objects();
        if slab_hit(br.bounding_box, ray) {
            let found = box_hits(br.left, ray) + mid + box_hits(br.right, ray);
            if found.contains(x) {
                let i = choose|i: int| 0 <= i < found.len() && found[i] == x;
                if i < box_hits(br.left, ray).len() {
                    assert(box_hits(br.left, ray).contains(x));
                    let j = choose|j: int| 0 <= j < br.left.objects().len() && br.left.objects()[j] == x;
                    assert(whole[j] == x);
                } else if i < box_hits(br.left, ray).len() + mid.len() {
                    assert(whole[br.left.objects().len() as int] == x);
                } else {
                    assert(box_hits(br.right, ray)[i - box_hits(br.left, ray).len() - mid.len()] == x);
                    assert(box_hits(br.right, ray).contains(x));
                    let j = choose|j: int| 0 <= j < br.right.objects().len() && br.right.objects()[j] == x;
                    assert(whole[br.left.objects().len() + 1 + j] == x);
                }
            }
            if whole.contains(x) && slab_hit(x.spec_bounding_box(), ray) {
                let i = choose|i: int| 0 <= i < whole.len() && whole[i] == x;
                if i < br.left.objects().len() {
                    assert(br.left.objects()[i] == x);
                    assert(box_hits(br.left, ray).contains(x));
                    let j = choose|j: int| 0 <= j < box_hits(br.left, ray).len() && box_hits(br.left, ray)[j] == x;
                    assert(found[j] == x);
                } else if i == br.left.objects().len() {
                    assert(found[box_hits(br.left, ray).len() as int] == x);
                } else {
                    assert(br.right.objects()[i - br.left.objects().len() - 1] == x);
                    assert(box_hits(br.right, ray).contains(x));
                    let j = choose|j: int| 0 <= j < box_hits(br.right, ray).len() && box_hits(br.right, ray)[j] == x;
                    assert(found[box_hits(br.left, ray).len() + mid.len() + j] == x);
                }
            }
        } else {
            assert(box_hits(t, ray) =~= Seq::<O>::empty());
            if whole.contains(x) && slab_hit(x.spec_bounding_box(), ray) {
                let i = choose|i: int| 0 <= i < whole.len() && whole[i] == x;
                if i < br.left.objects().len() {
                    assert(br.left.objects()[i] == x);
                    lemma_slab_hit_grows(x.spec_bounding_box(), br.bounding_box, ray);
                } else if i == br.left.objects().len() {
                    lemma_slab_hit_grows(x.spec_bounding_box(), br.bounding_box, ray);
                } else {
                    assert(br.right.objects()[i - br.left.objects().len() - 1] == x);
                    lemma_slab_hit_grows(x.spec_bounding_box(), br.bounding_box, ray);
                }
            }
        }
    }
}

/// The box at the root of a well-formed tree holds the box of each of its
/// objects.
proof fn lemma_within<O: Object>(t: KdTree<O>, axis: Axis, x: O)
    requires
        t.wf_at(axis),
    ensures
        t.objects().contains(x) ==> (t.spec_box() matches Some(b) && b.contains(x.spec_bounding_box())),
    decreases t,
{
    lemma_branch_box_contains(t, axis);
    if let KdTree::Branch(br) = t {
        lemma_within(br.left, axis.spec_next(), x);
        lemma_within(br.right, axis.spec_next(), x);
        let whole = br.left.objects() + seq![br.object] + br.right.objects();
        if whole.contains(x) {
            let i = choose|i: int| 0 <= i < whole.len() && whole[i] == x;
            if i < br.left.objects().len() {
                assert(br.left.objects()[i] == x);
            } else if i > br.left.objects().len() {
                assert(br.right.objects()[i - br.left.objects().len() - 1] == x);
            }
        }
    }
}

proof fn lemma_insert_to_multiset<A>(s: Seq<A>, p: int, a: A)
    requires
        0 <= p <= s.len(),
    ensures
        s.insert(p, a).to_multiset() =~= s.to_multiset().insert(a),
{
    let front = s.subrange(0, p);
    let back = s.subrange(p, s.len() as int);
    assert(s =~= front + back);
    assert(s.insert(p, a) =~= front.push(a) + back);
    vstd::seq_lib::lemma_multiset_commutative(front, back);
    vstd::seq_lib::lemma_multiset_commutative(front.push(a), back);
}

fn key_of<O: Object>(o: &O, axis: Axis) -> (r: i32)
    requires
        o.obj_wf(),
    ensures
        r == key(*o, axis),
{
    let m = o.midpoint();
    axis.get(&m)
}

/// The objects of `objects`, ordered by their midpoints' coordinates along
/// `axis`.
fn sort_by_axis<O: Object>(objects: Vec<O>, axis: Axis) -> (r: Vec<O>)
    requires
        forall|i: int| 0 <= i < objects@.len() ==> #[trigger] objects@[i].obj_wf(),
    ensures
        r@.to_multiset() == objects@.to_multiset(),
        r@.len() == objects@.len(),
        forall|i: int| 0 <= i < r@.len() ==> #[trigger] r@[i].obj_wf(),
        forall|i: int, j: int| 0 <= i < j < r@.len() ==> key(r@[i], axis) <= key(r@[j], axis),
{
    let mut input = objects;
    let mut sorted: Vec<O> = Vec::new();
    while input.len() > 0
        invariant
            sorted@.to_multiset().add(input@.to_multiset()) == objects@.to_multiset(),
            forall|i: int| 0 <= i < input@.len() ==> #[trigger] input@[i].obj_wf(),
            forall|i: int| 0 <= i < sorted@.len() ==> #[trigger] sorted@[i].obj_wf(),
            forall|i: int, j: int| 0 <= i < j < sorted@.len() ==> key(sorted@[i], axis) <= key(sorted@[j], axis),
        decreases input@.len(),
    {
        let ghost before = input@;
        let o = input.pop().unwrap();
        proof {
            assert(before =~= input@.push(o));
        }
        let k = key_of(&o, axis);
        let mut p: usize = 0;
        while p < sorted.len() && key_of(&sorted[p], axis) <= k
            invariant
                p <= sorted@.len(),
                forall|i: int| 0 <= i < sorted@.len() ==> #[trigger] sorted@[i].obj_wf(),
                forall|i: int| 0 <= i < p ==> key(#[trigger] sorted@[i], axis) <= k,
            decreases sorted@.len() - p,
        {
            p = p + 1;
        }
        proof {
            lemma_insert_to_multiset(sorted@, p as int, o);
        }
        let ghost old_sorted = sorted@;
        sorted.insert(p, o);
        proof {
            assert forall|i: int, j: int| 0 <= i < j < sorted@.len() implies key(sorted@[i], axis) <= key(sorted@[j], axis) by {
                if j < p {
                } else if j == p {
                } else if i < p {
                    assert(key(old_sorted[p as int], axis) > k);
                    assert(sorted@[j] == old_sorted[j - 1]);
                } else if i == p {
                    assert(key(old_sorted[p as int], axis) > k);
                    assert(sorted@[j] == old_sorted[j - 1]);
                } else {
                    assert(sorted@[i] == old_sorted[i - 1]);
                    assert(sorted@[j] == old_sorted[j - 1]);
                }
            }
        }
    }
    proof {
        assert(input@ =~= Seq::<O>::empty());
        assert(sorted@.to_multiset().add(input@.to_multiset()) =~= sorted@.to_multiset());
        assert(sorted@.len() == sorted@.to_multiset().len());
        assert(objects@.len() == objects@.to_multiset().len());
    }
    sorted
}

impl<O: Object> KdTree<O> {
    fn from_objects_axis(objects: Vec<O>, axis: Axis) -> (r: KdTree<O>)
        requires
            forall|i: int| 0 <= i < objects@.len() ==> #[trigger] objects@[i].obj_wf(),
        ensures
            r.wf_at(axis),
            r.ordered_at(axis),
            r.balanced(),
            r.objects().to_multiset() == objects@.to_multiset(),
        decreases objects@.len(),
    {
        if objects.len() == 0 {
            proof {
                assert(objects@ =~= Seq::<O>::empty());
            }
            return KdTree::Leaf;
        }
        let mut sorted = sort_by_axis(objects, axis);
        let ghost whole = sorted@;
        let m: usize = sorted.len() / 2;
        let right_objects = sorted.split_off(m + 1);
        let median = sorted.pop().unwrap();
        proof {
            assert(whole =~= sorted@ + seq![median] + right_objects@);
            vstd::seq_lib::lemma_multiset_commutative(sorted@ + seq![median], right_objects@);
            vstd::seq_lib::lemma_multiset_commutative(sorted@, seq![median]);
            assert(median == whole[m as int]);
            assert(sorted@ =~= whole.subrange(0, m as int));
            assert(right_objects@ =~= whole.subrange(m + 1, whole.len() as int));
        }
        let next_axis = axis.next();
        let left = KdTree::from_objects_axis(sorted, next_axis);
        let right = KdTree::from_objects_axis(right_objects, next_axis);

        let mut bounding_box = median.bounding_box();
        match &left {
            KdTree::Branch(br) => bounding_box.expand(&br.bounding_box),
            KdTree::Leaf => {},
        }
        match &right {
            KdTree::Branch(br) => bounding_box.expand(&br.bounding_box),
            KdTree::Leaf => {},
        }
        let r = KdTree::Branch(Box::new(KdBranch { object: median, bounding_box, axis, left, right }));
        proof {
            vstd::seq_lib::lemma_multiset_commutative(left.objects() + seq![median], right.objects());
            vstd::seq_lib::lemma_multiset_commutative(left.objects(), seq![median]);
            let front = whole.subrange(0, m as int);
            let back = whole.subrange(m + 1, whole.len() as int);
            assert(left.objects().to_multiset() == front.to_multiset());
            assert(right.objects().to_multiset() == back.to_multiset());
            assert forall|x: O| #[trigger] left.objects().contains(x) implies key(x, axis) <= key(median, axis) by {
                assert(left.objects().to_multiset().count(x) > 0);
                assert(front.to_multiset().count(x) > 0);
                assert(front.contains(x));
                let i = choose|i: int| 0 <= i < front.len() && front[i] == x;
                assert(whole[i] == x);
            }
            assert forall|x: O| #[trigger] right.objects().contains(x) implies key(x, axis) >= key(median, axis) by {
                assert(right.objects().to_multiset().count(x) > 0);
                assert(back.to_multiset().count(x) > 0);
                assert(back.contains(x));
                let i = choose|i: int| 0 <= i < back.len() && back[i] == x;
                assert(whole[m + 1 + i] == x);
            }
            assert(left.objects().len() == left.objects().to_multiset().len());
            assert(right.objects().len() == right.objects().to_multiset().len());
            assert(front.len() == front.to_multiset().len());
            assert(back.len() == back.to_multiset().len());
        }
        r
    }

    fn inserted(t: KdTree<O>, object: O, axis: Axis) -> (r: KdTree<O>)
        requires
            t.wf_at(axis),
            t.ordered_at(axis),
            object.obj_wf(),
        ensures
            r.wf_at(axis),
            r.ordered_at(axis),
            r.objects().to_multiset() == t.objects().to_multiset().insert(object),
            r.spec_box() == Some(with_child(object.spec_bounding_box(), t.spec_box())),
        decreases t,
    {
        match t {
            KdTree::Leaf => {
                let bounding_box = object.bounding_box();
                let r = KdTree::Branch(Box::new(KdBranch { object, bounding_box, axis, left: KdTree::Leaf, right: KdTree::Leaf }));
                proof {
                    assert(KdTree::<O>::Leaf.wf_at(axis.spec_next()));
                    assert(KdTree::<O>::Leaf.ordered_at(axis.spec_next()));
                    assert(KdTree::<O>::Leaf.objects() =~= Seq::<O>::empty());
                    assert(r.objects() =~= seq![object]);
                    assert(seq![object] =~= Seq::<O>::empty().push(object));
                }
                r
            },
            KdTree::Branch(br) => {
                let ghost old_t = KdTree::Branch(br);
                let KdBranch { object: node, bounding_box, axis: a, left, right } = *br;
                let added = object.bounding_box();
                let mut bb = bounding_box;
                bb.expand(&added);
                let ghost own = node.spec_bounding_box();
                proof {
                    lemma_box_wf(left, a.spec_next());
                    lemma_box_wf(right, a.spec_next());
                }
                if key_of(&object, a) < key_of(&node, a) {
                    let new_left = KdTree::inserted(left, object, a.next());
                    let r = KdTree::Branch(Box::new(KdBranch { object: node, bounding_box: bb, axis: a, left: new_left, right }));
                    proof {
                        assert(bb == with_child(object.spec_bounding_box(), old_t.spec_box()));
                        assert(r.objects() =~= new_left.objects() + seq![node] + right.objects());
                        vstd::seq_lib::lemma_multiset_commutative(new_left.objects() + seq![node], right.objects());
                        vstd::seq_lib::lemma_multiset_commutative(new_left.objects(), seq![node]);
                        vstd::seq_lib::lemma_multiset_commutative(left.objects() + seq![node], right.objects());
                        vstd::seq_lib::lemma_multiset_commutative(left.objects(), seq![node]);
                        assert forall|x: O| #[trigger] new_left.objects().contains(x) implies key(x, a) <= key(node, a) by {
                            assert(new_left.objects().to_multiset().count(x) > 0);
                            if x != object {
                                assert(left.objects().to_multiset().count(x) > 0);
                                assert(left.objects().contains(x));
                            }
                        }
                    }
                    r
                } else {
                    let new_right = KdTree::inserted(right, object, a.next());
                    let r = KdTree::Branch(Box::new(KdBranch { object: node, bounding_box: bb, axis: a, left, right: new_right }));
                    proof {
                        assert(bb == with_child(object.spec_bounding_box(), old_t.spec_box()));
                        assert(r.objects() =~= left.objects() + seq![node] + new_right.objects());
                        vstd::seq_lib::lemma_multiset_commutative(left.objects() + seq![node], new_right.objects());
                        vstd::seq_lib::lemma_multiset_commutative(left.objects(), seq![node]);
                        vstd::seq_lib::lemma_multiset_commutative(left.objects() + seq![node], right.objects());
                        assert forall|x: O| #[trigger] new_right.objects().contains(x) implies key(x, a) >= key(node, a) by {
                            assert(new_right.objects().to_multiset().count(x) > 0);
                            if x != object {
                                assert(right.objects().to_multiset().count(x) > 0);
                                assert(right.objects().contains(x));
                            }
                        }
                    }
                    r
                }
            },
        }
    }

    /// Adds `object` to the tree without rebalancing it: from the root down,
    /// the object goes left where its midpoint's coordinate on the node's axis
    /// is less than that of the node's object, and right otherwise, until it
    /// reaches an empty subtree. The boxes on the way grow to hold it.
    pub fn insert(&mut self, object: O)
        requires
            old(self).wf(),
            object.obj_wf(),
        ensures
            final(self).wf(),
            final(self).objects().to_multiset() == old(self).objects().to_multiset().insert(object),
            final(self).spec_box() == Some(with_child(object.spec_bounding_box(), old(self).spec_box())),
    {
        let mut t = KdTree::Leaf;
        std::mem::swap(self, &mut t);
        assert(t.wf_at(Axis::X) && t.ordered_at(Axis::X));
        *self = KdTree::inserted(t, object, Axis::X);
    }

    /// Builds a tree that holds exactly the given objects: each node holds the
    /// median of its objects by midpoint along its axis, those before it go
    /// left and those after it go right, and the axis turns X, Y, Z, X, ...
    /// from the root down.
    pub fn from_objects(objects: Vec<O>) -> (r: KdTree<O>)
        requires
            forall|i: int| 0 <= i < objects@.len() ==> #[trigger] objects@[i].obj_wf(),
        ensures
            r.wf(),
            r.ordered_at(Axis::X),
            r.balanced(),
            r.objects().to_multiset() == objects@.to_multiset(),
    {
        KdTree::from_objects_axis(objects, Axis::X)
    }
}

} // verus!
