use vstd::prelude::*;
use vstd::seq_lib::group_to_multiset_ensures;
use vstd::multiset::group_multiset_axioms;
use crate::hittable::{HitRecord, linear_hit, lemma_linear_hit_concat, lemma_linear_hit_range};
use crate::hittable::aabb::{Aabb, aabb_hit_spec, lemma_aabb_hit_mono,
    lemma_surrounding_box_contains, surrounding_box, surrounding_box_spec};
use crate::hittable::sphere::{Sphere, sphere_hit_spec};
use crate::ray::{Ray, T_LIMIT};

verus! {

/// A binary tree over the scene's spheres, built once, queried per ray. Each
/// node's box is the union of its children's, so a ray interval that misses
/// a node's box misses everything beneath it, and pruning never changes the
/// answer of the linear scan.
pub enum BvhTree {
    Empty,
    Leaf(Sphere),
    Node { bbox: Aabb, left: Box<BvhTree>, right: Box<BvhTree> },
}

impl BvhTree {
    /// The spheres beneath this node, leaves left to right.
    pub open spec fn spheres(self) -> Seq<Sphere>
        decreases self,
    {
        match self {
            BvhTree::Empty => Seq::empty(),
            BvhTree::Leaf(s) => seq![s],
            BvhTree::Node { bbox, left, right } => (*left).spheres() + (*right).spheres(),
        }
    }

    /// The box around everything beneath this node.
    pub open spec fn bbox_spec(self) -> Aabb
        decreases self,
    {
        match self {
            BvhTree::Empty => Aabb {
                min: crate::vec::Vec3 { x: 0i64, y: 0i64, z: 0i64 },
                max: crate::vec::Vec3 { x: 0i64, y: 0i64, z: 0i64 },
            },
            BvhTree::Leaf(s) => s.box_spec(),
            BvhTree::Node { bbox, left, right } => bbox,
        }
    }

    pub open spec fn wf(self) -> bool
        decreases self,
    {
        match self {
            BvhTree::Empty => true,
            BvhTree::Leaf(s) => s.wf(),
            BvhTree::Node { bbox, left, right } => {
                &&& (*left).wf()
                &&& (*right).wf()
                &&& !((*left) is Empty)
                &&& !((*right) is Empty)
                &&& bbox == surrounding_box_spec((*left).bbox_spec(), (*right).bbox_spec())
            },
        }
    }
}

/// A well-formed sphere's own box is a well-formed box.
proof fn lemma_sphere_box_wf(s: Sphere)
    requires
        s.wf(),
    ensures
        s.box_spec().wf(),
{
}

/// A non-empty well-formed tree has a well-formed box.
proof fn lemma_bbox_wf(t: BvhTree)
    requires
        t.wf(),
        !(t is Empty),
    ensures
        t.bbox_spec().wf(),
    decreases t,
{
    match t {
        BvhTree::Empty => {},
        BvhTree::Leaf(s) => {
            lemma_sphere_box_wf(s);
        },
        BvhTree::Node { bbox, left, right } => {
            lemma_bbox_wf(*left);
            lemma_bbox_wf(*right);
            lemma_surrounding_box_contains((*left).bbox_spec(), (*right).bbox_spec());
        },
    }
}

/// If the ray interval misses a node's box, the linear scan over every
/// sphere beneath that node comes up empty.
proof fn lemma_box_prune(t: BvhTree, r: Ray, tmin: int, tmax: int)
    requires
        t.wf(),
        !(t is Empty),
        !aabb_hit_spec(t.bbox_spec(), r, tmin, tmax),
        -T_LIMIT <= tmin <= T_LIMIT,
        -T_LIMIT <= tmax <= T_LIMIT,
    ensures
        linear_hit(t.spheres(), r, tmin, tmax) == None::<HitRecord>,
    decreases t,
{
    match t {
        BvhTree::Empty => {},
        BvhTree::Leaf(s) => {
            assert(t.spheres() == seq![s]);
            assert(sphere_hit_spec(s, r, tmin, tmax) is None);
            assert(t.spheres().drop_first() =~= Seq::<Sphere>::empty());
        },
        BvhTree::Node { bbox, left, right } => {
            lemma_bbox_wf(*left);
            lemma_bbox_wf(*right);
            lemma_surrounding_box_contains((*left).bbox_spec(), (*right).bbox_spec());
            if aabb_hit_spec((*left).bbox_spec(), r, tmin, tmax) {
                lemma_aabb_hit_mono((*left).bbox_spec(), bbox, r, tmin, tmax);
            }
            if aabb_hit_spec((*right).bbox_spec(), r, tmin, tmax) {
                lemma_aabb_hit_mono((*right).bbox_spec(), bbox, r, tmin, tmax);
            }
            lemma_box_prune(*left, r, tmin, tmax);
            lemma_box_prune(*right, r, tmin, tmax);
            lemma_linear_hit_concat((*left).spheres(), (*right).spheres(), r, tmin, tmax);
        },
    }
}

/// The box minimum of a sphere along the splitting axis, the build's sort
/// key.
pub open spec fn axis_key(s: Sphere, axis: u32) -> int {
    if axis == 0 {
        s.center.x - s.radius
    } else if axis == 1 {
        s.center.y - s.radius
    } else {
        s.center.z - s.radius
    }
}

pub open spec fn sorted_by_axis(ss: Seq<Sphere>, axis: u32) -> bool {
    forall|i: int, j: int|
        0 <= i < j < ss.len() ==> axis_key(#[trigger] ss[i], axis) <= axis_key(
            #[trigger] ss[j],
            axis,
        )
}

fn key(s: &Sphere, axis: u32) -> (k: i64)
    requires
        s.wf(),
        axis < 3,
    ensures
        k == axis_key(*s, axis),
{
    if axis == 0 {
        s.center.x - s.radius
    } else if axis == 1 {
        s.center.y - s.radius
    } else {
        s.center.z - s.radius
    }
}

/// Insertion sort by box minimum along one axis.
fn sort_by_axis(v: &mut Vec<Sphere>, axis: u32)
    requires
        axis < 3,
        forall|k: int| 0 <= k < old(v).len() ==> (#[trigger] old(v)[k]).wf(),
    ensures
        final(v).len() == old(v).len(),
        final(v)@.to_multiset() == old(v)@.to_multiset(),
        sorted_by_axis(final(v)@, axis),
        forall|k: int| 0 <= k < final(v).len() ==> (#[trigger] final(v)[k]).wf(),
{
    broadcast use group_to_multiset_ensures, group_multiset_axioms;

    let n = v.len();
    if n <= 1 {
        return ;
    }
    let mut i: usize = 1;
    while i < n
        invariant
            1 <= i <= n,
            n == v.len(),
            axis < 3,
            v@.to_multiset() == old(v)@.to_multiset(),
            sorted_by_axis(v@.subrange(0, i as int), axis),
            forall|k: int| 0 <= k < v.len() ==> (#[trigger] v[k]).wf(),
        decreases n - i,
    {
        let x = v[i];
        let ghost before = v@;
        let mut p: usize = i;
        while p > 0 && key(&v[p - 1], axis) > key(&x, axis)
            invariant
                0 <= p <= i < n,
                n == v.len(),
                axis < 3,
                v@ == before,
                x == before[i as int],
                forall|k: int| 0 <= k < v.len() ==> (#[trigger] v[k]).wf(),
                forall|k: int| p <= k < i ==> axis_key(#[trigger] before[k], axis) > axis_key(
                    x,
                    axis,
                ),
            decreases p,
        {
            p = p - 1;
        }
        v.remove(i);
        v.insert(p, x);
        proof {
            let after = v@;
            let removed = before.remove(i as int);
            vstd::seq_lib::to_multiset_remove::<Sphere>(before, i as int);
            vstd::seq_lib::to_multiset_insert::<Sphere>(removed, p as int, x);
            vstd::seq_lib::to_multiset_contains::<Sphere>(before, x);
            assert(before.contains(x)) by {
                assert(before[i as int] == x);
            }
            assert(after.to_multiset() =~= before.to_multiset());
            assert forall|k: int| 0 <= k < p implies #[trigger] after[k] == before[k] by {
                assert(removed[k] == before[k]);
            }
            assert(after[p as int] == x);
            assert forall|k: int| p < k <= i implies #[trigger] after[k] == before[k - 1] by {
                assert(removed[k - 1] == before[k - 1]);
            }
            let pre = after.subrange(0, i as int + 1);
            let sp = before.subrange(0, i as int);
            assert forall|a: int, b: int| 0 <= a < b < i + 1 implies axis_key(
                #[trigger] pre[a],
                axis,
            ) <= axis_key(#[trigger] pre[b], axis) by {
                assert(pre[a] == after[a] && pre[b] == after[b]);
                assert(forall|k: int| 0 <= k < i ==> #[trigger] sp[k] == before[k]);
                if b < p {
                    assert(axis_key(sp[a], axis) <= axis_key(sp[b], axis));
                } else if b == p {
                    assert(a < p);
                    if a < p - 1 {
                        assert(axis_key(sp[a], axis) <= axis_key(sp[p - 1], axis));
                    }
                    assert(axis_key(before[p - 1], axis) <= axis_key(x, axis));
                } else {
                    assert(after[b] == before[b - 1]);
                    assert(p <= b - 1 < i);
                    assert(axis_key(before[b - 1], axis) > axis_key(x, axis));
                    if a < p {
                        assert(after[a] == before[a]);
                        if a < p - 1 {
                            assert(axis_key(sp[a], axis) <= axis_key(sp[p - 1], axis));
                        }
                        assert(axis_key(before[p - 1], axis) <= axis_key(x, axis));
                    } else if a == p {
                        assert(after[a] == x);
                    } else {
                        assert(after[a] == before[a - 1]);
                        if a - 1 < b - 1 {
                            assert(axis_key(sp[a - 1], axis) <= axis_key(sp[b - 1], axis));
                        }
                    }
                }
            }
            assert(sorted_by_axis(after.subrange(0, i as int + 1), axis));
        }
        i = i + 1;
    }
    proof {
        assert(v@.subrange(0, n as int) =~= v@);
    }
}

impl BvhTree {
    /// The stored box of a non-empty node.
    pub fn bounding_box(&self) -> (r: Aabb)
        requires
            self.wf(),
            !(*self is Empty),
        ensures
            r == self.bbox_spec(),
            r.wf(),
    {
        proof {
            lemma_bbox_wf(*self);
        }
        match self {
            BvhTree::Empty => Aabb {
                min: crate::vec::Vec3 { x: 0, y: 0, z: 0 },
                max: crate::vec::Vec3 { x: 0, y: 0, z: 0 },
            },
            BvhTree::Leaf(s) => s.bounding_box(),
            BvhTree::Node { bbox, left, right } => *bbox,
        }
    }

    /// Build the tree over the given spheres: sort by box minimum along the
    /// cycling axis, split at the middle, recurse. The leaves hold exactly
    /// the spheres handed in.
    pub fn new(spheres: &Vec<Sphere>) -> (t: BvhTree)
        requires
            forall|k: int| 0 <= k < spheres.len() ==> (#[trigger] spheres[k]).wf(),
        ensures
            t.wf(),
            t.spheres().to_multiset() == spheres@.to_multiset(),
            t.spheres().len() == spheres.len(),
    {
        broadcast use group_to_multiset_ensures, group_multiset_axioms;

        let mut work: Vec<Sphere> = Vec::new();
        let mut i: usize = 0;
        while i < spheres.len()
            invariant
                0 <= i <= spheres.len(),
                work@ == spheres@.subrange(0, i as int),
                forall|k: int| 0 <= k < spheres.len() ==> (#[trigger] spheres[k]).wf(),
            decreases spheres.len() - i,
        {
            work.push(spheres[i]);
            proof {
                assert(work@ =~= spheres@.subrange(0, i as int + 1));
            }
            i = i + 1;
        }
        proof {
            assert(work@ =~= spheres@);
        }
        if work.len() == 0 {
            proof {
                assert(BvhTree::Empty.spheres().to_multiset() =~= work@.to_multiset());
            }
            return BvhTree::Empty;
        }
        Self::build(work, 0)
    }

    fn build(v: Vec<Sphere>, axis: u32) -> (t: BvhTree)
        requires
            v.len() >= 1,
            axis < 3,
            forall|k: int| 0 <= k < v.len() ==> (#[trigger] v[k]).wf(),
        ensures
            t.wf(),
            !(t is Empty),
            t.spheres().to_multiset() == v@.to_multiset(),
            t.spheres().len() == v.len(),
        decreases v.len(),
    {
        broadcast use group_to_multiset_ensures, group_multiset_axioms;

        let mut v = v;
        let n = v.len();
        if n == 1 {
            let s = v[0];
            proof {
                assert(seq![s] =~= v@);
            }
            return BvhTree::Leaf(s);
        }
        if n == 2 {
            let a = v[0];
            let b = v[1];
            let (first, second) = if key(&a, axis) <= key(&b, axis) {
                (a, b)
            } else {
                (b, a)
            };
            let lt = BvhTree::Leaf(first);
            let rt = BvhTree::Leaf(second);
            let bbox = surrounding_box(&lt.bounding_box(), &rt.bounding_box());
            let t = BvhTree::Node { bbox, left: Box::new(lt), right: Box::new(rt) };
            proof {
                reveal_with_fuel(BvhTree::spheres, 3);
                reveal_with_fuel(BvhTree::wf, 3);

                assert(t.spheres() =~= seq![first, second]);
                assert(v@ =~= seq![a, b]);
                assert(seq![a, b].to_multiset() =~= seq![b, a].to_multiset()) by {
                    assert(seq![a, b] =~= Seq::<Sphere>::empty().push(a).push(b));
                    assert(seq![b, a] =~= Seq::<Sphere>::empty().push(b).push(a));
                }
                assert(seq![first, second] =~= Seq::<Sphere>::empty().push(first).push(second));
            }
            return t;
        }
        sort_by_axis(&mut v, axis);
        let mid = n / 2;
        let ghost sorted = v@;
        let mut rightv: Vec<Sphere> = Vec::new();
        let mut j: usize = mid;
        while j < n
            invariant
                mid <= j <= n,
                n == v.len(),
                rightv@ == v@.subrange(mid as int, j as int),
                forall|k: int| 0 <= k < v.len() ==> (#[trigger] v[k]).wf(),
            decreases n - j,
        {
            rightv.push(v[j]);
            proof {
                assert(rightv@ =~= v@.subrange(mid as int, j as int + 1));
            }
            j = j + 1;
        }
        let mut leftv = v;
        leftv.truncate(mid);
        proof {
            assert(leftv@ =~= sorted.subrange(0, mid as int));
            assert(sorted =~= sorted.subrange(0, mid as int) + sorted.subrange(
                mid as int,
                n as int,
            ));
            vstd::seq_lib::lemma_multiset_commutative(
                sorted.subrange(0, mid as int),
                sorted.subrange(mid as int, n as int),
            );
        }
        let next_axis = if axis >= 2 {
            0
        } else {
            axis + 1
        };
        let lt = Self::build(leftv, next_axis);
        let rt = Self::build(rightv, next_axis);
        let bbox = surrounding_box(&lt.bounding_box(), &rt.bounding_box());
        let t = BvhTree::Node { bbox, left: Box::new(lt), right: Box::new(rt) };
        proof {
            vstd::seq_lib::lemma_multiset_commutative(lt.spheres(), rt.spheres());
        }
        t
    }

    /// The closest hit beneath this node: prune by the node's box, otherwise
    /// query the left child and let its answer tighten the right child's
    /// range. The result always equals the linear scan over this node's
    /// spheres.
    pub fn hit(&self, ray: &Ray, t_min: i64, t_max: i64) -> (res: Option<HitRecord>)
        requires
            self.wf(),
            ray.wf(),
            -T_LIMIT <= t_min <= T_LIMIT,
            -T_LIMIT <= t_max <= T_LIMIT,
        ensures
            res == linear_hit(self.spheres(), *ray, t_min as int, t_max as int),
            res matches Some(h) ==> {
                &&& h.wf()
                &&& t_min < h.t < t_max
            },
        decreases self,
    {
        proof {
            lemma_linear_hit_range(self.spheres(), *ray, t_min as int, t_max as int);
        }
        match self {
            BvhTree::Empty => {
                proof {
                    assert((*self) is Empty);
                    assert(self.spheres() =~= Seq::<Sphere>::empty());
                    assert(linear_hit(self.spheres(), *ray, t_min as int, t_max as int)
                        is None);
                }
                None
            },
            BvhTree::Leaf(s) => {
                proof {
                    reveal_with_fuel(crate::hittable::linear_hit, 2);
                    assert(self.spheres() == seq![*s]);
                    assert(self.spheres().drop_first() =~= Seq::<Sphere>::empty());
                }
                s.hit(ray, t_min, t_max)
            },
            BvhTree::Node { bbox, left, right } => {
                proof {
                    lemma_bbox_wf(*self);
                }
                if !bbox.hit(ray, t_min, t_max) {
                    proof {
                        lemma_box_prune(*self, *ray, t_min as int, t_max as int);
                    }
                    None
                } else {
                    proof {
                        lemma_linear_hit_concat(
                            (**left).spheres(),
                            (**right).spheres(),
                            *ray,
                            t_min as int,
                            t_max as int,
                        );
                    }
                    match left.hit(ray, t_min, t_max) {
                        Some(h) => match right.hit(ray, t_min, h.t) {
                            Some(h2) => Some(h2),
                            None => Some(h),
                        },
                        None => right.hit(ray, t_min, t_max),
                    }
                }
            },
        }
    }
}

/// The tree is purely a pruning accelerator: over the same sphere sequence,
/// its answer and the plain scan's answer are one and the same, hit or miss.
pub proof fn lemma_bvh_linear_equivalence(
    t: BvhTree,
    list: crate::hittable::HittableList,
    r: Ray,
    tmin: int,
    tmax: int,
)
    requires
        t.wf(),
        list.models@ == t.spheres(),
    ensures
        linear_hit(t.spheres(), r, tmin, tmax) == linear_hit(list.models@, r, tmin, tmax),
{
}

/// Every sphere beneath a well-formed tree is itself well-formed.
pub proof fn lemma_tree_spheres_wf(t: BvhTree)
    requires
        t.wf(),
    ensures
        forall|i: int| 0 <= i < t.spheres().len() ==> (#[trigger] t.spheres()[i]).wf(),
    decreases t,
{
    match t {
        BvhTree::Empty => {},
        BvhTree::Leaf(s) => {
            assert(t.spheres() == seq![s]);
        },
        BvhTree::Node { bbox, left, right } => {
            lemma_tree_spheres_wf(*left);
            lemma_tree_spheres_wf(*right);
            assert forall|i: int| 0 <= i < t.spheres().len() implies (
            #[trigger] t.spheres()[i]).wf() by {
                if i < (*left).spheres().len() {
                    assert(t.spheres()[i] == (*left).spheres()[i]);
                } else {
                    assert(t.spheres()[i] == (*right).spheres()[i - (*left).spheres().len()]);
                }
            }
        },
    }
}

} // verus!
