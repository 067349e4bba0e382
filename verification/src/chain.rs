//! The kinematic chain: an ordered sequence of joints with parallel
//! headings, resolved either by angle-constrained forward kinematics
//! (a spine led by its head) or by a forward-and-backward reaching
//! inverse-kinematics pass (a limb pinned at both ends).

use crate::angle::constrain_angle;
use crate::angle::constrain_spec;
use crate::fixed::int_abs;
use crate::fixed::MAX_COORD;
use crate::fixed::PI;
use crate::vector::cd_spec;
use crate::vector::constrain_distance;
use crate::vector::from_angle_spec;
use crate::vector::heading_of;
use crate::vector::in_range;
use crate::vector::lemma_scale_unit_bound;
use crate::vector::v_scale;
use crate::vector::v_sub;
use crate::vector::Vector2;
use vstd::prelude::*;

verus! {

/// An open chain of joints at fixed link length, with one heading per
/// joint and a per-link bend limit used by the forward-kinematics
/// resolver.
pub struct Chain {
    /// Joint positions, head first.
    pub joints: Vec<Vector2>,
    /// Target distance between adjacent joints.
    pub link_size: i64,
    /// Heading per joint: the direction from a joint toward its
    /// predecessor, index-aligned with `joints`.
    pub angles: Vec<i64>,
    /// Largest bend allowed between consecutive headings, in `[0, PI]`.
    pub angle_constraint: i64,
}

impl Chain {
    /// Well-formed chain: at least one joint, aligned sequences, a
    /// positive link length, a bend limit within a half turn, and all
    /// joints within the coordinate range.
    pub open spec fn wf(self) -> bool {
        &&& 1 <= self.joints@.len()
        &&& self.joints@.len() == self.angles@.len()
        &&& 0 < self.link_size <= MAX_COORD
        &&& 0 <= self.angle_constraint <= PI
        &&& forall|i: int|
            0 <= i < self.joints@.len() ==> in_range(#[trigger] self.joints@[i], MAX_COORD as int)
    }

    /// Total length of the chain when fully stretched; resolving
    /// toward a target this far inside the coordinate range keeps
    /// every joint in range.
    pub open spec fn reach(self) -> int {
        self.joints@.len() * self.link_size
    }

    /// A chain of `joint_count` joints stacked from `origin` along the
    /// positive y axis at `link_size` spacing, all headings zero.
    pub fn new(origin: Vector2, joint_count: usize, link_size: i64, angle_constraint: i64) -> (r:
        Chain)
        requires
            1 <= joint_count,
            0 < link_size <= MAX_COORD,
            0 <= angle_constraint <= PI,
            in_range(origin, MAX_COORD - joint_count * link_size),
        ensures
            r.wf(),
            r.joints@.len() == joint_count,
            r.angles@.len() == joint_count,
            r.link_size == link_size,
            r.angle_constraint == angle_constraint,
            forall|i: int|
                0 <= i < joint_count ==> #[trigger] r.joints@[i] == (Vector2 {
                    x: origin.x,
                    y: (origin.y + i * link_size) as i64,
                }),
            forall|i: int| 0 <= i < joint_count ==> #[trigger] r.angles@[i] == 0,
    {
        let mut joints: Vec<Vector2> = Vec::new();
        let mut angles: Vec<i64> = Vec::new();
        joints.push(origin);
        angles.push(0);
        let mut i: usize = 1;
        while i < joint_count
            invariant
                1 <= i <= joint_count,
                joints@.len() == i,
                angles@.len() == i,
                0 < link_size <= MAX_COORD,
                in_range(origin, MAX_COORD - joint_count * link_size),
                forall|j: int|
                    0 <= j < i ==> #[trigger] joints@[j] == (Vector2 {
                        x: origin.x,
                        y: (origin.y + j * link_size) as i64,
                    }),
                forall|j: int| 0 <= j < i ==> #[trigger] angles@[j] == 0,
            decreases joint_count - i,
        {
            proof {
                assert((i - 1) * link_size + link_size == i * link_size && 0 <= i * link_size
                    && i * link_size <= joint_count * link_size) by (nonlinear_arith)
                    requires
                        1 <= i <= joint_count,
                        0 < link_size,
                ;
            }
            let prev = joints[i - 1];
            joints.push(Vector2::new(prev.x, prev.y + link_size));
            angles.push(0);
            i += 1;
        }
        proof {
            assert forall|j: int| 0 <= j < joint_count implies in_range(
                #[trigger] joints@[j],
                MAX_COORD as int,
            ) by {
                assert(0 <= j * link_size <= joint_count * link_size) by (nonlinear_arith)
                    requires
                        0 <= j < joint_count,
                        0 < link_size,
                ;
            }
        }
        Chain { joints, link_size, angles, angle_constraint }
    }

    /// Angle-constrained forward kinematics: the head joint snaps to
    /// `pos` and takes the heading from its old position toward `pos`;
    /// each later joint takes the heading toward its updated
    /// predecessor, clamped to within `angle_constraint` of the
    /// predecessor's heading, and is repositioned exactly one link
    /// behind the predecessor along that heading. Adjacent distances
    /// are thus enforced by construction from heading and link size.
    pub fn resolve(&mut self, pos: Vector2)
        requires
            old(self).wf(),
            in_range(pos, MAX_COORD - old(self).reach()),
        ensures
            final(self).wf(),
            final(self).joints@.len() == old(self).joints@.len(),
            final(self).angles@.len() == old(self).angles@.len(),
            final(self).link_size == old(self).link_size,
            final(self).angle_constraint == old(self).angle_constraint,
            final(self).joints@[0] == pos,
            final(self).angles@[0] == heading_of(v_sub(pos, old(self).joints@[0])),
            forall|i: int|
                1 <= i < old(self).joints@.len() ==> #[trigger] final(self).angles@[i]
                    == constrain_spec(
                    heading_of(v_sub(final(self).joints@[i - 1], old(self).joints@[i])),
                    final(self).angles@[i - 1] as int,
                    old(self).angle_constraint as int,
                ),
            forall|i: int|
                1 <= i < old(self).joints@.len() ==> #[trigger] final(self).joints@[i] == v_sub(
                    final(self).joints@[i - 1],
                    v_scale(
                        from_angle_spec(final(self).angles@[i] as int),
                        old(self).link_size as int,
                    ),
                ),
    {
        let n = self.joints.len();
        let ghost bound0: int = MAX_COORD - old(self).reach();
        let head = self.joints[0];
        let dir = pos.sub(head);
        let a0 = dir.heading();
        self.angles.set(0, a0);
        self.joints.set(0, pos);
        let mut i: usize = 1;
        while i < n
            invariant
                1 <= i <= n,
                n == self.joints@.len(),
                n == old(self).joints@.len(),
                n == self.angles@.len(),
                old(self).wf(),
                self.link_size == old(self).link_size,
                self.angle_constraint == old(self).angle_constraint,
                bound0 == MAX_COORD - old(self).reach(),
                in_range(pos, bound0),
                self.joints@[0] == pos,
                self.angles@[0] == heading_of(v_sub(pos, old(self).joints@[0])),
                forall|j: int| i <= j < n ==> #[trigger] self.joints@[j] == old(self).joints@[j],
                forall|j: int| i <= j < n ==> #[trigger] self.angles@[j] == old(self).angles@[j],
                forall|j: int|
                    0 <= j < i ==> in_range(
                        #[trigger] self.joints@[j],
                        bound0 + (j + 1) * self.link_size,
                    ),
                forall|j: int|
                    1 <= j < i ==> #[trigger] self.angles@[j] == constrain_spec(
                        heading_of(v_sub(self.joints@[j - 1], old(self).joints@[j])),
                        self.angles@[j - 1] as int,
                        old(self).angle_constraint as int,
                    ),
                forall|j: int|
                    1 <= j < i ==> #[trigger] self.joints@[j] == v_sub(
                        self.joints@[j - 1],
                        v_scale(
                            from_angle_spec(self.angles@[j] as int),
                            old(self).link_size as int,
                        ),
                    ),
            decreases n - i,
        {
            proof {
                assert((i - 1 + 1) * self.link_size + self.link_size == (i + 1) * self.link_size
                    && 0 <= i * self.link_size && (i + 1) * self.link_size <= n * self.link_size)
                    by (nonlinear_arith)
                    requires
                        1 <= i < n,
                        0 < self.link_size,
                ;
            }
            let prev = self.joints[i - 1];
            let cur = self.joints[i];
            let d = prev.sub(cur);
            let raw = d.heading();
            let prev_angle = self.angles[i - 1];
            let a = constrain_angle(raw, prev_angle, self.angle_constraint);
            let unit = Vector2::from_angle(a);
            proof {
                lemma_scale_unit_bound(unit, self.link_size as int);
            }
            let step = unit.mul(self.link_size);
            let next = prev.sub(step);
            self.angles.set(i, a);
            self.joints.set(i, next);
            i += 1;
        }
        proof {
            assert forall|j: int| 0 <= j < n implies in_range(
                #[trigger] self.joints@[j],
                MAX_COORD as int,
            ) by {
                assert((j + 1) * self.link_size <= n * self.link_size) by (nonlinear_arith)
                    requires
                        0 <= j < n,
                        0 < self.link_size,
                ;
            }
        }
    }
}

/// The joint positions after the forward pass of the reaching solver:
/// the head is placed on `target`, and each joint in order is
/// projected to lie one link from its updated predecessor, keeping
/// its old direction from it.
pub open spec fn fw_at(js: Seq<Vector2>, target: Vector2, link: int, i: int) -> Vector2
    decreases i,
{
    if i <= 0 {
        target
    } else {
        cd_spec(js[i], fw_at(js, target, link, i - 1), link)
    }
}

/// The joint positions after the backward pass that follows the
/// forward pass: the tail is placed on `anchor`, and each joint in
/// reverse order is projected to lie one link from its updated
/// successor, keeping the direction it had after the forward pass.
pub open spec fn bw_at(
    js: Seq<Vector2>,
    target: Vector2,
    anchor: Vector2,
    link: int,
    n: int,
    i: int,
) -> Vector2
    decreases n - i,
{
    if i >= n - 1 {
        anchor
    } else {
        cd_spec(fw_at(js, target, link, i), bw_at(js, target, anchor, link, n, i + 1), link)
    }
}

/// When the target lies exactly one link from the backward-passed
/// second joint (the offset's squared magnitude is the squared link),
/// the head of the reaching solver lands exactly on the target, so
/// both end constraints hold at once.
pub proof fn lemma_fabrik_head_on_target(
    js: Seq<Vector2>,
    target: Vector2,
    anchor: Vector2,
    link: int,
    n: int,
)
    requires
        2 <= n,
        0 <= link <= MAX_COORD,
        in_range(target, MAX_COORD as int),
        in_range(bw_at(js, target, anchor, link, n, 1), MAX_COORD as int),
        crate::vector::mag_sq(v_sub(target, bw_at(js, target, anchor, link, n, 1))) == link * link,
    ensures
        bw_at(js, target, anchor, link, n, 0) == target,
{
    crate::vector::lemma_constrain_distance_exact(
        target,
        bw_at(js, target, anchor, link, n, 1),
        link,
    );
}

impl Chain {
    /// Forward-and-backward reaching inverse kinematics, one pass of
    /// each: the forward pass drags the chain head-first onto
    /// `target`, the backward pass drags it tail-first onto `anchor`.
    /// The tail lands exactly on `anchor`; the head lands on the
    /// projection of `target` at one link from the second joint, which
    /// is `target` itself whenever that distance is exactly one link.
    /// Headings are not touched in this mode.
    pub fn fabrik_resolve(&mut self, pos: Vector2, anchor: Vector2)
        requires
            old(self).wf(),
            in_range(pos, MAX_COORD - old(self).reach()),
            in_range(anchor, MAX_COORD - old(self).reach()),
        ensures
            final(self).wf(),
            final(self).joints@.len() == old(self).joints@.len(),
            final(self).angles@ == old(self).angles@,
            final(self).link_size == old(self).link_size,
            final(self).angle_constraint == old(self).angle_constraint,
            forall|i: int|
                0 <= i < old(self).joints@.len() ==> #[trigger] final(self).joints@[i] == bw_at(
                    old(self).joints@,
                    pos,
                    anchor,
                    old(self).link_size as int,
                    old(self).joints@.len() as int,
                    i,
                ),
            final(self).joints@[old(self).joints@.len() - 1] == anchor,
    {
        let n = self.joints.len();
        let ghost js: Seq<Vector2> = old(self).joints@;
        let ghost link: int = old(self).link_size as int;
        let ghost bound0: int = MAX_COORD - old(self).reach();
        // Forward pass.
        self.joints.set(0, pos);
        let mut i: usize = 1;
        while i < n
            invariant
                1 <= i <= n,
                n == self.joints@.len(),
                n == js.len(),
                n == self.angles@.len(),
                old(self).wf(),
                js == old(self).joints@,
                link == old(self).link_size as int,
                self.link_size == old(self).link_size,
                self.angle_constraint == old(self).angle_constraint,
                self.angles@ == old(self).angles@,
                bound0 == MAX_COORD - old(self).reach(),
                in_range(pos, bound0),
                in_range(anchor, bound0),
                forall|j: int| i <= j < n ==> #[trigger] self.joints@[j] == js[j],
                forall|j: int|
                    0 <= j < i ==> #[trigger] self.joints@[j] == fw_at(js, pos, link, j),
                forall|j: int|
                    0 <= j < i ==> in_range(#[trigger] self.joints@[j], bound0 + j * link),
            decreases n - i,
        {
            proof {
                assert((i - 1) * link + link == i * link && 0 <= (i - 1) * link && i * link <= n
                    * link) by (nonlinear_arith)
                    requires
                        1 <= i <= n,
                        0 < link,
                ;
            }
            let prev = self.joints[i - 1];
            let cur = self.joints[i];
            let moved = constrain_distance(cur, prev, self.link_size);
            self.joints.set(i, moved);
            i += 1;
        }
        // Backward pass.
        proof {
            assert((n - 1) * link <= n * link && 0 <= (n - 1) * link) by (nonlinear_arith)
                requires
                    1 <= n,
                    0 < link,
            ;
        }
        self.joints.set(n - 1, anchor);
        let mut k: usize = n - 1;
        while k > 0
            invariant
                0 <= k <= n - 1,
                n == self.joints@.len(),
                n == js.len(),
                n == self.angles@.len(),
                old(self).wf(),
                js == old(self).joints@,
                link == old(self).link_size as int,
                self.link_size == old(self).link_size,
                self.angle_constraint == old(self).angle_constraint,
                self.angles@ == old(self).angles@,
                bound0 == MAX_COORD - old(self).reach(),
                in_range(pos, bound0),
                in_range(anchor, bound0),
                forall|j: int| 0 <= j < k ==> #[trigger] self.joints@[j] == fw_at(js, pos, link, j),
                forall|j: int|
                    0 <= j < k ==> in_range(#[trigger] self.joints@[j], bound0 + j * link),
                forall|j: int|
                    k <= j < n ==> #[trigger] self.joints@[j] == bw_at(js, pos, anchor, link, n as int, j),
                forall|j: int|
                    k <= j < n ==> in_range(#[trigger] self.joints@[j], bound0 + (n - 1 - j) * link),
            decreases k,
        {
            let idx = k - 1;
            proof {
                assert(idx * link <= n * link && 0 <= idx * link && (n - 1 - idx) * link <= n * link
                    && (n - 1 - (idx + 1)) * link + link == (n - 1 - idx) * link)
                    by (nonlinear_arith)
                    requires
                        0 <= idx < n,
                        0 < link,
                ;
            }
            let succ = self.joints[idx + 1];
            let cur = self.joints[idx];
            let moved = constrain_distance(cur, succ, self.link_size);
            self.joints.set(idx, moved);
            k = idx;
        }
        proof {
            assert forall|j: int| 0 <= j < n implies in_range(
                #[trigger] self.joints@[j],
                MAX_COORD as int,
            ) by {
                assert((n - 1 - j) * link <= n * link) by (nonlinear_arith)
                    requires
                        0 <= j < n,
                        0 < link,
                ;
            }
        }
    }
}

} // verus!
