//! Decision core of the axis-aligned bounding-box slab test.
//!
//! Per axis, the numeric work turns a ray against a box into an entry and
//! an exit distance, swapped so that entry comes first, and hands them to
//! this module as order keys (as in [`crate::world`]; an axis that
//! constrains nothing maps to the widest interval). The slab test then
//! tightens a running interval with each axis in turn and rejects as soon
//! as the interval empties — exits strictly after entries count as a hit.

use vstd::prelude::*;

verus! {

/// One axis's slab: the entry and exit distances, as order keys.
#[derive(Clone, Copy, PartialEq, Eq, Structural, Debug)]
pub struct SlabInterval {
    /// Where the ray enters the slab.
    pub enter: u64,
    /// Where the ray leaves the slab.
    pub exit: u64,
}

/// The slab scan: tightening `(t_min, t_max)` with each axis in turn,
/// does a nonempty interval survive every axis? The interval empties as
/// soon as its upper end is at or below its lower end, and an emptied
/// interval rejects at once.
pub open spec fn spec_slab_clip(axes: Seq<SlabInterval>, t_min: u64, t_max: u64) -> bool
    decreases axes.len(),
{
    if axes.len() == 0 {
        true
    } else {
        let a = axes[0];
        let new_min = if a.enter > t_min {
            a.enter
        } else {
            t_min
        };
        let new_max = if a.exit < t_max {
            a.exit
        } else {
            t_max
        };
        if new_max <= new_min {
            false
        } else {
            spec_slab_clip(axes.drop_first(), new_min, new_max)
        }
    }
}

/// Runs the slab scan over the axes, in order.
pub fn slab_clip(axes: &Vec<SlabInterval>, t_min: u64, t_max: u64) -> (r: bool)
    ensures
        r == spec_slab_clip(axes@, t_min, t_max),
{
    let mut cur_min = t_min;
    let mut cur_max = t_max;
    let mut i: usize = 0;
    proof {
        assert(axes@.skip(0) =~= axes@);
    }
    while i < axes.len()
        invariant
            i <= axes@.len(),
            spec_slab_clip(axes@, t_min, t_max) == spec_slab_clip(
                axes@.skip(i as int),
                cur_min,
                cur_max,
            ),
        decreases axes@.len() - i,
    {
        let a = axes[i];
        proof {
            assert(axes@.skip(i as int)[0] == a);
            assert(axes@.skip(i as int).drop_first() =~= axes@.skip(i + 1));
        }
        if a.enter > cur_min {
            cur_min = a.enter;
        }
        if a.exit < cur_max {
            cur_max = a.exit;
        }
        if cur_max <= cur_min {
            return false;
        }
        i = i + 1;
    }
    true
}

/// The lower end of the fully tightened interval: the latest entry,
/// `t_min` included.
pub open spec fn spec_entry_bound(axes: Seq<SlabInterval>, t_min: u64) -> u64
    decreases axes.len(),
{
    if axes.len() == 0 {
        t_min
    } else if axes[0].enter > t_min {
        spec_entry_bound(axes.drop_first(), axes[0].enter)
    } else {
        spec_entry_bound(axes.drop_first(), t_min)
    }
}

/// The upper end of the fully tightened interval: the earliest exit,
/// `t_max` included.
pub open spec fn spec_exit_bound(axes: Seq<SlabInterval>, t_max: u64) -> u64
    decreases axes.len(),
{
    if axes.len() == 0 {
        t_max
    } else if axes[0].exit < t_max {
        spec_exit_bound(axes.drop_first(), axes[0].exit)
    } else {
        spec_exit_bound(axes.drop_first(), t_max)
    }
}

/// Tightening only raises the lower end.
proof fn lemma_entry_bound_raises(axes: Seq<SlabInterval>, t_min: u64)
    ensures
        spec_entry_bound(axes, t_min) >= t_min,
    decreases axes.len(),
{
    if axes.len() > 0 {
        if axes[0].enter > t_min {
            lemma_entry_bound_raises(axes.drop_first(), axes[0].enter);
        } else {
            lemma_entry_bound_raises(axes.drop_first(), t_min);
        }
    }
}

/// Tightening only lowers the upper end.
proof fn lemma_exit_bound_lowers(axes: Seq<SlabInterval>, t_max: u64)
    ensures
        spec_exit_bound(axes, t_max) <= t_max,
    decreases axes.len(),
{
    if axes.len() > 0 {
        if axes[0].exit < t_max {
            lemma_exit_bound_lowers(axes.drop_first(), axes[0].exit);
        } else {
            lemma_exit_bound_lowers(axes.drop_first(), t_max);
        }
    }
}

/// The early-exit scan decides exactly the tightened interval's test: over
/// at least one axis, the slab scan accepts if and only if the latest
/// entry still lies strictly before the earliest exit. Rejecting as soon
/// as the running interval empties loses no hit and admits no miss.
pub proof fn lemma_slab_clip_is_interval_test(axes: Seq<SlabInterval>, t_min: u64, t_max: u64)
    requires
        axes.len() > 0,
    ensures
        spec_slab_clip(axes, t_min, t_max) <==> spec_entry_bound(axes, t_min) < spec_exit_bound(
            axes,
            t_max,
        ),
    decreases axes.len(),
{
    {
        let a = axes[0];
        let rest = axes.drop_first();
        let new_min = if a.enter > t_min {
            a.enter
        } else {
            t_min
        };
        let new_max = if a.exit < t_max {
            a.exit
        } else {
            t_max
        };
        assert(spec_entry_bound(axes, t_min) == spec_entry_bound(rest, new_min));
        assert(spec_exit_bound(axes, t_max) == spec_exit_bound(rest, new_max));
        if rest.len() > 0 {
            lemma_slab_clip_is_interval_test(rest, new_min, new_max);
        }
        if new_max <= new_min {
            // The running interval is already empty, and tightening the
            // rest of the axes cannot reopen it.
            assert(!spec_slab_clip(axes, t_min, t_max));
            lemma_entry_bound_raises(rest, new_min);
            lemma_exit_bound_lowers(rest, new_max);
        } else {
            assert(spec_slab_clip(axes, t_min, t_max) == spec_slab_clip(rest, new_min, new_max));
        }
    }
}

} // verus!
