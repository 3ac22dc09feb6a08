use vstd::prelude::*;

use crate::geometry::GroundPoint;
use crate::selection::SelectionInProgress;
use crate::world::{with_order_spec, Unit, World};

verus! {

/// The units after ordering the selected units of the acting player to `dest`:
/// each such unit's order becomes `dest`, from where it stands, whatever the
/// order was; nothing else changes.
pub open spec fn ordered_units(units: Seq<Unit>, selected: Seq<usize>, acting: usize, dest: GroundPoint) -> Seq<Unit> {
    Seq::new(
        units.len(),
        |i: int|
            if selected.contains(i as usize) && units[i].owner == acting {
                with_order_spec(units[i], dest)
            } else {
                units[i]
            },
    )
}

/// `i` is among the first `k` entries of `sel`.
spec fn in_prefix(sel: Seq<usize>, k: int, i: int) -> bool {
    exists|j: int| 0 <= j < k && sel[j] == i as usize
}

/// One tick of the command issuer.
///
/// When the secondary button was released and the pointer meets the ground,
/// every selected unit that the acting player owns is ordered to the ground
/// point, replacing any earlier order. Otherwise nothing changes.
pub fn right_click(world: &mut World, selection: &SelectionInProgress, just_released: bool, ground: Option<GroundPoint>)
    requires
        old(world).wf(),
        ground matches Some(g) ==> g.wf(),
    ensures
        final(world).wf(),
        final(world).players@ == old(world).players@,
        final(world).acting_player == old(world).acting_player,
        final(world).units@ == match ground {
            Some(g) => if just_released {
                ordered_units(old(world).units@, selection.current@, old(world).acting_player, g)
            } else {
                old(world).units@
            },
            None => old(world).units@,
        },
{
    let g = match ground {
        Some(g) => g,
        None => return,
    };
    if !just_released {
        return;
    }
    let ghost units0 = world.units@;
    let ghost sel = selection.current@;
    let acting = world.acting_player;
    let mut k: usize = 0;
    while k < selection.current.len()
        invariant
            acting == world.acting_player,
            world.acting_player == old(world).acting_player,
            world.players@ == old(world).players@,
            units0 == old(world).units@,
            sel == selection.current@,
            g.wf(),
            k <= sel.len(),
            world.units@.len() == units0.len(),
            forall|i: int|
                0 <= i < units0.len() ==> (#[trigger] world.units@[i]).wf() && world.units@[i].owner
                    == units0[i].owner,
            forall|i: int|
                0 <= i < units0.len() ==> #[trigger] world.units@[i] == if in_prefix(sel, k as int, i)
                    && units0[i].owner == acting {
                    with_order_spec(units0[i], g)
                } else {
                    units0[i]
                },
            old(world).wf(),
        decreases sel.len() - k,
    {
        let idx = selection.current[k];
        if idx < world.units.len() && world.units[idx].owner == acting {
            let u = world.units[idx].with_order(g);
            world.units.set(idx, u);
        }
        k = k + 1;
    }
    proof {
        assert(world.units@ =~= ordered_units(units0, sel, acting, g));
        assert forall|i: int| 0 <= i < world.units@.len() implies #[trigger] world.units@[i].wf()
            && world.units@[i].owner < world.players@.len() by {
            assert(units0[i].wf());
        }
    }
}

/// Order overwrite: ordering the same selection twice leaves exactly the
/// second destination in place, never a queue of both.
pub proof fn lemma_order_overwrite(
    units: Seq<Unit>,
    selected: Seq<usize>,
    acting: usize,
    first: GroundPoint,
    second: GroundPoint,
)
    ensures
        ordered_units(ordered_units(units, selected, acting, first), selected, acting, second)
            == ordered_units(units, selected, acting, second),
{
    assert(ordered_units(ordered_units(units, selected, acting, first), selected, acting, second)
        =~= ordered_units(units, selected, acting, second));
}

} // verus!
