//! The position assigner: a target index for each desired channel, and the
//! moves that bring existing channels to their index.

use vstd::prelude::*;

use crate::diff::ChangeOperation;
use crate::entity::{find, first_index, has_key, DesiredEntity, Named, ObservedEntity};
use crate::error::PassError;

verus! {

/// How many distinct indices a container can hold.
pub const MAX_POSITIONS: usize = 65536;

/// `d` with each entity given its index in `d` as its target position.
pub open spec fn placed(d: Seq<DesiredEntity>) -> Seq<DesiredEntity> {
    Seq::new(
        d.len(),
        |i: int| DesiredEntity { name: d[i].name, color: d[i].color, position: Some(i as u16) },
    )
}

/// Gives each desired entity its index in the desired order as its target
/// position, or fails when there are more entities than positions.
pub fn assign_positions(desired: &Vec<DesiredEntity>) -> (r: Result<Vec<DesiredEntity>, PassError>)
    ensures
        match r {
            Ok(v) => desired@.len() <= MAX_POSITIONS && v@ == placed(desired@),
            Err(e) => desired@.len() > MAX_POSITIONS && e == PassError::PositionOverflow(desired@.len() as usize),
        },
{
    let n = desired.len();
    if n > MAX_POSITIONS {
        return Err(PassError::PositionOverflow(n));
    }
    let mut out: Vec<DesiredEntity> = Vec::new();
    for i in 0..n
        invariant
            n == desired@.len(),
            n <= MAX_POSITIONS,
            out@ == placed(desired@).subrange(0, i as int),
    {
        let e = &desired[i];
        out.push(DesiredEntity { name: e.name.clone(), color: e.color, position: Some(i as u16) });
        assert(out@ =~= placed(desired@).subrange(0, i + 1));
    }
    assert(out@ =~= placed(desired@));
    Ok(out)
}

/// Some entity of `s` has target position `p`.
pub open spec fn holds_position(s: Seq<DesiredEntity>, p: int) -> bool {
    exists|i: int| 0 <= i < s.len() && #[trigger] s[i].position == Some(p as u16)
}

/// Position totality: for a desired set of size N that fits, the assigned
/// positions are exactly 0..N-1, each given once.
pub proof fn law_positions_total(d: Seq<DesiredEntity>)
    requires
        d.len() <= MAX_POSITIONS,
    ensures
        placed(d).len() == d.len(),
        forall|i: int| #![trigger placed(d)[i]]
            0 <= i < d.len() ==> placed(d)[i].key() == d[i].key() && placed(d)[i].position is Some
                && (placed(d)[i].position->Some_0 as int) < d.len(),
        forall|i: int, j: int|
            0 <= i < j < d.len() ==> #[trigger] placed(d)[i].position != #[trigger] placed(d)[j].position,
        forall|p: int| 0 <= p < d.len() ==> #[trigger] holds_position(placed(d), p),
{
    assert forall|i: int| #![trigger placed(d)[i]] 0 <= i < d.len() implies placed(d)[i].position
        == Some(i as u16) && (i as u16) as int == i by {}
    assert forall|p: int| 0 <= p < d.len() implies #[trigger] holds_position(placed(d), p) by {
        assert(placed(d)[p].position == Some(p as u16));
    }
}

/// The move, if any, that brings the first channel named like `t` to `t`'s position.
pub open spec fn target_move(c: Seq<ObservedEntity>, t: DesiredEntity) -> Seq<ChangeOperation> {
    match t.position {
        Some(p) => if has_key(c, t.key()) && c[first_index(c, t.key())].position != p {
            seq![ChangeOperation::Move { id: c[first_index(c, t.key())].id, name: c[first_index(c, t.key())].name, index: p }]
        } else {
            seq![]
        },
        None => seq![],
    }
}

/// The moves for the first `n` targets, in their order.
pub open spec fn move_ops(c: Seq<ObservedEntity>, t: Seq<DesiredEntity>, n: int) -> Seq<ChangeOperation>
    decreases n,
{
    if n <= 0 {
        seq![]
    } else {
        move_ops(c, t, n - 1) + target_move(c, t[n - 1])
    }
}

/// The moves that bring each channel of `current` that a target names to the
/// target's position, in target order.
pub fn plan_moves(current: &Vec<ObservedEntity>, targets: &Vec<DesiredEntity>) -> (r: Vec<ChangeOperation>)
    ensures
        r@ == move_ops(current@, targets@, targets@.len() as int),
{
    let mut out: Vec<ChangeOperation> = Vec::new();
    let n = targets.len();
    for i in 0..n
        invariant
            n == targets@.len(),
            out@ == move_ops(current@, targets@, i as int),
    {
        let t = &targets[i];
        let ghost before = out@;
        proof {
            assert(move_ops(current@, targets@, i + 1) == before + target_move(current@, targets@[i as int]));
        }
        if let Some(p) = t.position {
            if let Some(j) = find(current, &t.name) {
                let c = &current[j];
                assert(current@[j as int].key() == t.name@);
                assert(has_key(current@, targets@[i as int].key()));
                if c.position != p {
                    out.push(ChangeOperation::Move { id: c.id, name: c.name.clone(), index: p });
                    assert(target_move(current@, targets@[i as int]) =~= seq![ChangeOperation::Move { id: c.id, name: c.name, index: p }]);
                } else {
                    assert(target_move(current@, targets@[i as int]) =~= seq![]);
                }
            } else {
                assert(target_move(current@, targets@[i as int]) =~= seq![]);
            }
        } else {
            assert(target_move(current@, targets@[i as int]) =~= seq![]);
        }
        assert(out@ =~= move_ops(current@, targets@, i + 1));
    }
    out
}

} // verus!
