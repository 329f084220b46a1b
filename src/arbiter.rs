use vstd::prelude::*;

use crate::action::{Dir, LocalActions, MoveTimer};
use crate::level::{cell, in_bounds, lemma_with_cell, with_cell, EntityId, Grid, Pos, PosState};

verus! {

/// One entity's proposal to move one cell from `from` in direction `dir`, on the grid
/// owned by `level`.
#[derive(Clone, Copy, Debug, PartialEq, Eq, Structural)]
pub struct MoveRequest {
    pub entity: EntityId,
    pub level: EntityId,
    pub from: Pos,
    pub dir: Dir,
}

/// An approved move: `entity` now stands at `target`.
#[derive(Clone, Copy, Debug, PartialEq, Eq, Structural)]
pub struct MoveApproval {
    pub entity: EntityId,
    pub target: Pos,
}

/// The number of approved moves since start.
#[derive(Clone, Copy, Debug, PartialEq, Eq, Structural, Default)]
pub struct TurnCount(pub usize);

/// Requests are resolved in ascending entity order.
pub open spec fn by_entity(reqs: Seq<MoveRequest>) -> bool {
    forall|i: int, j: int| 0 <= i < j < reqs.len() ==> reqs[i].entity.0 <= reqs[j].entity.0
}

pub open spec fn all_steppable(reqs: Seq<MoveRequest>) -> bool {
    forall|i: int| 0 <= i < reqs.len() ==> (#[trigger] reqs[i]).from.steppable()
}

/// The grid after an approved move of `r`: its old cell emptied, its target occupied.
pub open spec fn moved(g: Seq<Seq<Seq<PosState>>>, r: MoveRequest) -> Seq<Seq<Seq<PosState>>> {
    with_cell(with_cell(g, r.from, PosState::Empty), r.from.spec_step(r.dir), PosState::Entity(r.entity))
}

/// Resolves the requests of `level` one after the other, each against the grid as the
/// earlier ones left it: a move is approved exactly when its target cell does not block.
/// Gives the final grid and the approvals in order.
pub open spec fn arbitration(
    g: Seq<Seq<Seq<PosState>>>,
    reqs: Seq<MoveRequest>,
    level: EntityId,
) -> (Seq<Seq<Seq<PosState>>>, Seq<MoveApproval>)
    decreases reqs.len(),
{
    if reqs.len() == 0 {
        (g, Seq::empty())
    } else {
        let (g1, a1) = arbitration(g, reqs.drop_last(), level);
        let r = reqs.last();
        let target = r.from.spec_step(r.dir);
        if r.level == level && !cell(g1, target).spec_is_blocking() {
            (moved(g1, r), a1.push(MoveApproval { entity: r.entity, target }))
        } else {
            (g1, a1)
        }
    }
}

/// Adds `req` to an intent list kept in ascending entity order, after any request of
/// an equal entity.
pub fn insert_request(reqs: &mut Vec<MoveRequest>, req: MoveRequest)
    requires
        old(reqs)@.len() < usize::MAX,
    ensures
        exists|k: int|
            {
                &&& 0 <= k <= old(reqs)@.len()
                &&& final(reqs)@ == old(reqs)@.insert(k, req)
                &&& forall|i: int| k <= i < old(reqs)@.len() ==> (#[trigger] old(reqs)@[i]).entity.0 > req.entity.0
                &&& k > 0 ==> old(reqs)@[k - 1].entity.0 <= req.entity.0
            },
        by_entity(old(reqs)@) ==> by_entity(final(reqs)@),
{
    let mut k: usize = reqs.len();
    while k > 0 && reqs[k - 1].entity.0 > req.entity.0
        invariant
            k <= reqs@.len(),
            forall|i: int| k <= i < reqs@.len() ==> (#[trigger] reqs@[i]).entity.0 > req.entity.0,
        decreases k,
    {
        k = k - 1;
    }
    let ghost before = reqs@;
    reqs.insert(k, req);
    proof {
        if by_entity(before) {
            assert forall|i: int, j: int| 0 <= i < j < reqs@.len() implies reqs@[i].entity.0
                <= reqs@[j].entity.0 by {
                if j == k {
                    if i < k - 1 {
                        assert(before[i].entity.0 <= before[k - 1].entity.0);
                    }
                } else if i == k {
                    assert(before[j - 1].entity.0 > req.entity.0);
                }
            }
        }
    }
}

/// Validates the requests that belong to `level` against its `grid`, in list order. An
/// approved move empties the entity's old cell, occupies the target, and advances
/// `turn`; a rejected one changes nothing. Returns the approvals in order.
pub fn arbitrate(
    level: EntityId,
    grid: &mut Grid,
    requests: &Vec<MoveRequest>,
    turn: &mut TurnCount,
) -> (approvals: Vec<MoveApproval>)
    requires
        all_steppable(requests@),
        old(turn).0 + requests@.len() <= usize::MAX,
    ensures
        (final(grid)@, approvals@) == arbitration(old(grid)@, requests@, level),
        final(turn).0 == old(turn).0 + approvals@.len(),
{
    let mut approvals: Vec<MoveApproval> = Vec::new();
    let mut i: usize = 0;
    while i < requests.len()
        invariant
            i <= requests@.len(),
            all_steppable(requests@),
            (grid@, approvals@) == arbitration(old(grid)@, requests@.take(i as int), level),
            turn.0 == old(turn).0 + approvals@.len(),
            approvals@.len() <= i,
            old(turn).0 + requests@.len() <= usize::MAX,
        decreases requests@.len() - i,
    {
        let r = requests[i];
        assert(requests@.take(i + 1).drop_last() =~= requests@.take(i as int));
        assert(requests@.take(i + 1).last() == r);
        assert(r.from.steppable());
        if r.level == level {
            let target = r.from.step(r.dir);
            if !grid.get(&target).is_blocking() {
                grid.set(&r.from, PosState::Empty);
                grid.set(&target, PosState::Entity(r.entity));
                approvals.push(MoveApproval { entity: r.entity, target });
                turn.0 = turn.0 + 1;
            }
        }
        i = i + 1;
    }
    assert(requests@.take(i as int) =~= requests@);
    approvals
}

/// Where the first approval of `entity` sends it, if any.
pub open spec fn approval_for(approvals: Seq<MoveApproval>, entity: EntityId) -> Option<Pos>
    decreases approvals.len(),
{
    if approvals.len() == 0 {
        None
    } else if approvals[0].entity == entity {
        Some(approvals[0].target)
    } else {
        approval_for(approvals.drop_first(), entity)
    }
}

/// Writes an approved move back onto its entity: the new position, and a cooldown
/// started over. An entity without an approval keeps its position and cooldown.
/// Returns whether it moved.
pub fn apply_approval(
    approvals: &Vec<MoveApproval>,
    entity: EntityId,
    pos: &mut Pos,
    actions: &mut LocalActions,
) -> (moved: bool)
    ensures
        moved == approval_for(approvals@, entity) is Some,
        match approval_for(approvals@, entity) {
            Some(target) => *final(pos) == target && *final(actions) == (LocalActions {
                move_timer: MoveTimer { elapsed: 0, finished: false, ..old(actions).move_timer },
                ..*old(actions)
            }),
            None => *final(pos) == *old(pos) && *final(actions) == *old(actions),
        },
{
    let mut i: usize = 0;
    assert(approvals@.skip(0) =~= approvals@);
    while i < approvals.len()
        invariant
            i <= approvals@.len(),
            *pos == *old(pos),
            *actions == *old(actions),
            approval_for(approvals@, entity) == approval_for(approvals@.skip(i as int), entity),
        decreases approvals@.len() - i,
    {
        assert(approvals@.skip(i as int).drop_first() =~= approvals@.skip(i + 1));
        assert(approvals@.skip(i as int)[0] == approvals@[i as int]);
        if approvals[i].entity == entity {
            *pos = approvals[i].target;
            actions.move_timer.reset();
            return true;
        }
        i = i + 1;
    }
    assert(approvals@.skip(i as int).len() == 0);
    false
}

/// A single move is approved exactly when its target cell does not block. If approved,
/// the entity's old cell becomes empty, the target cell holds the entity, and one turn
/// passes; if rejected, the grid is unchanged and no turn passes.
pub proof fn lemma_move_iff_target_free(g: Seq<Seq<Seq<PosState>>>, r: MoveRequest)
    requires
        r.from.steppable(),
    ensures
        ({
            let (g1, approvals) = arbitration(g, seq![r], r.level);
            let target = r.from.spec_step(r.dir);
            &&& (approvals.len() == 1) == !cell(g, target).spec_is_blocking()
            &&& approvals.len() <= 1
            &&& approvals.len() == 1 ==> {
                &&& approvals[0] == MoveApproval { entity: r.entity, target }
                &&& in_bounds(g, r.from) ==> cell(g1, r.from) == PosState::Empty
                &&& in_bounds(g, target) ==> cell(g1, target) == PosState::Entity(r.entity)
            }
            &&& approvals.len() == 0 ==> g1 == g
        }),
{
    let reqs = seq![r];
    assert(reqs.drop_last() =~= Seq::<MoveRequest>::empty());
    assert(arbitration(g, Seq::<MoveRequest>::empty(), r.level) == (g, Seq::<MoveApproval>::empty()));
    assert(reqs.last() == r);
    let target = r.from.spec_step(r.dir);
    let g0 = with_cell(g, r.from, PosState::Empty);
    lemma_with_cell(g, r.from, PosState::Empty, r.from);
    lemma_with_cell(g, r.from, PosState::Empty, target);
    lemma_with_cell(g0, target, PosState::Entity(r.entity), r.from);
    lemma_with_cell(g0, target, PosState::Entity(r.entity), target);
}

/// Two entities that aim at the same free cell in one tick: the first in resolution
/// order gets it, the second is rejected, so its position and cooldown stay as they
/// were.
pub proof fn lemma_same_target_first_wins(
    g: Seq<Seq<Seq<PosState>>>,
    r1: MoveRequest,
    r2: MoveRequest,
)
    requires
        r1.from.steppable(),
        r2.from.steppable(),
        r1.level == r2.level,
        r1.entity != r2.entity,
        r1.from.spec_step(r1.dir) == r2.from.spec_step(r2.dir),
        in_bounds(g, r1.from.spec_step(r1.dir)),
        !cell(g, r1.from.spec_step(r1.dir)).spec_is_blocking(),
    ensures
        arbitration(g, seq![r1, r2], r1.level).1 == seq![
            MoveApproval { entity: r1.entity, target: r1.from.spec_step(r1.dir) },
        ],
        approval_for(arbitration(g, seq![r1, r2], r1.level).1, r1.entity) == Some(r1.from.spec_step(r1.dir)),
        approval_for(arbitration(g, seq![r1, r2], r1.level).1, r2.entity) is None,
{
    let target = r1.from.spec_step(r1.dir);
    let level = r1.level;
    let reqs = seq![r1, r2];
    let approval = MoveApproval { entity: r1.entity, target };
    assert(reqs.drop_last() =~= seq![r1]);
    assert(reqs.last() == r2);
    assert(seq![r1].drop_last() =~= Seq::<MoveRequest>::empty());
    assert(seq![r1].last() == r1);
    assert(arbitration(g, Seq::<MoveRequest>::empty(), level) == (g, Seq::<MoveApproval>::empty()));
    let g0 = with_cell(g, r1.from, PosState::Empty);
    let g1 = moved(g, r1);
    lemma_with_cell(g, r1.from, PosState::Empty, target);
    lemma_with_cell(g0, target, PosState::Entity(r1.entity), target);
    assert(Seq::<MoveApproval>::empty().push(approval) =~= seq![approval]);
    assert(arbitration(g, seq![r1], level) == (g1, seq![approval]));
    assert(cell(g1, target) == PosState::Entity(r1.entity));
    assert(arbitration(g, reqs, level) == (g1, seq![approval]));
    let a = seq![approval];
    assert(a[0] == approval);
    assert(a.drop_first() =~= Seq::<MoveApproval>::empty());
    assert(approval_for(a.drop_first(), r2.entity) is None);
}

/// A tick in which no request belongs to the grid approves nothing: the grid and the
/// turn count stay as they were.
pub proof fn lemma_no_eligible_no_turn(
    g: Seq<Seq<Seq<PosState>>>,
    reqs: Seq<MoveRequest>,
    level: EntityId,
)
    requires
        forall|i: int| 0 <= i < reqs.len() ==> (#[trigger] reqs[i]).level != level,
    ensures
        arbitration(g, reqs, level) == (g, Seq::<MoveApproval>::empty()),
    decreases reqs.len(),
{
    if reqs.len() > 0 {
        lemma_no_eligible_no_turn(g, reqs.drop_last(), level);
        assert(reqs[reqs.len() - 1] == reqs.last());
    }
}

} // verus!
