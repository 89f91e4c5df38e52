use vstd::prelude::*;

use crate::movement::{
    at_most_one_occupant, has_entity, kept, lemma_kept_members, lemma_kept_none_taken,
    lemma_kept_pairwise, lemma_winner_none_taken, resolve, unique_entities, Game, PickingEvent,
};
use crate::pieces::{opposite, PieceColor};

verus! {

/// What the marked pieces of a pass are, position by position, and that they
/// keep distinct identities.
proof fn lemma_marked(g: Game, ev: PickingEvent, legal: bool)
    requires
        g.wf(),
    ensures
        g.marked_pieces(ev, legal).len() == g.pieces@.len(),
        unique_entities(g.marked_pieces(ev, legal)),
        forall|k: int|
            0 <= k < g.pieces@.len() ==> {
                &&& (#[trigger] g.marked_pieces(ev, legal)[k]).entity == g.pieces@[k].entity
                &&& g.marked_pieces(ev, legal)[k].taken == g.captures(ev, legal, g.pieces@[k])
                &&& !g.marked_pieces(ev, legal)[k].taken && g.pieces@[k].entity
                    != g.attempted_move(ev).unwrap().0 ==> g.marked_pieces(ev, legal)[k]
                    == g.pieces@[k]
                &&& !g.committed(ev, legal) ==> g.marked_pieces(ev, legal)[k] == g.pieces@[k]
            },
{
    let m = g.marked_pieces(ev, legal);
    if g.committed(ev, legal) {
        let (pe, sq) = g.attempted_move(ev).unwrap();
        let c = g.color_of(pe);
        assert forall|k: int| 0 <= k < g.pieces@.len() implies m[k] == resolve(
            g.pieces@[k],
            pe,
            sq,
            c,
        ) by {}
    }
}

/// Turn alternation: a pass hands the move to the other side exactly when it
/// commits a move, so after any number of committed moves White is to move if
/// that number is even and Black if it is odd.
pub proof fn turn_alternation(g: Game, ev: PickingEvent, legal: bool, next: Game)
    requires
        g.wf(),
        g.step(ev, legal, &next),
    ensures
        next.commits@ == g.commits@ + (if g.committed(ev, legal) {
            1nat
        } else {
            0nat
        }),
        next.turn.0 == (if next.commits@ % 2 == 0 {
            PieceColor::White
        } else {
            PieceColor::Black
        }),
        next.turn.0 == (if g.committed(ev, legal) {
            opposite(g.turn.0)
        } else {
            g.turn.0
        }),
{
}

/// At most one occupant: a pass never leaves two pieces on one cell, unless the
/// verdict lets the mover onto a cell that a piece of its own side holds.
pub proof fn single_occupancy(g: Game, ev: PickingEvent, legal: bool, next: Game)
    requires
        g.wf(),
        at_most_one_occupant(g.pieces@),
        !g.lands_on_friend(ev, legal),
        g.step(ev, legal, &next),
    ensures
        at_most_one_occupant(next.pieces@),
{
    let m = g.marked_pieces(ev, legal);
    lemma_marked(g, ev, legal);
    if g.committed(ev, legal) {
        let (pe, sq) = g.attempted_move(ev).unwrap();
        let c = g.color_of(pe);
        assert forall|i: int, j: int|
            0 <= i < m.len() && 0 <= j < m.len() && i != j && !m[i].taken && !m[j].taken
                implies !(m[i].piece.x == m[j].piece.x && m[i].piece.y == m[j].piece.y) by {
            assert(m[i] == resolve(g.pieces@[i], pe, sq, c));
            assert(m[j] == resolve(g.pieces@[j], pe, sq, c));
            if g.pieces@[j].entity == pe {
                assert(g.pieces@[i].entity != pe);
            }
        }
    }
    lemma_kept_pairwise(m);
}

/// Illegal-move invariance: when the verdict refuses, the pieces, the side to
/// move and the outcome are exactly as before.
pub proof fn illegal_move_invariance(g: Game, ev: PickingEvent, next: Game)
    requires
        g.wf(),
        g.step(ev, false, &next),
    ensures
        next.pieces@ == g.pieces@,
        next.turn == g.turn,
        next.winner == g.winner,
{
    lemma_kept_none_taken(g.pieces@);
    lemma_winner_none_taken(g.pieces@, g.winner);
}

/// Reset after an attempt: once a pass has attempted a move, legal or not,
/// nothing is selected.
pub proof fn reset_after_attempt(g: Game, ev: PickingEvent, legal: bool, next: Game)
    requires
        g.step(ev, legal, &next),
        g.attempted_move(ev).is_some(),
    ensures
        next.selected_square.entity.is_none(),
        next.selected_piece.entity.is_none(),
{
}

/// Capture exclusivity: a pass removes exactly the pieces that its committed
/// move captures (of the other side, on the destination), and every other
/// piece stays; those that did not move stay unchanged.
pub proof fn capture_exclusivity(g: Game, ev: PickingEvent, legal: bool, next: Game)
    requires
        g.wf(),
        g.step(ev, legal, &next),
    ensures
        forall|k: int|
            0 <= k < g.pieces@.len() ==> (has_entity(next.pieces@, #[trigger] g.pieces@[k].entity)
                <==> !g.captures(ev, legal, g.pieces@[k])),
        forall|k: int|
            0 <= k < g.pieces@.len() && !g.captures(ev, legal, #[trigger] g.pieces@[k])
                && g.pieces@[k].entity != g.attempted_move(ev).unwrap().0 ==> next.pieces@.contains(
                g.pieces@[k],
            ),
        forall|k: int|
            0 <= k < g.pieces@.len() && !g.committed(ev, legal) ==> next.pieces@.contains(
                #[trigger] g.pieces@[k],
            ),
{
    let m = g.marked_pieces(ev, legal);
    lemma_marked(g, ev, legal);
    lemma_kept_members(m);
    assert forall|k: int| 0 <= k < g.pieces@.len() implies (has_entity(
        next.pieces@,
        #[trigger] g.pieces@[k].entity,
    ) <==> !g.captures(ev, legal, g.pieces@[k])) by {
        if m[k].taken {
            if has_entity(next.pieces@, g.pieces@[k].entity) {
                let i = choose|i: int|
                    0 <= i < next.pieces@.len() && next.pieces@[i].entity == g.pieces@[k].entity;
                let j = choose|j: int|
                    0 <= j < m.len() && #[trigger] kept(m)[i] == #[trigger] m[j] && !m[j].taken;
                assert(m[j].entity == m[k].entity);
            }
        } else {
            assert(kept(m).contains(m[k]));
            let i = choose|i: int| 0 <= i < kept(m).len() && kept(m)[i] == m[k];
            assert(next.pieces@[i].entity == g.pieces@[k].entity);
        }
    }
    assert forall|k: int|
        0 <= k < g.pieces@.len() && !g.captures(ev, legal, #[trigger] g.pieces@[k])
            && g.pieces@[k].entity != g.attempted_move(ev).unwrap().0 implies next.pieces@.contains(
        g.pieces@[k],
    ) by {
        assert(kept(m).contains(m[k]));
    }
    assert forall|k: int| 0 <= k < g.pieces@.len() && !g.committed(ev, legal) implies next.pieces@.contains(
        #[trigger] g.pieces@[k],
    ) by {
        assert(kept(m).contains(m[k]));
    }
}

} // verus!
