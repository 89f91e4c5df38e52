use vstd::prelude::*;

use crate::board::{is_standard_layout, Board, Entity, SelectedPiece, SelectedSquare, Square};
use crate::pieces::{opposite, Piece, PieceColor, PieceType};

verus! {

/// The side whose turn it is to move.
#[derive(Clone, Copy, Debug, PartialEq, Eq, Structural)]
pub struct PlayerTurn(pub PieceColor);

impl Default for PlayerTurn {
    fn default() -> (r: PlayerTurn)
        ensures
            r.0 == PieceColor::White,
    {
        PlayerTurn(PieceColor::White)
    }
}

impl PlayerTurn {
    /// Hands the move to the other side.
    pub fn change(&mut self)
        ensures
            final(self).0 == opposite(old(self).0),
    {
        self.0 = self.0.opposite();
    }
}

/// Signal that a move attempt has concluded and both selections are to be cleared.
#[derive(Clone, Copy, Debug, PartialEq, Eq, Structural)]
pub struct ResetSelectedEvent;

/// A pointer event on an entity. Only a click carries meaning.
#[derive(Clone, Copy, Debug, PartialEq, Eq, Structural)]
pub enum PickingEvent {
    Selection(Entity),
    Hover(Entity),
    Clicked(Entity),
}

/// A piece in play, with its identity and the mark set when it is captured.
#[derive(Clone, Copy, Debug, PartialEq, Eq, Structural)]
pub struct LivePiece {
    pub entity: Entity,
    pub piece: Piece,
    pub taken: bool,
}

/// `p` stands on `sq`.
pub open spec fn stands_on(p: LivePiece, sq: Square) -> bool {
    p.piece.x == sq.x && p.piece.y == sq.y
}

/// No two pieces share an identity.
pub open spec fn unique_entities(ps: Seq<LivePiece>) -> bool {
    forall|i: int, j: int|
        0 <= i < ps.len() && 0 <= j < ps.len() && i != j ==> ps[i].entity != ps[j].entity
}

/// No two pieces that are not taken stand on the same cell.
pub open spec fn at_most_one_occupant(ps: Seq<LivePiece>) -> bool {
    forall|i: int, j: int|
        0 <= i < ps.len() && 0 <= j < ps.len() && i != j && !ps[i].taken && !ps[j].taken
            ==> !(ps[i].piece.x == ps[j].piece.x && ps[i].piece.y == ps[j].piece.y)
}

/// Every piece stands on one of the 64 cells.
pub open spec fn all_on_board(ps: Seq<LivePiece>) -> bool {
    forall|i: int| 0 <= i < ps.len() ==> #[trigger] ps[i].piece.x < 8 && ps[i].piece.y < 8
}

/// No piece carries the capture mark.
pub open spec fn none_taken(ps: Seq<LivePiece>) -> bool {
    forall|i: int| 0 <= i < ps.len() ==> !(#[trigger] ps[i]).taken
}

/// Some piece has identity `e`.
pub open spec fn has_entity(ps: Seq<LivePiece>, e: Entity) -> bool {
    exists|i: int| 0 <= i < ps.len() && ps[i].entity == e
}

/// The position of the piece with identity `e`, where there is one.
pub open spec fn entity_index(ps: Seq<LivePiece>, e: Entity) -> int {
    choose|i: int| 0 <= i < ps.len() && ps[i].entity == e
}

/// `p` is a piece of side `c` on `sq`.
pub open spec fn is_friend_on(p: LivePiece, sq: Square, c: PieceColor) -> bool {
    stands_on(p, sq) && p.piece.color == c
}

/// `i` is the first position of a piece of side `c` on `sq`.
pub open spec fn is_first_friend(ps: Seq<LivePiece>, sq: Square, c: PieceColor, i: int) -> bool {
    &&& 0 <= i < ps.len()
    &&& is_friend_on(ps[i], sq, c)
    &&& forall|j: int| 0 <= j < i ==> !is_friend_on(#[trigger] ps[j], sq, c)
}

/// The first piece of side `c` on `sq`, by its identity.
pub open spec fn friend_on(ps: Seq<LivePiece>, sq: Square, c: PieceColor) -> Option<Entity> {
    if exists|i: int| is_first_friend(ps, sq, c, i) {
        Some(ps[choose|i: int| is_first_friend(ps, sq, c, i)].entity)
    } else {
        None
    }
}

/// What a committed move of piece `pe`, of side `c`, onto `sq` does to `p`: the
/// mover stands on `sq`; an opposing piece on `sq` is marked taken.
pub open spec fn resolve(p: LivePiece, pe: Entity, sq: Square, c: PieceColor) -> LivePiece {
    if p.entity == pe {
        LivePiece { piece: Piece { x: sq.x, y: sq.y, ..p.piece }, ..p }
    } else if stands_on(p, sq) && p.piece.color != c {
        LivePiece { taken: true, ..p }
    } else {
        p
    }
}

/// The pieces of `ps` that are not taken, in their order.
pub open spec fn kept(ps: Seq<LivePiece>) -> Seq<LivePiece>
    decreases ps.len(),
{
    if ps.len() == 0 {
        ps
    } else if ps.last().taken {
        kept(ps.drop_last())
    } else {
        kept(ps.drop_last()).push(ps.last())
    }
}

/// The winner once the taken pieces of `ps` are removed: the side opposite to a
/// taken king (the last one, were there several), else `prev`.
pub open spec fn winner_of(ps: Seq<LivePiece>, prev: Option<PieceColor>) -> Option<PieceColor>
    decreases ps.len(),
{
    if ps.len() == 0 {
        prev
    } else if ps.last().taken && ps.last().piece.piece_type == PieceType::King {
        Some(opposite(ps.last().piece.color))
    } else {
        winner_of(ps.drop_last(), prev)
    }
}

/// One game: the board, the pieces in play, the two selection slots, the side to
/// move and the outcome.
pub struct Game {
    pub board: Board,
    pub pieces: Vec<LivePiece>,
    pub selected_square: SelectedSquare,
    pub selected_piece: SelectedPiece,
    pub turn: PlayerTurn,
    /// A click was taken in during the pass that is running.
    pub square_changed: bool,
    /// Reset signals not yet consumed.
    pub reset_events: Vec<ResetSelectedEvent>,
    /// The winning side, once a king has been captured; the game then ends.
    pub winner: Option<PieceColor>,
    /// How many moves have been committed.
    pub commits: Ghost<nat>,
}

/// Each piece kept is a piece of `ps` that is not taken, and each piece of `ps`
/// that is not taken is kept.
pub(crate) proof fn lemma_kept_members(ps: Seq<LivePiece>)
    ensures
        kept(ps).len() <= ps.len(),
        forall|i: int|
            0 <= i < kept(ps).len() ==> exists|j: int|
                0 <= j < ps.len() && #[trigger] kept(ps)[i] == #[trigger] ps[j] && !ps[j].taken,
        forall|j: int| 0 <= j < ps.len() && !ps[j].taken ==> kept(ps).contains(#[trigger] ps[j]),
    decreases ps.len(),
{
    if ps.len() > 0 {
        let dl = ps.drop_last();
        lemma_kept_members(dl);
        assert forall|i: int| 0 <= i < kept(ps).len() implies exists|j: int|
            0 <= j < ps.len() && #[trigger] kept(ps)[i] == #[trigger] ps[j] && !ps[j].taken by {
            if i < kept(dl).len() {
                let j = choose|j: int| 0 <= j < dl.len() && kept(dl)[i] == dl[j] && !dl[j].taken;
                assert(ps[j] == dl[j]);
            } else {
                assert(kept(ps)[i] == ps[ps.len() - 1]);
            }
        }
        assert forall|j: int| 0 <= j < ps.len() && !ps[j].taken implies kept(ps).contains(
            #[trigger] ps[j],
        ) by {
            if j < ps.len() - 1 {
                assert(dl[j] == ps[j]);
                let k = choose|k: int| 0 <= k < kept(dl).len() && kept(dl)[k] == dl[j];
                assert(kept(ps)[k] == ps[j]);
            } else {
                assert(kept(ps)[kept(ps).len() - 1] == ps[j]);
            }
        }
    }
}

/// Removing the taken pieces keeps identities distinct and cells singly held.
pub(crate) proof fn lemma_kept_pairwise(ps: Seq<LivePiece>)
    ensures
        unique_entities(ps) ==> unique_entities(kept(ps)),
        at_most_one_occupant(ps) ==> at_most_one_occupant(kept(ps)),
        all_on_board(ps) ==> all_on_board(kept(ps)),
        none_taken(kept(ps)),
    decreases ps.len(),
{
    lemma_kept_members(ps);
    if ps.len() > 0 {
        let dl = ps.drop_last();
        let n = ps.len() - 1;
        lemma_kept_pairwise(dl);
        lemma_kept_members(dl);
        if unique_entities(ps) {
            assert(unique_entities(dl));
        }
        if at_most_one_occupant(ps) {
            assert(at_most_one_occupant(dl));
        }
        if !ps.last().taken {
            let kd = kept(dl);
            assert(kept(ps) == kd.push(ps[n]));
            assert forall|i: int| 0 <= i < kd.len() implies {
                &&& unique_entities(ps) ==> kd[i].entity != ps[n].entity
                &&& at_most_one_occupant(ps) ==> !(kd[i].piece.x == ps[n].piece.x
                    && kd[i].piece.y == ps[n].piece.y)
            } by {
                let j = choose|j: int| 0 <= j < dl.len() && kd[i] == dl[j] && !dl[j].taken;
                assert(dl[j] == ps[j]);
            }
        }
        assert forall|i: int| 0 <= i < kept(ps).len() implies !(#[trigger] kept(ps)[i]).taken by {
            let j = choose|j: int| 0 <= j < ps.len() && kept(ps)[i] == ps[j] && !ps[j].taken;
        }
        if all_on_board(ps) {
            assert forall|i: int| 0 <= i < kept(ps).len() implies #[trigger] kept(
                ps,
            )[i].piece.x < 8 && kept(ps)[i].piece.y < 8 by {
                let j = choose|j: int| 0 <= j < ps.len() && kept(ps)[i] == ps[j] && !ps[j].taken;
                assert(ps[j].piece.x < 8);
            }
        }
    }
}

/// With nothing taken, removing the taken pieces leaves the sequence as it was.
pub(crate) proof fn lemma_kept_none_taken(ps: Seq<LivePiece>)
    requires
        none_taken(ps),
    ensures
        kept(ps) == ps,
    decreases ps.len(),
{
    if ps.len() > 0 {
        lemma_kept_none_taken(ps.drop_last());
        assert(!ps.last().taken);
        assert(ps.drop_last().push(ps.last()) =~= ps);
    }
}

/// With nothing taken, the winner stays as it was.
pub(crate) proof fn lemma_winner_none_taken(ps: Seq<LivePiece>, prev: Option<PieceColor>)
    requires
        none_taken(ps),
    ensures
        winner_of(ps, prev) == prev,
    decreases ps.len(),
{
    if ps.len() > 0 {
        lemma_winner_none_taken(ps.drop_last(), prev);
        assert(!ps.last().taken);
    }
}

impl Game {
    /// The game's invariant between two passes.
    pub open spec fn wf(&self) -> bool {
        &&& is_standard_layout(self.board.squares@)
        &&& unique_entities(self.pieces@)
        &&& all_on_board(self.pieces@)
        &&& none_taken(self.pieces@)
        &&& (self.selected_piece.entity.is_some() ==> self.selected_square.entity.is_some())
        &&& self.turn.0 == (if self.commits@ % 2 == 0 {
            PieceColor::White
        } else {
            PieceColor::Black
        })
        &&& !self.square_changed
        &&& self.reset_events@.len() == 0
    }

    /// The square that `ev` clicks, if it clicks one.
    pub open spec fn click_target(&self, ev: PickingEvent) -> Option<Square> {
        match ev {
            PickingEvent::Clicked(e) => self.board.square_of(e),
            _ => None,
        }
    }

    /// The move that `ev` attempts: a click on a square while a piece is held.
    pub open spec fn attempted_move(&self, ev: PickingEvent) -> Option<(Entity, Square)> {
        match (self.click_target(ev), self.selected_piece.entity) {
            (Some(sq), Some(pe)) => Some((pe, sq)),
            _ => None,
        }
    }

    /// `ev` attempts a move of a piece still in play, and the verdict allows it.
    pub open spec fn committed(&self, ev: PickingEvent, legal: bool) -> bool {
        legal && match self.attempted_move(ev) {
            Some((pe, _)) => has_entity(self.pieces@, pe),
            None => false,
        }
    }

    /// The side of the piece with identity `pe`.
    pub open spec fn color_of(&self, pe: Entity) -> PieceColor {
        self.pieces@[entity_index(self.pieces@, pe)].piece.color
    }

    /// `ev` with verdict `legal` would bring the mover onto a cell held by
    /// another piece of its own side.
    pub open spec fn lands_on_friend(&self, ev: PickingEvent, legal: bool) -> bool {
        self.committed(ev, legal) && exists|k: int|
            0 <= k < self.pieces@.len() && #[trigger] self.pieces@[k].entity
                != self.attempted_move(ev).unwrap().0 && is_friend_on(
                self.pieces@[k],
                self.attempted_move(ev).unwrap().1,
                self.color_of(self.attempted_move(ev).unwrap().0),
            )
    }

    /// `p` is captured by the move of `ev`: it is not the mover, stands on the
    /// destination and belongs to the other side, and the move is committed.
    pub open spec fn captures(&self, ev: PickingEvent, legal: bool, p: LivePiece) -> bool {
        &&& self.committed(ev, legal)
        &&& p.entity != self.attempted_move(ev).unwrap().0
        &&& stands_on(p, self.attempted_move(ev).unwrap().1)
        &&& p.piece.color != self.color_of(self.attempted_move(ev).unwrap().0)
    }

    /// The pieces once the move is resolved, taken ones still present.
    pub open spec fn marked_pieces(&self, ev: PickingEvent, legal: bool) -> Seq<LivePiece> {
        if self.committed(ev, legal) {
            let (pe, sq) = self.attempted_move(ev).unwrap();
            let c = self.color_of(pe);
            self.pieces@.map_values(|p: LivePiece| resolve(p, pe, sq, c))
        } else {
            self.pieces@
        }
    }

    /// The selected square after the pass of `ev`.
    pub open spec fn square_after(&self, ev: PickingEvent) -> Option<Entity> {
        if self.attempted_move(ev).is_some() {
            None
        } else {
            match ev {
                PickingEvent::Clicked(e) => if self.board.square_of(e).is_some() {
                    Some(e)
                } else {
                    None
                },
                _ => self.selected_square.entity,
            }
        }
    }

    /// The selected piece after the pass of `ev`.
    pub open spec fn piece_after(&self, ev: PickingEvent) -> Option<Entity> {
        if self.attempted_move(ev).is_some() {
            None
        } else {
            match ev {
                PickingEvent::Clicked(e) => match self.board.square_of(e) {
                    Some(sq) => friend_on(self.pieces@, sq, self.turn.0),
                    None => None,
                },
                _ => self.selected_piece.entity,
            }
        }
    }

    /// `next` is this game after one pass of `ev`, with verdict `legal` on the
    /// move it attempts.
    pub open spec fn step(&self, ev: PickingEvent, legal: bool, next: &Game) -> bool {
        &&& next.board.squares@ == self.board.squares@
        &&& next.pieces@ == kept(self.marked_pieces(ev, legal))
        &&& next.winner == winner_of(self.marked_pieces(ev, legal), self.winner)
        &&& next.selected_square.entity == self.square_after(ev)
        &&& next.selected_piece.entity == self.piece_after(ev)
        &&& next.turn.0 == (if self.committed(ev, legal) {
            opposite(self.turn.0)
        } else {
            self.turn.0
        })
        &&& next.commits@ == self.commits@ + (if self.committed(ev, legal) {
            1nat
        } else {
            0nat
        })
        &&& !next.square_changed
        &&& next.reset_events@.len() == 0
    }
}

/// The position of the first piece with identity `e`.
fn find_piece(ps: &Vec<LivePiece>, e: Entity) -> (r: Option<usize>)
    ensures
        match r {
            Some(i) => i < ps@.len() && ps@[i as int].entity == e,
            None => !has_entity(ps@, e),
        },
{
    let mut i: usize = 0;
    while i < ps.len()
        invariant
            i <= ps@.len(),
            forall|j: int| 0 <= j < i ==> #[trigger] ps@[j].entity != e,
        decreases ps@.len() - i,
    {
        if ps[i].entity == e {
            return Some(i);
        }
        i = i + 1;
    }
    None
}

/// Applies a committed move of piece `pe`, of side `c`, onto `sq` to one piece.
fn resolve_entry(p: LivePiece, pe: Entity, sq: Square, c: PieceColor) -> (r: LivePiece)
    ensures
        r == resolve(p, pe, sq, c),
{
    if p.entity == pe {
        LivePiece { piece: Piece { x: sq.x, y: sq.y, ..p.piece }, ..p }
    } else if p.piece.x == sq.x && p.piece.y == sq.y && p.piece.color != c {
        LivePiece { taken: true, ..p }
    } else {
        p
    }
}

impl Game {
    /// A new game on the 64-cell board with `pieces` in play, White to move
    /// and nothing selected. Squares are the entities below 64; the piece at
    /// position `k` is entity `64 + k`.
    pub fn new(pieces: Vec<Piece>) -> (r: Game)
        requires
            pieces@.len() <= 0xffff_ffff,
            forall|k: int| 0 <= k < pieces@.len() ==> #[trigger] pieces@[k].x < 8 && pieces@[k].y < 8,
        ensures
            r.wf(),
            r.pieces@.len() == pieces@.len(),
            forall|k: int|
                0 <= k < pieces@.len() ==> #[trigger] r.pieces@[k] == (LivePiece {
                    entity: (64 + k) as u64,
                    piece: pieces@[k],
                    taken: false,
                }),
            r.selected_square.entity.is_none(),
            r.selected_piece.entity.is_none(),
            r.turn.0 == PieceColor::White,
            r.winner.is_none(),
            r.commits@ == 0,
    {
        let mut live: Vec<LivePiece> = Vec::new();
        let mut k: usize = 0;
        while k < pieces.len()
            invariant
                k <= pieces@.len() <= 0xffff_ffff,
                live@.len() == k,
                forall|j: int|
                    0 <= j < k ==> #[trigger] live@[j] == (LivePiece {
                        entity: (64 + j) as u64,
                        piece: pieces@[j],
                        taken: false,
                    }),
            decreases pieces@.len() - k,
        {
            live.push(LivePiece { entity: 64 + k as u64, piece: pieces[k], taken: false });
            k = k + 1;
        }
        let g = Game {
            board: Board::new(),
            pieces: live,
            selected_square: SelectedSquare { entity: None },
            selected_piece: SelectedPiece { entity: None },
            turn: PlayerTurn(PieceColor::White),
            square_changed: false,
            reset_events: Vec::new(),
            winner: None,
            commits: Ghost(0),
        };
        assert(all_on_board(g.pieces@)) by {
            assert forall|i: int| 0 <= i < g.pieces@.len() implies #[trigger] g.pieces@[i].piece.x
                < 8 && g.pieces@[i].piece.y < 8 by {
                assert(g.pieces@[i].piece == pieces@[i]);
            }
        }
        g
    }

    /// Runs one pass of the pipeline on pointer event `ev`: square selection,
    /// piece selection, move resolution, removal of taken pieces and reset of
    /// the selections. `legal` is the verdict of the held piece's movement
    /// rules on the move that `ev` attempts (see `move_request`); it is
    /// ignored when no move is attempted. A move is attempted only with a piece
    /// picked up by an earlier click: the click that picks a piece up does not
    /// also move it.
    pub fn pass(&mut self, ev: PickingEvent, legal: bool)
        requires
            old(self).wf(),
        ensures
            old(self).step(ev, legal, final(self)),
            final(self).wf(),
    {
        let ghost g0 = *self;
        self.select_square(ev);
        let ghost g1 = *self;
        assert(g1.pending_target() == g0.click_target(ev));
        let picked = self.select_piece();
        if !picked {
            self.initiate_move(legal);
        }
        let ghost g3 = *self;
        proof {
            if g0.committed(ev, legal) {
                assert(g3.pieces@ == g0.marked_pieces(ev, legal));
            } else {
                assert(g3.pieces@ == g0.pieces@);
                assert(g3.pieces@ == g0.marked_pieces(ev, legal));
            }
            assert(g3.reset_events@.len() > 0 <==> g0.attempted_move(ev).is_some());
        }
        self.despawn_taken_pieces();
        self.reset_selected();
        self.square_changed = false;
        proof {
            let m = g0.marked_pieces(ev, legal);
            if g0.committed(ev, legal) {
                let (pe, sq) = g0.attempted_move(ev).unwrap();
                let c = g0.color_of(pe);
                assert(unique_entities(m)) by {
                    assert forall|i: int, j: int|
                        0 <= i < m.len() && 0 <= j < m.len() && i != j implies m[i].entity
                        != m[j].entity by {
                        assert(m[i] == resolve(g0.pieces@[i], pe, sq, c));
                        assert(m[j] == resolve(g0.pieces@[j], pe, sq, c));
                    }
                }
                assert(sq.x < 8 && sq.y < 8);
                assert(all_on_board(m)) by {
                    assert forall|i: int| 0 <= i < m.len() implies #[trigger] m[i].piece.x < 8
                        && m[i].piece.y < 8 by {
                        assert(m[i] == resolve(g0.pieces@[i], pe, sq, c));
                    }
                }
            }
            lemma_kept_pairwise(m);
        }
    }

    /// The move that `ev` would attempt, as the held piece and the clicked
    /// square; `None` when `ev` attempts no move or the held piece is gone. This
    /// is what the piece's movement rules are asked about before `pass`.
    pub fn move_request(&self, ev: PickingEvent) -> (r: Option<(Piece, Square)>)
        requires
            self.wf(),
        ensures
            match self.attempted_move(ev) {
                Some((pe, sq)) => if has_entity(self.pieces@, pe) {
                    r == Some((self.pieces@[entity_index(self.pieces@, pe)].piece, sq))
                } else {
                    r.is_none()
                },
                None => r.is_none(),
            },
    {
        let e = match ev {
            PickingEvent::Clicked(e) => e,
            _ => return None,
        };
        let square = match self.board.get(e) {
            Some(sq) => sq,
            None => return None,
        };
        let selected = match self.selected_piece.entity {
            Some(pe) => pe,
            None => return None,
        };
        match find_piece(&self.pieces, selected) {
            Some(i) => {
                proof {
                    let k = entity_index(self.pieces@, selected);
                    assert(k == i);
                }
                Some((self.pieces[i].piece, square))
            },
            None => None,
        }
    }

    /// Whether the move that `ev` attempts would bring the held piece onto a
    /// cell that another piece of its own side holds: the occupancy part of
    /// the movement rules, under which such a move is never allowed.
    pub fn blocked_by_own_side(&self, ev: PickingEvent) -> (r: bool)
        requires
            self.wf(),
        ensures
            r == self.lands_on_friend(ev, true),
    {
        let (mover, square) = match self.move_request(ev) {
            Some(m) => m,
            None => return false,
        };
        let pe = match self.selected_piece.entity {
            Some(e) => e,
            None => return false,
        };
        let ghost ps = self.pieces@;
        let mut k: usize = 0;
        while k < self.pieces.len()
            invariant
                ps == self.pieces@,
                self.wf(),
                has_entity(ps, pe),
                self.attempted_move(ev) == Some((pe, square)),
                mover == ps[entity_index(ps, pe)].piece,
                k <= ps.len(),
                forall|j: int|
                    0 <= j < k ==> !(#[trigger] ps[j].entity != pe && is_friend_on(
                        ps[j],
                        square,
                        mover.color,
                    )),
            decreases ps.len() - k,
        {
            let p = self.pieces[k];
            if p.entity != pe && p.piece.x == square.x && p.piece.y == square.y && p.piece.color
                == mover.color {
                return true;
            }
            k = k + 1;
        }
        false
    }

    /// The pieces in play, as plain values, in order: the snapshot that the
    /// movement rules of a piece are consulted with.
    pub fn piece_values(&self) -> (r: Vec<Piece>)
        ensures
            r@ == self.pieces@.map_values(|p: LivePiece| p.piece),
    {
        let mut values: Vec<Piece> = Vec::new();
        let mut k: usize = 0;
        while k < self.pieces.len()
            invariant
                k <= self.pieces@.len(),
                values@.len() == k,
                forall|j: int| 0 <= j < k ==> #[trigger] values@[j] == self.pieces@[j].piece,
            decreases self.pieces@.len() - k,
        {
            values.push(self.pieces[k].piece);
            k = k + 1;
        }
        assert(values@ =~= self.pieces@.map_values(|p: LivePiece| p.piece));
        values
    }

    /// The square that the running pass has clicked, if one was.
    pub open spec fn pending_target(&self) -> Option<Square> {
        if self.square_changed {
            match self.selected_square.entity {
                Some(e) => self.board.square_of(e),
                None => None,
            }
        } else {
            None
        }
    }

    /// Takes in a pointer event: a click on a square selects it, a click
    /// elsewhere clears both selections, anything else is ignored.
    fn select_square(&mut self, ev: PickingEvent)
        ensures
            final(self).board.squares@ == old(self).board.squares@,
            final(self).pieces@ == old(self).pieces@,
            final(self).turn == old(self).turn,
            final(self).winner == old(self).winner,
            final(self).commits == old(self).commits,
            final(self).reset_events@ == old(self).reset_events@,
            match ev {
                PickingEvent::Clicked(e) => {
                    &&& final(self).square_changed
                    &&& if old(self).board.square_of(e).is_some() {
                        final(self).selected_square.entity == Some(e)
                            && final(self).selected_piece == old(self).selected_piece
                    } else {
                        final(self).selected_square.entity.is_none()
                            && final(self).selected_piece.entity.is_none()
                    }
                },
                _ => {
                    &&& final(self).square_changed == old(self).square_changed
                    &&& final(self).selected_square == old(self).selected_square
                    &&& final(self).selected_piece == old(self).selected_piece
                },
            },
    {
        match ev {
            PickingEvent::Selection(_) => {},
            PickingEvent::Hover(_) => {},
            PickingEvent::Clicked(e) => {
                self.square_changed = true;
                if self.board.get(e).is_some() {
                    self.selected_square.entity = Some(e);
                } else {
                    self.selected_piece.entity = None;
                    self.selected_square.entity = None;
                }
            },
        }
    }

    /// When a square was just clicked and no piece is held, picks up the first
    /// piece of the side to move on it. Returns whether a piece was picked up.
    fn select_piece(&mut self) -> (picked: bool)
        ensures
            final(self).board.squares@ == old(self).board.squares@,
            final(self).pieces@ == old(self).pieces@,
            final(self).turn == old(self).turn,
            final(self).winner == old(self).winner,
            final(self).commits == old(self).commits,
            final(self).reset_events@ == old(self).reset_events@,
            final(self).square_changed == old(self).square_changed,
            final(self).selected_square == old(self).selected_square,
            match (old(self).pending_target(), old(self).selected_piece.entity) {
                (Some(sq), None) => {
                    &&& final(self).selected_piece.entity == friend_on(
                        old(self).pieces@,
                        sq,
                        old(self).turn.0,
                    )
                    &&& picked == final(self).selected_piece.entity.is_some()
                },
                _ => !picked && final(self).selected_piece == old(self).selected_piece,
            },
    {
        if !self.square_changed {
            return false;
        }
        let square_entity = match self.selected_square.entity {
            Some(e) => e,
            None => return false,
        };
        let square = match self.board.get(square_entity) {
            Some(sq) => sq,
            None => return false,
        };
        if self.selected_piece.entity.is_some() {
            return false;
        }
        let ghost ps = self.pieces@;
        let mut i: usize = 0;
        while i < self.pieces.len()
            invariant
                *self == *old(self),
                old(self).pending_target() == Some(square),
                old(self).selected_piece.entity.is_none(),
                self.pieces@ == ps,
                i <= ps.len(),
                forall|j: int| 0 <= j < i ==> !is_friend_on(#[trigger] ps[j], square, self.turn.0),
            decreases ps.len() - i,
        {
            let p = self.pieces[i];
            if p.piece.x == square.x && p.piece.y == square.y && p.piece.color == self.turn.0 {
                proof {
                    assert(is_first_friend(ps, square, self.turn.0, i as int));
                    let k = choose|k: int| is_first_friend(ps, square, self.turn.0, k);
                    if k < i {
                        assert(!is_friend_on(ps[k], square, self.turn.0));
                    }
                    if k > i {
                        assert(!is_friend_on(ps[i as int], square, self.turn.0));
                    }
                    assert(k == i);
                    assert(friend_on(ps, square, self.turn.0) == Some(p.entity));
                }
                self.selected_piece.entity = Some(p.entity);
                return true;
            }
            i = i + 1;
        }
        proof {
            assert forall|k: int| !is_first_friend(ps, square, self.turn.0, k) by {
                if 0 <= k < ps.len() {
                    assert(!is_friend_on(ps[k], square, self.turn.0));
                }
            }
        }
        false
    }

    /// When a square was just clicked while a piece is held, attempts to move
    /// that piece there. With `legal`, the verdict of the piece's movement rules
    /// on this move, an opposing piece on the square is marked taken, the piece
    /// moves and the turn passes. An attempt, whatever its outcome, queues one
    /// reset signal.
    fn initiate_move(&mut self, legal: bool)
        requires
            unique_entities(old(self).pieces@),
        ensures
            final(self).board.squares@ == old(self).board.squares@,
            final(self).winner == old(self).winner,
            final(self).square_changed == old(self).square_changed,
            final(self).selected_square == old(self).selected_square,
            final(self).selected_piece == old(self).selected_piece,
            match (old(self).pending_target(), old(self).selected_piece.entity) {
                (Some(sq), Some(pe)) => {
                    let go = legal && has_entity(old(self).pieces@, pe);
                    &&& final(self).pieces@ == (if go {
                        old(self).pieces@.map_values(
                            |p: LivePiece| resolve(p, pe, sq, old(self).color_of(pe)),
                        )
                    } else {
                        old(self).pieces@
                    })
                    &&& final(self).turn.0 == (if go {
                        opposite(old(self).turn.0)
                    } else {
                        old(self).turn.0
                    })
                    &&& final(self).commits@ == old(self).commits@ + (if go {
                        1nat
                    } else {
                        0nat
                    })
                    &&& final(self).reset_events@ == old(self).reset_events@.push(
                        ResetSelectedEvent,
                    )
                },
                _ => {
                    &&& final(self).pieces@ == old(self).pieces@
                    &&& final(self).turn == old(self).turn
                    &&& final(self).commits == old(self).commits
                    &&& final(self).reset_events@ == old(self).reset_events@
                },
            },
    {
        if !self.square_changed {
            return;
        }
        let square_entity = match self.selected_square.entity {
            Some(e) => e,
            None => return,
        };
        let square = match self.board.get(square_entity) {
            Some(sq) => sq,
            None => return,
        };
        let selected = match self.selected_piece.entity {
            Some(pe) => pe,
            None => return,
        };
        if let Some(i) = find_piece(&self.pieces, selected) {
            if legal {
                let ghost ps = self.pieces@;
                let c = self.pieces[i].piece.color;
                proof {
                    let k = entity_index(ps, selected);
                    assert(k == i);
                }
                let mut moved: Vec<LivePiece> = Vec::new();
                let mut k: usize = 0;
                while k < self.pieces.len()
                    invariant
                        self.pieces@ == ps,
                        k <= ps.len(),
                        moved@.len() == k,
                        forall|j: int|
                            0 <= j < k ==> #[trigger] moved@[j] == resolve(ps[j], selected, square, c),
                    decreases ps.len() - k,
                {
                    moved.push(resolve_entry(self.pieces[k], selected, square, c));
                    k = k + 1;
                }
                assert(moved@ =~= ps.map_values(|p: LivePiece| resolve(p, selected, square, c)));
                self.pieces = moved;
                self.turn.change();
                self.commits = Ghost(self.commits@ + 1);
            }
        }
        self.reset_events.push(ResetSelectedEvent);
    }

    /// Removes the pieces marked taken. Taking a king ends the game, won by the
    /// other side.
    fn despawn_taken_pieces(&mut self)
        ensures
            final(self).board.squares@ == old(self).board.squares@,
            final(self).pieces@ == kept(old(self).pieces@),
            final(self).winner == winner_of(old(self).pieces@, old(self).winner),
            final(self).turn == old(self).turn,
            final(self).commits == old(self).commits,
            final(self).reset_events@ == old(self).reset_events@,
            final(self).square_changed == old(self).square_changed,
            final(self).selected_square == old(self).selected_square,
            final(self).selected_piece == old(self).selected_piece,
    {
        let ghost ps = self.pieces@;
        let mut remaining: Vec<LivePiece> = Vec::new();
        let mut winner = self.winner;
        let mut k: usize = 0;
        while k < self.pieces.len()
            invariant
                self.pieces@ == ps,
                k <= ps.len(),
                remaining@ == kept(ps.subrange(0, k as int)),
                winner == winner_of(ps.subrange(0, k as int), self.winner),
            decreases ps.len() - k,
        {
            let p = self.pieces[k];
            assert(ps.subrange(0, k + 1).drop_last() =~= ps.subrange(0, k as int));
            if p.taken {
                if p.piece.piece_type == PieceType::King {
                    winner = Some(p.piece.color.opposite());
                }
            } else {
                remaining.push(p);
            }
            k = k + 1;
        }
        assert(ps.subrange(0, ps.len() as int) =~= ps);
        self.pieces = remaining;
        self.winner = winner;
    }

    /// Consumes the pending reset signals; if there was any, both selections
    /// are cleared.
    fn reset_selected(&mut self)
        ensures
            final(self).board.squares@ == old(self).board.squares@,
            final(self).pieces@ == old(self).pieces@,
            final(self).winner == old(self).winner,
            final(self).turn == old(self).turn,
            final(self).commits == old(self).commits,
            final(self).square_changed == old(self).square_changed,
            final(self).reset_events@.len() == 0,
            old(self).reset_events@.len() > 0 ==> final(self).selected_square.entity.is_none()
                && final(self).selected_piece.entity.is_none(),
            old(self).reset_events@.len() == 0 ==> final(self).selected_square
                == old(self).selected_square && final(self).selected_piece
                == old(self).selected_piece,
    {
        if self.reset_events.len() > 0 {
            self.selected_square.entity = None;
            self.selected_piece.entity = None;
            self.reset_events = Vec::new();
        }
    }
}

} // verus!
