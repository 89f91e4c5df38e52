use vstd::prelude::*;

verus! {

/// An identity handed out to each square and piece of a game.
pub type Entity = u64;

/// Number of cells along each side of the board.
pub const BOARD_SIZE: u8 = 8;

/// One cell of the board, by its coordinates.
#[derive(Clone, Copy, Debug, PartialEq, Eq, Structural)]
pub struct Square {
    pub x: u8,
    pub y: u8,
}

/// The square that the player last clicked, if any.
#[derive(Clone, Copy, Debug, PartialEq, Eq, Structural)]
pub struct SelectedSquare {
    pub entity: Option<Entity>,
}

/// The piece that the player has picked up, if any.
#[derive(Clone, Copy, Debug, PartialEq, Eq, Structural)]
pub struct SelectedPiece {
    pub entity: Option<Entity>,
}

impl Default for SelectedSquare {
    fn default() -> (r: SelectedSquare)
        ensures
            r.entity.is_none(),
    {
        SelectedSquare { entity: None }
    }
}

impl Default for SelectedPiece {
    fn default() -> (r: SelectedPiece)
        ensures
            r.entity.is_none(),
    {
        SelectedPiece { entity: None }
    }
}

/// The square that the board creates as its `k`-th cell: the rows of the
/// first coordinate in turn, each walked along the second.
pub open spec fn square_at_index(k: int) -> Square {
    Square { x: (k / 8) as u8, y: (k % 8) as u8 }
}

/// `s` holds the 64 cells of the board, in the order in which they are created.
pub open spec fn is_standard_layout(s: Seq<Square>) -> bool {
    &&& s.len() == 64
    &&& forall|k: int| 0 <= k < 64 ==> #[trigger] s[k] == square_at_index(k)
}

/// The cell at `(x, y)` is drawn light.
pub open spec fn is_light(x: int, y: int) -> bool {
    (x + y + 1) % 2 == 0
}

/// The 64 cells of the board, one per coordinate pair, in creation order.
pub fn create_board() -> (r: Vec<Square>)
    ensures
        is_standard_layout(r@),
{
    let mut squares: Vec<Square> = Vec::new();
    let mut i: u8 = 0;
    while i < BOARD_SIZE
        invariant
            i <= 8,
            squares@.len() == 8 * i,
            forall|k: int| 0 <= k < squares@.len() ==> #[trigger] squares@[k] == square_at_index(k),
        decreases 8 - i,
    {
        let mut j: u8 = 0;
        while j < BOARD_SIZE
            invariant
                i < 8,
                j <= 8,
                squares@.len() == 8 * i + j,
                forall|k: int| 0 <= k < squares@.len() ==> #[trigger] squares@[k] == square_at_index(k),
            decreases 8 - j,
        {
            proof {
                let k = 8 * i + j;
                assert(k / 8 == i as int && k % 8 == j as int) by (nonlinear_arith)
                    requires k == 8 * i + j, 0 <= j < 8, 0 <= i;
            }
            squares.push(Square { x: i, y: j });
            j = j + 1;
        }
        i = i + 1;
    }
    squares
}

impl Square {
    /// Whether this cell is drawn light; the others are drawn dark.
    pub fn is_light(&self) -> (r: bool)
        ensures
            r == is_light(self.x as int, self.y as int),
    {
        (self.x as u16 + self.y as u16 + 1) % 2 == 0
    }
}

/// The board: its squares, each known by the entity that is its index.
#[derive(Debug)]
pub struct Board {
    pub squares: Vec<Square>,
}

impl Board {
    /// The square that `entity` stands for, if it is one of the board's.
    pub open spec fn square_of(&self, entity: Entity) -> Option<Square> {
        if entity < self.squares@.len() {
            Some(self.squares@[entity as int])
        } else {
            None
        }
    }

    /// The board with its 64 cells.
    pub fn new() -> (r: Board)
        ensures
            is_standard_layout(r.squares@),
    {
        Board { squares: create_board() }
    }

    /// Looks up the square that `entity` stands for.
    pub fn get(&self, entity: Entity) -> (r: Option<Square>)
        ensures
            r == self.square_of(entity),
    {
        if entity < self.squares.len() as u64 {
            Some(self.squares[entity as usize])
        } else {
            None
        }
    }
}

} // verus!
