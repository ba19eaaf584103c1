//! Dense move identifiers and their algebraic and board spellings.
//!
//! Identifiers `0..=80` are pawn destinations, `81..=144` horizontal walls and
//! `145..=208` vertical walls. Cells and wall slots are numbered row by row from
//! the far side of the board, so row 0 is rank 9.

use crate::text;
use vstd::prelude::*;

verus! {

/// No move at all.
pub const TITANIUM_NO_MOVE: i16 = -1;

/// First horizontal wall identifier.
pub const MOVE_HW_BASE: i16 = 81;

/// First vertical wall identifier.
pub const MOVE_VW_BASE: i16 = 145;

/// One past the last wall identifier.
pub const MOVE_LIMIT: i16 = 209;

/// Orientation of a wall.
#[derive(Clone, Copy, Debug, PartialEq, Eq, Structural)]
pub enum WallOrientation {
    Horizontal,
    Vertical,
}

/// A move in board coordinates: rows count up from rank 1.
#[derive(Clone, Copy, Debug, PartialEq, Eq, Structural)]
pub enum BoardMove {
    Pawn { row: u8, col: u8 },
    Wall { row: u8, col: u8, orientation: WallOrientation },
}

/// Pawn destinations.
pub open spec fn pawn_id(m: int) -> bool {
    0 <= m < 81
}

/// Horizontal walls.
pub open spec fn hwall_id(m: int) -> bool {
    81 <= m < 145
}

/// Vertical walls.
pub open spec fn vwall_id(m: int) -> bool {
    145 <= m < 209
}

/// Walls of either orientation.
pub open spec fn wall_id(m: int) -> bool {
    81 <= m < 209
}

/// Every identifier that names a move.
pub open spec fn move_id(m: int) -> bool {
    0 <= m < 209
}

/// Wall slot of a wall identifier.
pub open spec fn slot_of(m: int) -> int {
    if m < 145 {
        m - 81
    } else {
        m - 145
    }
}

pub fn is_pawn_move(m: i16) -> (r: bool)
    ensures
        r == pawn_id(m as int),
{
    0 <= m && m < MOVE_HW_BASE
}

pub fn is_hwall_move(m: i16) -> (r: bool)
    ensures
        r == hwall_id(m as int),
{
    MOVE_HW_BASE <= m && m < MOVE_VW_BASE
}

pub fn is_vwall_move(m: i16) -> (r: bool)
    ensures
        r == vwall_id(m as int),
{
    MOVE_VW_BASE <= m && m < MOVE_LIMIT
}

pub fn is_wall_move(m: i16) -> (r: bool)
    ensures
        r == wall_id(m as int),
{
    MOVE_HW_BASE <= m && m < MOVE_LIMIT
}

/// Slot of a wall move.
pub fn wall_slot(m: i16) -> (slot: usize)
    requires
        wall_id(m as int),
    ensures
        slot == slot_of(m as int),
        slot < 64,
{
    if m < MOVE_VW_BASE {
        (m - MOVE_HW_BASE) as usize
    } else {
        (m - MOVE_VW_BASE) as usize
    }
}

/// Identifier of the wall of type `wall_type` (0 horizontal, 1 vertical) at `slot`.
pub open spec fn wall_move_id(wall_type: int, slot: int) -> int {
    if wall_type == 0 {
        81 + slot
    } else {
        145 + slot
    }
}

pub fn wall_move(wall_type: usize, slot: usize) -> (m: i16)
    requires
        slot < 64,
    ensures
        m == wall_move_id(wall_type as int, slot as int),
        wall_id(m as int),
        slot_of(m as int) == slot,
{
    if wall_type == 0 {
        MOVE_HW_BASE + slot as i16
    } else {
        MOVE_VW_BASE + slot as i16
    }
}

/// Rows and columns a board move may name.
pub open spec fn board_move_ok(mv: BoardMove) -> bool {
    match mv {
        BoardMove::Pawn { row, col } => row < 9 && col < 9,
        BoardMove::Wall { row, col, .. } => row < 8 && col < 8,
    }
}

/// The identifier of a board move: board rows count from rank 1, identifiers
/// from rank 9.
pub open spec fn board_move_id(mv: BoardMove) -> int {
    match mv {
        BoardMove::Pawn { row, col } => (8 - row) * 9 + col,
        BoardMove::Wall { row, col, orientation } => {
            let slot = (7 - row) * 8 + col;
            match orientation {
                WallOrientation::Horizontal => 81 + slot,
                WallOrientation::Vertical => 145 + slot,
            }
        },
    }
}

/// Board move to dense identifier.
pub fn board_move_to_move_id(mv: BoardMove) -> (m: i16)
    ensures
        m == board_move_id(mv),
{
    match mv {
        BoardMove::Pawn { row, col } => (8 - row as i16) * 9 + col as i16,
        BoardMove::Wall { row, col, orientation } => {
            let slot: i16 = (7 - row as i16) * 8 + col as i16;
            match orientation {
                WallOrientation::Horizontal => MOVE_HW_BASE + slot,
                WallOrientation::Vertical => MOVE_VW_BASE + slot,
            }
        },
    }
}

/// The board move an identifier stands for.
pub open spec fn move_board(m: int) -> BoardMove {
    if pawn_id(m) {
        BoardMove::Pawn { row: (8 - m / 9) as u8, col: (m % 9) as u8 }
    } else {
        let slot = slot_of(m);
        BoardMove::Wall {
            row: (7 - slot / 8) as u8,
            col: (slot % 8) as u8,
            orientation: if hwall_id(m) {
                WallOrientation::Horizontal
            } else {
                WallOrientation::Vertical
            },
        }
    }
}

/// Dense identifier to board move.
pub fn move_id_to_board(m: i16) -> (mv: BoardMove)
    requires
        move_id(m as int),
    ensures
        mv == move_board(m as int),
        board_move_ok(mv),
{
    if is_pawn_move(m) {
        BoardMove::Pawn { row: (8 - m / 9) as u8, col: (m % 9) as u8 }
    } else {
        let slot: i16 = wall_slot(m) as i16;
        let orientation = if is_hwall_move(m) {
            WallOrientation::Horizontal
        } else {
            WallOrientation::Vertical
        };
        BoardMove::Wall { row: (7 - slot / 8) as u8, col: (slot % 8) as u8, orientation }
    }
}

/// Spelling a move on the board and reading it back gives the same identifier,
/// and the other way round.
pub proof fn law_board_round_trip(m: int, mv: BoardMove)
    requires
        move_id(m),
        board_move_ok(mv),
    ensures
        board_move_id(move_board(m)) == m,
        move_id(board_move_id(mv)),
        move_board(board_move_id(mv)) == mv,
{
}

/// Column letter: `a` for column 0.
pub open spec fn file_char(c: int) -> char {
    (97 + c) as char
}

/// Algebraic spelling of a move: column letter, rank digit and, for walls, `h` or
/// `v`. Identifiers that name no move are spelled as nothing.
pub open spec fn algebraic(m: int) -> Seq<char> {
    if pawn_id(m) {
        seq![file_char(m % 9), text::digit_char(9 - m / 9)]
    } else if wall_id(m) {
        let slot = slot_of(m);
        seq![
            file_char(slot % 8),
            text::digit_char(8 - slot / 8),
            if hwall_id(m) {
                'h'
            } else {
                'v'
            },
        ]
    } else {
        Seq::empty()
    }
}

/// The identifier an algebraic spelling stands for; `TITANIUM_NO_MOVE` when the
/// text spells no move.
pub open spec fn parsed_move(t: Seq<char>) -> int {
    if t.len() == 2 && 'a' <= t[0] <= 'i' && '1' <= t[1] <= '9' {
        (57 - t[1] as int) * 9 + (t[0] as int - 97)
    } else if t.len() == 3 && 'a' <= t[0] <= 'h' && '1' <= t[1] <= '8' && (t[2] == 'h' || t[2]
        == 'v') {
        let slot = (56 - t[1] as int) * 8 + (t[0] as int - 97);
        if t[2] == 'h' {
            81 + slot
        } else {
            145 + slot
        }
    } else {
        -1
    }
}

fn push_file(out: &mut String, c: i16)
    requires
        0 <= c < 9,
    ensures
        final(out)@ == old(out)@.push(file_char(c as int)),
{
    proof {
        reveal_strlit("a");
        reveal_strlit("b");
        reveal_strlit("c");
        reveal_strlit("d");
        reveal_strlit("e");
        reveal_strlit("f");
        reveal_strlit("g");
        reveal_strlit("h");
        reveal_strlit("i");
    }
    let ghost before = out@;
    if c == 0 {
        out.append("a");
    } else if c == 1 {
        out.append("b");
    } else if c == 2 {
        out.append("c");
    } else if c == 3 {
        out.append("d");
    } else if c == 4 {
        out.append("e");
    } else if c == 5 {
        out.append("f");
    } else if c == 6 {
        out.append("g");
    } else if c == 7 {
        out.append("h");
    } else {
        out.append("i");
    }
    assert(out@ =~= before.push(file_char(c as int)));
}

/// Algebraic spelling of a move.
pub fn move_id_to_algebraic(m: i16) -> (text: String)
    ensures
        text@ == algebraic(m as int),
{
    let mut out: String = String::new();
    if is_pawn_move(m) {
        push_file(&mut out, m % 9);
        text::push_u64(&mut out, (9 - m / 9) as u64);
        assert(out@ =~= algebraic(m as int));
    } else if is_wall_move(m) {
        let slot: i16 = wall_slot(m) as i16;
        push_file(&mut out, slot % 8);
        text::push_u64(&mut out, (8 - slot / 8) as u64);
        proof {
            reveal_strlit("h");
            reveal_strlit("v");
        }
        if is_hwall_move(m) {
            out.append("h");
        } else {
            out.append("v");
        }
        assert(out@ =~= algebraic(m as int));
    }
    out
}

/// Reads an algebraic spelling.
pub fn algebraic_to_move_id(text: &str) -> (m: i16)
    ensures
        m == parsed_move(text@),
{
    let n: usize = text.unicode_len();
    if n == 2 {
        let file: char = text.get_char(0);
        let rank: char = text.get_char(1);
        if 'a' <= file && file <= 'i' && '1' <= rank && rank <= '9' {
            return (57 - rank as i16) * 9 + (file as i16 - 97);
        }
    } else if n == 3 {
        let file: char = text.get_char(0);
        let rank: char = text.get_char(1);
        let kind: char = text.get_char(2);
        if 'a' <= file && file <= 'h' && '1' <= rank && rank <= '8' {
            let slot: i16 = (56 - rank as i16) * 8 + (file as i16 - 97);
            if kind == 'h' {
                return MOVE_HW_BASE + slot;
            }
            if kind == 'v' {
                return MOVE_VW_BASE + slot;
            }
        }
    }
    TITANIUM_NO_MOVE
}

/// Every move is read back from its own spelling.
pub proof fn law_algebraic_round_trip(m: int)
    requires
        move_id(m),
    ensures
        parsed_move(algebraic(m)) == m,
{
}

/// What a text spells is a move or no move at all.
pub proof fn law_parsed_move_is_a_move(t: Seq<char>)
    ensures
        parsed_move(t) == TITANIUM_NO_MOVE || move_id(parsed_move(t)),
{
}

/// A wall touches the four cells around its centre, whatever its orientation.
pub open spec fn wall_touches(row: int, col: int, mask: Seq<u8>) -> bool {
    mask[row * 9 + col] != 0 || mask[row * 9 + col + 1] != 0 || mask[(row + 1) * 9 + col] != 0
        || mask[(row + 1) * 9 + col + 1] != 0
}

/// The four cells around the centre of a wall.
pub fn wall_touch_squares(row: u8, col: u8, orientation: WallOrientation) -> (cells: [(u8, u8); 4])
    requires
        row < 255,
        col < 255,
    ensures
        cells@ == seq![
            (row, col),
            (row, (col + 1) as u8),
            ((row + 1) as u8, col),
            ((row + 1) as u8, (col + 1) as u8),
        ],
{
    let cells: [(u8, u8); 4] = [(row, col), (row, col + 1), (row + 1, col), (row + 1, col + 1)];
    assert(cells@ =~= seq![
        (row, col),
        (row, (col + 1) as u8),
        ((row + 1) as u8, col),
        ((row + 1) as u8, (col + 1) as u8),
    ]);
    cells
}

fn on_route(cell: (u8, u8), route0: &[u8; 81], route1: &[u8; 81]) -> (hit: bool)
    requires
        cell.0 < 9,
        cell.1 < 9,
    ensures
        hit == (route0@[cell.0 * 9 + cell.1] != 0 || route1@[cell.0 * 9 + cell.1] != 0),
{
    let sq: usize = cell.0 as usize * 9 + cell.1 as usize;
    route0[sq] != 0 || route1[sq] != 0
}

/// Does this wall touch a cell of either player's shortest-route set?
pub fn wall_touches_route(
    row: u8,
    col: u8,
    orientation: WallOrientation,
    route0: &[u8; 81],
    route1: &[u8; 81],
) -> (touches: bool)
    requires
        row < 8,
        col < 8,
    ensures
        touches == (wall_touches(row as int, col as int, route0@) || wall_touches(
            row as int,
            col as int,
            route1@,
        )),
{
    let cells = wall_touch_squares(row, col, orientation);
    on_route(cells[0], route0, route1) || on_route(cells[1], route0, route1) || on_route(
        cells[2],
        route0,
        route1,
    ) || on_route(cells[3], route0, route1)
}

} // verus!
