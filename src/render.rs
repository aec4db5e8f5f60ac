//! Text rendering of the board: one line per row, cells separated by bars,
//! rows separated by a divider line.

use vstd::prelude::*;
use itertools::Itertools;
use crate::board::{SlotValue, ROW, marker_text};
use crate::game::Game;

verus! {

/// The items of `parts` in order, with `sep` between each two neighbours.
pub open spec fn joined(parts: Seq<Seq<char>>, sep: Seq<char>) -> Seq<char>
    decreases parts.len(),
{
    if parts.len() == 0 {
        Seq::empty()
    } else if parts.len() == 1 {
        parts[0]
    } else {
        joined(parts.drop_last(), sep) + sep + parts.last()
    }
}

/// How a cell is shown: its marker, or a blank when it is empty.
pub open spec fn slot_text(v: SlotValue) -> Seq<char> {
    match v {
        Some(p) => marker_text(p),
        None => seq![' '],
    }
}

/// How row `r` (0-based) of board `b` is shown.
pub open spec fn row_text(b: Seq<SlotValue>, r: int) -> Seq<char> {
    joined(
        seq![slot_text(b[3 * r]), slot_text(b[3 * r + 1]), slot_text(b[3 * r + 2])],
        " | "@,
    )
}

/// How board `b` is shown: its three rows, with a divider line between rows.
pub open spec fn board_text(b: Seq<SlotValue>) -> Seq<char> {
    joined(seq![row_text(b, 0), row_text(b, 1), row_text(b, 2)], "\n----------\n"@)
}

/// The texts held by a vector of strings.
pub open spec fn texts(v: Seq<String>) -> Seq<Seq<char>> {
    v.map_values(|s: String| s@)
}

/// Relies on itertools::Itertools::join over the strings of `parts`: each
/// string as it is, in order, with `sep` between each two neighbours.
#[verifier::external_body]
fn join_with(parts: &Vec<String>, sep: &str) -> (r: String)
    ensures
        r@ == joined(texts(parts@), sep@),
{
    parts.iter().join(sep)
}

/// The text of one cell: `"X"`, `"O"`, or `" "` when it is empty.
pub fn display_slot(slot: &SlotValue) -> (r: String)
    ensures
        r@ == slot_text(*slot),
{
    match slot {
        Some(p) => p.marker(),
        None => {
            proof {
                reveal_strlit(" ");
            }
            " ".to_owned()
        },
    }
}

impl Game {
    /// The board as text, rows top to bottom.
    pub fn display_board(&self) -> (r: String)
        ensures
            r@ == board_text(self.state.board@),
    {
        let ghost b = self.state.board@;
        let mut rows: Vec<String> = Vec::new();
        let mut r: usize = 0;
        while r < ROW
            invariant
                r <= ROW,
                b == self.state.board@,
                rows@.len() == r,
                forall|i: int| 0 <= i < r ==> (#[trigger] rows@[i])@ == row_text(b, i),
            decreases ROW - r,
        {
            let mut cells: Vec<String> = Vec::new();
            let mut c: usize = 0;
            while c < ROW
                invariant
                    c <= ROW,
                    r < ROW,
                    b == self.state.board@,
                    cells@.len() == c,
                    forall|j: int| 0 <= j < c ==> (#[trigger] cells@[j])@ == slot_text(
                        b[3 * r + j],
                    ),
                decreases ROW - c,
            {
                let cell = display_slot(&self.state.board[r * ROW + c]);
                cells.push(cell);
                c = c + 1;
            }
            let row = join_with(&cells, " | ");
            assert(texts(cells@) =~= seq![
                slot_text(b[3 * r]),
                slot_text(b[3 * r + 1]),
                slot_text(b[3 * r + 2]),
            ]);
            rows.push(row);
            r = r + 1;
        }
        let text = join_with(&rows, "\n----------\n");
        assert(texts(rows@) =~= seq![row_text(b, 0), row_text(b, 1), row_text(b, 2)]);
        text
    }
}

} // verus!
