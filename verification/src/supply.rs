//! The slots of the piece supply and what banking a piece does to them.

use vstd::prelude::*;
use crate::piece::{open_kinds, PieceEnum};

verus! {

/// What holds of the supply in every state of a game: eight slots, none of
/// them empty; a cursor from 1 to 7; no kind twice among slots 1 to 6; and,
/// once a piece was dealt from this bag, the active kind in the slot before
/// the cursor.
pub open spec fn supply_wf(slots: Seq<PieceEnum>, cursor: int, active: PieceEnum) -> bool {
    &&& slots.len() == 8
    &&& 1 <= cursor <= 7
    &&& forall|i: int| 0 <= i < 8 ==> slots[i] != PieceEnum::Empty
    &&& window_distinct(slots)
    &&& cursor >= 2 ==> slots[cursor - 1] == active
}

/// The first of slots 2 to 6 that holds what slot 1 holds, or 0 where none does.
pub open spec fn first_duplicate(slots: Seq<PieceEnum>) -> int {
    if slots[2] == slots[1] {
        2
    } else if slots[3] == slots[1] {
        3
    } else if slots[4] == slots[1] {
        4
    } else if slots[5] == slots[1] {
        5
    } else if slots[6] == slots[1] {
        6
    } else {
        0
    }
}

/// The slots after the repair at the start of a bag: the first of slots 2 to
/// 6 that repeats slot 1 is emptied and then given the first kind that slots
/// 1 to 6 lack. Where no slot repeats slot 1, nothing changes.
pub open spec fn resolved(slots: Seq<PieceEnum>) -> Seq<PieceEnum> {
    let at = first_duplicate(slots);
    if at == 0 {
        slots
    } else {
        slots.update(at, open_kinds(slots.update(at, PieceEnum::Empty).subrange(1, 7))[0])
    }
}

/// The slots after the active kind was banked with the cursor at `cursor`:
/// the kind at the cursor goes to the slot before it, the active kind takes
/// its place, and at the start of a bag a repeated kind is replaced.
pub open spec fn held(slots: Seq<PieceEnum>, cursor: int, active: PieceEnum) -> Seq<PieceEnum> {
    let swapped = slots.update(cursor - 1, slots[cursor]).update(cursor, active);
    if cursor == 1 {
        resolved(swapped)
    } else {
        swapped
    }
}

/// Whether no kind stands twice among slots 1 to 6.
pub open spec fn window_distinct(slots: Seq<PieceEnum>) -> bool {
    forall|i: int, j: int| 1 <= i < j <= 6 ==> slots[i] != slots[j]
}

} // verus!
