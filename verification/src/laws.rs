//! What holds of the rules whatever the state and whatever is drawn.

use vstd::prelude::*;
use crate::game_handler::Game;
use crate::grid::{clear_row, cleared_from, field_has, lowered, off_row, row_full, strip_cells};
use crate::piece::{fresh_bag, PieceEnum};
use crate::supply::{first_duplicate, held};

verus! {

/// Whether each game of the list but the first is the one before it after
/// its active piece was locked and the next one dealt.
pub open spec fn deals_in_a_row(states: Seq<Game>) -> bool {
    forall|i: int| 1 <= i < states.len() ==> (#[trigger] states[i]).dealt_from(&states[i - 1])
}

/// Whether the active piece of one of the games is of `kind`.
pub open spec fn brings(states: Seq<Game>, kind: PieceEnum) -> bool {
    exists|i: int| 0 <= i < states.len() && (#[trigger] states[i]).inplay.piece_enum == kind
}

/// Six deals in a row from the start of a bag hand out slots 1 to 6 of that
/// bag, in order: six kinds, no two of them the same.
pub proof fn law_bag_is_dealt_in_order(states: Seq<Game>)
    requires
        states.len() == 7,
        states[0].wf(),
        states[0].cursor() == 1,
        deals_in_a_row(states),
    ensures
        forall|i: int|
            1 <= i <= 6 ==> (#[trigger] states[i]).inplay.piece_enum == states[0].slots()[i],
        forall|i: int, j: int|
            1 <= i < j <= 6 ==> states[i].inplay.piece_enum != states[j].inplay.piece_enum,
        forall|i: int| 1 <= i <= 6 ==> (#[trigger] states[i]).inplay.piece_enum != PieceEnum::Empty,
{
    let slots = states[0].slots();
    assert(states[1].dealt_from(&states[0]));
    assert(states[1].slots() == slots && states[1].cursor() == 2);
    assert(states[2].dealt_from(&states[1]));
    assert(states[2].slots() == slots && states[2].cursor() == 3);
    assert(states[3].dealt_from(&states[2]));
    assert(states[3].slots() == slots && states[3].cursor() == 4);
    assert(states[4].dealt_from(&states[3]));
    assert(states[4].slots() == slots && states[4].cursor() == 5);
    assert(states[5].dealt_from(&states[4]));
    assert(states[5].slots() == slots && states[5].cursor() == 6);
    assert(states[6].dealt_from(&states[5]));
    assert(states[6].slots() == slots && states[6].cursor() == 7);
}

/// The deal that uses up a bag opens the next one, and that deal and the
/// five after it hand out slots 1 to 6 of the new bag, in order: six kinds,
/// no two of them the same, and none of them the kind in slot 7 of the old
/// bag, with which the new bag begins and which is not dealt from it.
pub proof fn law_next_bag_is_dealt_in_order(states: Seq<Game>)
    requires
        states.len() == 7,
        states[0].wf(),
        states[0].cursor() == 7,
        deals_in_a_row(states),
    ensures
        forall|i: int|
            1 <= i <= 6 ==> (#[trigger] states[i]).inplay.piece_enum == states[1].slots()[i],
        forall|i: int, j: int|
            1 <= i < j <= 6 ==> states[i].inplay.piece_enum != states[j].inplay.piece_enum,
        forall|i: int|
            1 <= i <= 6 ==> (#[trigger] states[i]).inplay.piece_enum != states[0].slots()[7],
        forall|i: int| 1 <= i <= 6 ==> (#[trigger] states[i]).inplay.piece_enum != PieceEnum::Empty,
{
    assert(states[1].dealt_from(&states[0]));
    let slots = states[1].slots();
    assert(fresh_bag(slots) && slots[0] == states[0].slots()[7] && states[1].cursor() == 2);
    assert(states[2].dealt_from(&states[1]));
    assert(states[2].slots() == slots && states[2].cursor() == 3);
    assert(states[3].dealt_from(&states[2]));
    assert(states[3].slots() == slots && states[3].cursor() == 4);
    assert(states[4].dealt_from(&states[3]));
    assert(states[4].slots() == slots && states[4].cursor() == 5);
    assert(states[5].dealt_from(&states[4]));
    assert(states[5].slots() == slots && states[5].cursor() == 6);
    assert(states[6].dealt_from(&states[5]));
    assert(states[6].slots() == slots && states[6].cursor() == 7);
}

/// Seven kinds, no two of them the same, are all seven kinds.
pub proof fn lemma_seven_kinds_cover(kinds: Seq<PieceEnum>, kind: PieceEnum)
    requires
        kinds.len() == 7,
        forall|i: int| 0 <= i < 7 ==> kinds[i] != PieceEnum::Empty,
        forall|i: int, j: int| 0 <= i < j < 7 ==> kinds[i] != kinds[j],
        kind != PieceEnum::Empty,
    ensures
        exists|i: int| 0 <= i < 7 && kinds[i] == kind,
{
    if forall|i: int| 0 <= i < 7 ==> kinds[i] != kind {
        assert(kinds[0] != kinds[1] && kinds[0] != kinds[2] && kinds[0] != kinds[3]);
        assert(kinds[0] != kinds[4] && kinds[0] != kinds[5] && kinds[0] != kinds[6]);
        assert(kinds[1] != kinds[2] && kinds[1] != kinds[3] && kinds[1] != kinds[4]);
        assert(kinds[1] != kinds[5] && kinds[1] != kinds[6] && kinds[2] != kinds[3]);
        assert(kinds[2] != kinds[4] && kinds[2] != kinds[5] && kinds[2] != kinds[6]);
        assert(kinds[3] != kinds[4] && kinds[3] != kinds[5] && kinds[3] != kinds[6]);
        assert(kinds[4] != kinds[5] && kinds[4] != kinds[6] && kinds[5] != kinds[6]);
        assert(false);
    }
}

/// A new bag whose first slot holds a kind holds every kind among its first
/// seven slots.
pub proof fn law_fresh_bag_holds_every_kind(bag: Seq<PieceEnum>, kind: PieceEnum)
    requires
        fresh_bag(bag),
        bag[0] != PieceEnum::Empty,
        kind != PieceEnum::Empty,
    ensures
        exists|i: int| 0 <= i <= 6 && bag[i] == kind,
{
    let first_seven = bag.subrange(0, 7);
    lemma_seven_kinds_cover(first_seven, kind);
    let i = choose|i: int| 0 <= i < 7 && first_seven[i] == kind;
    assert(bag[i] == kind);
}

/// In a game that has just begun, the first piece and the six pieces that
/// the next six deals bring are the seven kinds, each of them once.
pub proof fn law_first_bag_is_fair(states: Seq<Game>, now: u64)
    requires
        states.len() == 7,
        states[0].is_new(now),
        deals_in_a_row(states),
    ensures
        forall|i: int, j: int|
            0 <= i < j <= 6 ==> states[i].inplay.piece_enum != states[j].inplay.piece_enum,
        forall|kind: PieceEnum| kind != PieceEnum::Empty ==> #[trigger] brings(states, kind),
{
    law_bag_is_dealt_in_order(states);
    let slots = states[0].slots();
    let dealt = Seq::new(7, |i: int| states[i].inplay.piece_enum);
    assert(forall|i: int| 0 <= i <= 6 ==> dealt[i] == slots[i]);
    assert forall|kind: PieceEnum| kind != PieceEnum::Empty implies #[trigger] brings(
        states,
        kind,
    ) by {
        lemma_seven_kinds_cover(dealt, kind);
        let i = choose|i: int| 0 <= i < 7 && dealt[i] == kind;
        assert(states[i].inplay.piece_enum == kind);
    }
}

/// Banking twice in a row gives back what was there: where the active kind
/// stands in the slot before the cursor and, at the start of a bag, none of
/// slots 2 to 6 holds it, the second call restores the slots and makes the
/// first active kind the active piece again, fresh at the top.
pub proof fn law_hold_twice_restores(start: Game, once: Game, twice: Game)
    requires
        start.wf(),
        start.cursor() < 7,
        start.slots()[start.cursor() - 1] == start.inplay.piece_enum,
        start.cursor() == 1 ==> forall|i: int|
            2 <= i <= 6 ==> start.slots()[i] != start.inplay.piece_enum,
        once.held_from(&start),
        twice.held_from(&once),
    ensures
        once.inplay.piece_enum == start.slots()[start.cursor()],
        twice.slots() == start.slots(),
        twice.cursor() == start.cursor(),
        twice.inplay.is_spawn_of(start.inplay.piece_enum),
{
    let slots = start.slots();
    let cursor = start.cursor();
    let active = start.inplay.piece_enum;
    let swapped = slots.update(cursor - 1, slots[cursor]).update(cursor, active);
    if cursor == 1 {
        assert(first_duplicate(swapped) == 0);
    }
    assert(once.slots() == swapped);
    let back = swapped.update(cursor - 1, swapped[cursor]).update(cursor, slots[cursor]);
    assert(back =~= slots);
    if cursor == 1 {
        assert(first_duplicate(back) == 0);
    }
    assert(held(swapped, cursor, slots[cursor]) == slots);
}

/// What a cleared row leaves: below the row every cell is where it was, and
/// in the row and above it there is a cell exactly where one lay in the row
/// above before.
pub proof fn law_clear_row_occupancy(field: Seq<Seq<(int, int)>>, line: int, cell: (int, int))
    ensures
        field_has(clear_row(field, line), cell) <==> if cell.1 > line {
            field_has(field, cell)
        } else {
            field_has(field, (cell.0, cell.1 - 1))
        },
{
    let after = clear_row(field, line);
    let source = if cell.1 > line {
        cell
    } else {
        (cell.0, cell.1 - 1)
    };
    if field_has(after, cell) {
        let (i, j) = choose|i: int, j: int|
            0 <= i < after.len() && 0 <= j < after[i].len() && after[i][j] == cell;
        let kept = strip_cells(field[i], line);
        let from = kept[j];
        assert(kept.contains(from));
        field[i].lemma_filter_contains_rev(off_row(line), from);
        field[i].lemma_filter_pred(off_row(line), j);
        assert(field[i].contains(from) && from.1 != line);
        assert(cell == lowered(from, line));
        assert(from == source);
        let j0 = choose|j0: int| 0 <= j0 < field[i].len() && field[i][j0] == from;
        assert(field[i][j0] == source);
    }
    if field_has(field, source) {
        let (i, j0) = choose|i: int, j0: int|
            0 <= i < field.len() && 0 <= j0 < field[i].len() && field[i][j0] == source;
        assert(source.1 != line);
        assert(off_row(line)(field[i][j0]));
        field[i].lemma_filter_contains(off_row(line), j0);
        let kept = strip_cells(field[i], line);
        assert(kept.contains(source));
        let j = choose|j: int| 0 <= j < kept.len() && kept[j] == source;
        assert(after[i][j] == lowered(source, line));
        assert(after[i][j] == cell);
    }
}

/// The landed cells when a pass over the rows, begun with `snapshot`,
/// reaches `row`: the rows above it that were full have been cleared.
pub open spec fn cleared_until(snapshot: Seq<Seq<(int, int)>>, row: int) -> Seq<Seq<(int, int)>>
    decreases row + 4,
{
    if row <= -4 {
        snapshot
    } else if row_full(snapshot, row - 1) {
        clear_row(cleared_until(snapshot, row - 1), row - 1)
    } else {
        cleared_until(snapshot, row - 1)
    }
}

/// A pass over the rows leaves the rows that it has not reached yet as they were.
pub proof fn law_pass_leaves_rows_ahead(snapshot: Seq<Seq<(int, int)>>, row: int, cell: (int, int))
    requires
        cell.1 >= row,
    ensures
        field_has(cleared_until(snapshot, row), cell) <==> field_has(snapshot, cell),
    decreases row + 4,
{
    if row > -4 {
        law_pass_leaves_rows_ahead(snapshot, row - 1, cell);
        if row_full(snapshot, row - 1) {
            law_clear_row_occupancy(cleared_until(snapshot, row - 1), row - 1, cell);
        }
    }
}

/// A row is cleared by a pass if and only if it is full when the pass
/// reaches it: reading which rows are full once, before the pass, changes
/// nothing.
pub proof fn law_pass_clears_the_full_rows(snapshot: Seq<Seq<(int, int)>>, row: int)
    ensures
        row_full(snapshot, row) <==> row_full(cleared_until(snapshot, row), row),
{
    let reached = cleared_until(snapshot, row);
    assert forall|col: int| 0 <= col <= 9 implies (field_has(snapshot, (col, row)) <==> field_has(
        reached,
        (col, row),
    )) by {
        law_pass_leaves_rows_ahead(snapshot, row, (col, row));
    }
}

/// The pass that `check_line` makes ends with what `cleared_until` gives
/// for the row below the last.
pub proof fn law_pass_is_row_by_row(snapshot: Seq<Seq<(int, int)>>)
    ensures
        cleared_from(snapshot, snapshot, -4) == cleared_until(snapshot, 20),
{
    lemma_rest_of_pass(snapshot, 20);
}

proof fn lemma_rest_of_pass(snapshot: Seq<Seq<(int, int)>>, row: int)
    requires
        -4 <= row <= 20,
    ensures
        cleared_from(cleared_until(snapshot, row), snapshot, row) == cleared_from(
            snapshot,
            snapshot,
            -4,
        ),
    decreases row + 4,
{
    if row > -4 {
        lemma_rest_of_pass(snapshot, row - 1);
    }
}

} // verus!
