//! The game: its state, the moves of the player, gravity, locking and line clearing.

use vstd::prelude::*;
use crate::block::{block_cells, Block};
use crate::grid::{
    above_top, any_blocked, cleared_from, field_cells, field_has, full_rows_from, is_wall,
    lemma_full_rows_bound, lower_cells, lower_field, lowered, off_row, row_full, shift_all,
    shifted, strip_cells, strip_field, turn_all, turned,
};
use crate::piece::{fresh_bag, lemma_some_kind_is_open, FindOpen, Piece, PieceEnum};
use crate::supply::{first_duplicate, held, supply_wf, window_distinct};

verus! {

/// The three ways the active piece can be pushed.
#[derive(Clone, Copy, Debug)]
pub enum MoveDirection {
    Left,
    Right,
    Down,
}

impl MoveDirection {
    /// The step of one move: columns, then rows.
    pub open spec fn vector(self) -> (int, int) {
        match self {
            MoveDirection::Left => (-1, 0),
            MoveDirection::Right => (1, 0),
            MoveDirection::Down => (0, 1),
        }
    }
}

/// What the player can ask for, one request per key press.
#[derive(Clone, Copy, Debug)]
pub enum Intent {
    MoveLeft,
    MoveRight,
    MoveDown,
    HardDrop,
    Rotate,
    Hold,
    Restart,
    Quit,
}

/// The time between two pulls of gravity, in milliseconds.
pub const GRAVITY_INTERVAL: u64 = 1000;

/// The points that one cleared row is worth.
pub const LINE_BONUS: u32 = 100;

/// Whether the two lists hold the same pieces but for their cells.
pub open spec fn same_but_cells(now: Seq<Piece>, before: Seq<Piece>) -> bool {
    &&& now.len() == before.len()
    &&& forall|i: int|
        0 <= i < now.len() ==> {
            &&& (#[trigger] now[i]).center == before[i].center
            &&& now[i].color == before[i].color
            &&& now[i].piece_enum == before[i].piece_enum
        }
}

/// What holds of the active piece in every state of a game: four cells, the
/// first of them the pivot, each at most two steps from it and none in the
/// frame, with the pivot inside the grid.
pub open spec fn active_wf(piece: Piece) -> bool {
    &&& piece.shape@.len() == 4
    &&& piece.piece_enum != PieceEnum::Empty
    &&& piece.cells()[0] == piece.pivot()
    &&& 0 <= piece.pivot().0 <= 9
    &&& -3 <= piece.pivot().1 <= 19
    &&& forall|k: int|
        0 <= k < 4 ==> {
            let cell = #[trigger] piece.cells()[k];
            &&& -2 <= cell.0 - piece.pivot().0 <= 2
            &&& -2 <= cell.1 - piece.pivot().1 <= 2
            &&& !is_wall(cell)
        }
}

/// A game: the active piece, the landed pieces, the frame, the score, the
/// supply of kinds, whether the game is lost, and when gravity last pulled.
#[derive(Debug)]
pub struct Game {
    pub inplay: Piece,
    pub playfield: Vec<Piece>,
    pub border: Vec<Block>,
    pub score: u32,
    pub bag: [PieceEnum; 8],
    pub bag_i: usize,
    pub lost: bool,
    /// The time of the last pull of gravity, in milliseconds.
    pub timer: u64,
}

/// Every piece that enters the grid is a sound active piece.
pub proof fn lemma_spawn_is_sound(piece: Piece, kind: PieceEnum)
    requires
        kind != PieceEnum::Empty,
        piece.is_spawn_of(kind),
    ensures
        active_wf(piece),
{
    assert(piece.cells().len() == piece.shape@.len());
}

proof fn lemma_push_contains<A>(s: Seq<A>, x: A, c: A)
    ensures
        s.push(x).contains(c) <==> s.contains(c) || c == x,
{
    if s.push(x).contains(c) {
        let i = choose|i: int| 0 <= i < s.push(x).len() && s.push(x)[i] == c;
        if i < s.len() {
            assert(s[i] == c);
        }
    }
    if s.contains(c) {
        let i = choose|i: int| 0 <= i < s.len() && s[i] == c;
        assert(s.push(x)[i] == c);
    }
    if c == x {
        assert(s.push(x)[s.len() as int] == c);
    }
}

proof fn lemma_block_cells_push(blocks: Seq<Block>, block: Block, cell: (int, int))
    ensures
        block_cells(blocks.push(block)).contains(cell) <==> block_cells(blocks).contains(cell)
            || cell == block.cell(),
{
    assert(block_cells(blocks.push(block)) =~= block_cells(blocks).push(block.cell()));
    lemma_push_contains(block_cells(blocks), block.cell(), cell);
}

/// The frame of the grid: the side walls row by row, then the floor.
fn build_border() -> (border: Vec<Block>)
    ensures
        forall|cell: (int, int)| #[trigger] block_cells(border@).contains(cell) <==> is_wall(cell),
{
    let mut border: Vec<Block> = Vec::new();
    let mut y: i32 = -4;
    while y <= 19
        invariant
            -4 <= y <= 20,
            forall|cell: (int, int)| #[trigger]
                block_cells(border@).contains(cell) <==> (cell.0 == -1 || cell.0 == 10) && -4
                    <= cell.1 < y,
        decreases 20 - y,
    {
        let block_left = Block::new((-1, y));
        let block_right = Block::new((10, y));
        let ghost before = border@;
        border.push(block_left);
        border.push(block_right);
        proof {
            assert forall|cell: (int, int)| #[trigger]
                block_cells(border@).contains(cell) <==> (cell.0 == -1 || cell.0 == 10) && -4
                    <= cell.1 < y + 1 by {
                lemma_block_cells_push(before, block_left, cell);
                lemma_block_cells_push(before.push(block_left), block_right, cell);
            }
        }
        y += 1;
    }
    let mut x: i32 = 0;
    while x <= 9
        invariant
            0 <= x <= 10,
            forall|cell: (int, int)| #[trigger]
                block_cells(border@).contains(cell) <==> ((cell.0 == -1 || cell.0 == 10) && -4
                    <= cell.1 <= 19) || (cell.1 == 20 && 0 <= cell.0 < x),
        decreases 10 - x,
    {
        let block = Block::new((x, 20));
        let ghost before = border@;
        border.push(block);
        proof {
            assert forall|cell: (int, int)| #[trigger]
                block_cells(border@).contains(cell) <==> ((cell.0 == -1 || cell.0 == 10) && -4
                    <= cell.1 <= 19) || (cell.1 == 20 && 0 <= cell.0 < x + 1) by {
                lemma_block_cells_push(before, block, cell);
            }
        }
        x += 1;
    }
    border
}

impl Game {
    /// The cells of the frame.
    pub open spec fn walls(&self) -> Seq<(int, int)> {
        block_cells(self.border@)
    }

    /// The eight slots of the supply.
    pub open spec fn slots(&self) -> Seq<PieceEnum> {
        self.bag@
    }

    /// The slot that is dealt next.
    pub open spec fn cursor(&self) -> int {
        self.bag_i as int
    }

    /// The cells of the landed pieces, piece by piece.
    pub open spec fn field(&self) -> Seq<Seq<(int, int)>> {
        field_cells(self.playfield@)
    }

    /// Whether the frame or a landed piece holds `cell`.
    pub open spec fn blocked(&self, cell: (int, int)) -> bool {
        is_wall(cell) || field_has(self.field(), cell)
    }

    /// What holds in every state of a game.
    pub open spec fn wf(&self) -> bool {
        &&& forall|cell: (int, int)| #[trigger] self.walls().contains(cell) <==> is_wall(cell)
        &&& active_wf(self.inplay)
        &&& supply_wf(self.slots(), self.cursor(), self.inplay.piece_enum)
    }

    /// Whether the two games differ in nothing but the cells and the pivot of
    /// the active piece.
    pub open spec fn same_but_active(&self, other: &Game) -> bool {
        &&& self.inplay.color == other.inplay.color
        &&& self.inplay.piece_enum == other.inplay.piece_enum
        &&& self.playfield@ == other.playfield@
        &&& self.walls() == other.walls()
        &&& self.score == other.score
        &&& self.slots() == other.slots()
        &&& self.cursor() == other.cursor()
        &&& self.lost == other.lost
        &&& self.timer == other.timer
    }

    /// Whether the two games differ in nothing but the supply: its slots and its cursor.
    pub open spec fn same_but_supply(&self, other: &Game) -> bool {
        &&& self.inplay == other.inplay
        &&& self.playfield@ == other.playfield@
        &&& self.walls() == other.walls()
        &&& self.score == other.score
        &&& self.lost == other.lost
        &&& self.timer == other.timer
    }

    /// Whether the two games differ in nothing but the cells of the landed
    /// pieces and the score.
    pub open spec fn same_but_field(&self, other: &Game) -> bool {
        &&& self.inplay == other.inplay
        &&& same_but_cells(self.playfield@, other.playfield@)
        &&& self.walls() == other.walls()
        &&& self.slots() == other.slots()
        &&& self.cursor() == other.cursor()
        &&& self.lost == other.lost
        &&& self.timer == other.timer
    }

    /// Whether the game is one that has just begun at time `now`: a new bag
    /// whose first kind is the active piece, the cursor at 1, nothing landed,
    /// no score, not lost.
    pub open spec fn is_new(&self, now: u64) -> bool {
        &&& self.wf()
        &&& fresh_bag(self.slots())
        &&& self.slots()[0] != PieceEnum::Empty
        &&& self.cursor() == 1
        &&& self.inplay.is_spawn_of(self.slots()[0])
        &&& self.playfield@.len() == 0
        &&& self.score == 0
        &&& !self.lost
        &&& self.timer == now
    }

    /// Whether this game is `before` after its active piece was locked and
    /// the next one dealt: the piece is the last of the landed ones, the
    /// cursor has passed the slot that was dealt, and where the bag was used
    /// up a new one, begun with the old slot 7, has taken its place.
    pub open spec fn dealt_from(&self, before: &Game) -> bool {
        &&& self.playfield@ == before.playfield@.push(before.inplay)
        &&& self.walls() == before.walls()
        &&& self.score == before.score
        &&& self.lost == before.lost
        &&& self.timer == before.timer
        &&& before.cursor() < 7 ==> self.slots() == before.slots() && self.cursor()
            == before.cursor() + 1
        &&& before.cursor() >= 7 ==> fresh_bag(self.slots()) && self.slots()[0]
            == before.slots()[7] && self.cursor() == 2
        &&& self.inplay.is_spawn_of(self.slots()[self.cursor() - 1])
    }

    /// Whether this game is `before` after a push by `step`: unchanged where
    /// one of the moved cells is in the frame or in a landed piece, and else
    /// with every cell of the active piece and its pivot moved by `step`.
    pub open spec fn moved_from(&self, before: &Game, step: (int, int)) -> bool {
        let target = shift_all(before.inplay.cells(), step);
        if any_blocked(before.field(), target) {
            *self == *before
        } else {
            &&& self.same_but_active(before)
            &&& self.inplay.cells() == target
            &&& self.inplay.pivot() == shifted(before.inplay.pivot(), step)
        }
    }

    /// Whether this game is `before` after a turn: unchanged where one of
    /// the turned cells is in the frame or in a landed piece, and else with
    /// every cell of the active piece turned about the pivot, which stays.
    pub open spec fn turned_from(&self, before: &Game) -> bool {
        let target = turn_all(before.inplay.cells(), before.inplay.pivot());
        if any_blocked(before.field(), target) {
            *self == *before
        } else {
            &&& self.same_but_active(before)
            &&& self.inplay.cells() == target
            &&& self.inplay.pivot() == before.inplay.pivot()
        }
    }

    /// Whether this game is `before` after the active piece fell `rows`
    /// rows: each of those steps was free, and the next one is not.
    pub open spec fn dropped_from(&self, before: &Game, rows: int) -> bool {
        &&& rows >= 0
        &&& self.same_but_active(before)
        &&& self.inplay.cells() == shift_all(before.inplay.cells(), (0, rows))
        &&& self.inplay.pivot() == shifted(before.inplay.pivot(), (0, rows))
        &&& forall|k: int|
            1 <= k <= rows ==> !any_blocked(
                before.field(),
                #[trigger] shift_all(before.inplay.cells(), (0, k)),
            )
        &&& any_blocked(before.field(), shift_all(before.inplay.cells(), (0, rows + 1)))
    }

    /// Whether this game is `before` after the active kind was banked: the
    /// slots are those of `held`, over the old slots or, where the bag was
    /// used up, over a new bag begun with the old slot 7; the active piece
    /// is the kind in the slot before the cursor, fresh at the top.
    pub open spec fn held_from(&self, before: &Game) -> bool {
        &&& before.cursor() < 7 ==> self.cursor() == before.cursor() && self.slots() == held(
            before.slots(),
            before.cursor(),
            before.inplay.piece_enum,
        )
        &&& before.cursor() >= 7 ==> self.cursor() == 1 && exists|fresh: Seq<PieceEnum>|
            #![trigger fresh_bag(fresh)]
            fresh_bag(fresh) && fresh[0] == before.slots()[7] && self.slots() == held(
                fresh,
                1,
                before.inplay.piece_enum,
            )
        &&& self.inplay.is_spawn_of(self.slots()[self.cursor() - 1])
        &&& self.playfield@ == before.playfield@
        &&& self.walls() == before.walls()
        &&& self.score == before.score
        &&& self.lost == before.lost
        &&& self.timer == before.timer
    }

    /// Whether this game is `before` after the loss check and one pass of
    /// line clearing.
    pub open spec fn settled_from(&self, before: &Game) -> bool {
        let judged = Game { lost: before.lost || above_top(before.field()), ..*before };
        &&& self.same_but_field(&judged)
        &&& self.field() == cleared_from(before.field(), before.field(), -4)
        &&& self.score == before.score + LINE_BONUS * full_rows_from(before.field(), -4)
    }

    /// Whether gravity is due at time `now`: the game is not lost, and more
    /// than `GRAVITY_INTERVAL` has passed since the last pull.
    pub open spec fn gravity_due(&self, now: u64) -> bool {
        !self.lost && now - self.timer > GRAVITY_INTERVAL
    }

    /// Whether this game is `before` after gravity was given its turn at
    /// time `now`. Where it was not due, nothing changed. Where it was, the
    /// timer is `now` and the active piece has moved one row down, or, where
    /// that step was refused, has been locked, the next piece dealt, the
    /// loss flag set if need be, and the full rows cleared.
    pub open spec fn ticked_from(&self, before: &Game, now: u64) -> bool {
        if !before.gravity_due(now) {
            *self == *before
        } else {
            let back = Game { timer: before.timer, ..*self };
            &&& self.timer == now
            &&& if any_blocked(before.field(), shift_all(before.inplay.cells(), (0, 1))) {
                exists|mid: Game| #[trigger] mid.dealt_from(before) && back.settled_from(&mid)
            } else {
                back.moved_from(before, (0, 1))
            }
        }
    }

    /// Whether this game is `before` after the request `intent` was served
    /// at time `now`. A lost game answers to nothing but `Restart`, which
    /// begins a new game; a game that is not lost ignores `Restart`. `Quit`
    /// changes no game.
    pub open spec fn served_from(&self, before: &Game, intent: Intent, now: u64) -> bool {
        match intent {
            Intent::Restart => if before.lost {
                self.is_new(now)
            } else {
                *self == *before
            },
            Intent::Quit => *self == *before,
            _ => if before.lost {
                *self == *before
            } else {
                match intent {
                    Intent::MoveLeft => self.moved_from(before, (-1, 0)),
                    Intent::MoveRight => self.moved_from(before, (1, 0)),
                    Intent::MoveDown => self.moved_from(before, (0, 1)),
                    Intent::HardDrop => exists|rows: int| #[trigger]
                        self.dropped_from(before, rows),
                    Intent::Rotate => self.turned_from(before),
                    _ => self.held_from(before),
                }
            },
        }
    }

    /// A game that begins at time `now` with the given bag: its first kind is
    /// the active piece, and the cursor stands at 1.
    pub fn from_bag(bag: [PieceEnum; 8], now: u64) -> (game: Self)
        requires
            fresh_bag(bag@),
            bag@[0] != PieceEnum::Empty,
        ensures
            game.is_new(now),
            game.slots() == bag@,
    {
        let border = build_border();
        let inplay = Piece::new(&bag[0]);
        proof {
            lemma_spawn_is_sound(inplay, bag@[0]);
        }
        Self {
            inplay: inplay,
            playfield: Vec::new(),
            border: border,
            score: 0,
            bag: bag,
            bag_i: 1,
            lost: false,
            timer: now,
        }
    }

    /// A game that begins at time `now`, with a newly drawn bag.
    pub fn new_game(now: u64) -> (game: Self)
        ensures
            game.is_new(now),
    {
        let bag = PieceEnum::generate_bag(None);
        Self::from_bag(bag, now)
    }

    /// The kind that is dealt next. Where the bag is used up, a new bag takes
    /// its place first: it begins with the old slot 7, the cursor goes back
    /// to 1, and the kind named is its slot 1.
    pub fn next_piece(&mut self) -> (next: PieceEnum)
        requires
            old(self).wf(),
        ensures
            final(self).wf(),
            final(self).same_but_supply(old(self)),
            next == final(self).slots()[final(self).cursor()],
            old(self).cursor() < 7 ==> *final(self) == *old(self),
            old(self).cursor() >= 7 ==> {
                &&& fresh_bag(final(self).slots())
                &&& final(self).slots()[0] == old(self).slots()[7]
                &&& final(self).cursor() == 1
            },
    {
        if self.bag_i >= 7 {
            self.bag = PieceEnum::generate_bag(Some(self.bag[7]));
            self.bag_i = 1;
            assert(self.walls() =~= old(self).walls());
        }
        self.bag[self.bag_i]
    }

    /// Locks the active piece among the landed ones and deals the next kind
    /// as the new active piece.
    pub fn place_piece(self) -> (game: Self)
        requires
            self.wf(),
        ensures
            game.wf(),
            game.dealt_from(&self),
    {
        let mut game = self;
        let next_piece = game.next_piece();
        let piece = Piece::new(&next_piece);
        proof {
            lemma_spawn_is_sound(piece, next_piece);
        }
        let inplay = game.inplay;
        game.playfield.push(inplay);
        game.inplay = piece;
        game.bag_i += 1;
        assert(game.walls() =~= self.walls());
        game
    }

    /// Banks the active kind in place of the kind at the cursor, which
    /// becomes the active piece, fresh at the top of the grid. The cursor
    /// must stand before slot 7.
    pub fn swap_with_next(self) -> (game: Self)
        requires
            self.wf(),
            self.cursor() < 7,
        ensures
            game.wf(),
            game.slots() == held(self.slots(), self.cursor(), self.inplay.piece_enum),
            game.cursor() == self.cursor(),
            game.inplay.is_spawn_of(game.slots()[game.cursor() - 1]),
            game.inplay.piece_enum == self.slots()[self.cursor()],
            game.playfield@ == self.playfield@,
            game.walls() == self.walls(),
            game.score == self.score,
            game.lost == self.lost,
            game.timer == self.timer,
    {
        let mut game = self;
        let current_piece = game.inplay.piece_enum;
        let next_piece = game.bag[game.bag_i];

        game.bag[game.bag_i - 1] = next_piece;
        game.bag[game.bag_i] = current_piece;

        if game.bag_i == 1 {
            let ghost swapped = game.bag@;
            let mut i: usize = 2;
            while i <= 6
                invariant
                    2 <= i <= 7,
                    game.bag@ == swapped,
                    forall|j: int| 2 <= j < i ==> #[trigger] swapped[j] != swapped[1],
                ensures
                    i <= 6 ==> swapped[i as int] == swapped[1],
                decreases 7 - i,
            {
                if game.bag[i] == game.bag[1] {
                    break;
                }
                i += 1;
            }
            if i <= 6 {
                assert(first_duplicate(swapped) == i);
                game.bag[i] = PieceEnum::Empty;
                let window = vstd::slice::slice_subrange(game.bag.as_slice(), 1, 7);
                proof {
                    lemma_some_kind_is_open(window@);
                }
                let open = window.find_open();
                let set_piece = open[0];
                assert(forall|j: int| 0 <= j < 6 ==> window@[j] == game.bag@[j + 1]);
                assert(forall|j: int| 1 <= j <= 6 ==> window@.contains(game.bag@[j])) by {
                    assert(forall|j: int| 1 <= j <= 6 ==> window@[j - 1] == game.bag@[j]);
                }
                game.bag[i] = set_piece;
            } else {
                assert(first_duplicate(swapped) == 0);
            }
        }
        let piece = Piece::new(&game.bag[game.bag_i - 1]);
        proof {
            lemma_spawn_is_sound(piece, game.bag@[game.bag_i - 1]);
        }
        game.inplay = piece;
        assert(game.walls() =~= self.walls());
        game
    }

    /// Banks the active kind and makes the kind that was to be dealt next
    /// the active piece. Where the bag is used up, a new bag takes its place
    /// first, as in `next_piece`.
    pub fn hold_piece(self) -> (game: Self)
        requires
            self.wf(),
        ensures
            game.wf(),
            game.held_from(&self),
            game.cursor() == 1 ==> window_distinct(game.slots()),
    {
        let mut game = self;
        let _ = game.next_piece();
        game.swap_with_next()
    }

    /// Whether a landed piece holds the cell at `location`.
    fn landed_at(&self, location: (i32, i32)) -> (hit: bool)
        ensures
            hit == field_has(self.field(), (location.0 as int, location.1 as int)),
    {
        let ghost cell = (location.0 as int, location.1 as int);
        let mut i: usize = 0;
        while i < self.playfield.len()
            invariant
                0 <= i <= self.playfield.len(),
                cell == (location.0 as int, location.1 as int),
                forall|p: int, q: int|
                    0 <= p < i && 0 <= q < self.field()[p].len() ==> self.field()[p][q] != cell,
            decreases self.playfield.len() - i,
        {
            let mut j: usize = 0;
            while j < self.playfield[i].shape.len()
                invariant
                    0 <= i < self.playfield.len(),
                    0 <= j <= self.playfield[i as int].shape.len(),
                    cell == (location.0 as int, location.1 as int),
                    forall|q: int| 0 <= q < j ==> self.field()[i as int][q] != cell,
                decreases self.playfield[i as int].shape.len() - j,
            {
                let block = self.playfield[i].shape[j];
                if block.location.0 == location.0 && block.location.1 == location.1 {
                    assert(self.field()[i as int][j as int] == cell);
                    return true;
                }
                j += 1;
            }
            i += 1;
        }
        false
    }

    /// Whether the frame holds the cell at `location`.
    fn in_border(&self, location: (i32, i32)) -> (hit: bool)
        ensures
            hit == self.walls().contains((location.0 as int, location.1 as int)),
    {
        let ghost cell = (location.0 as int, location.1 as int);
        let mut b: usize = 0;
        while b < self.border.len()
            invariant
                0 <= b <= self.border.len(),
                cell == (location.0 as int, location.1 as int),
                forall|q: int| 0 <= q < b ==> self.walls()[q] != cell,
            decreases self.border.len() - b,
        {
            let block = self.border[b];
            if block.location.0 == location.0 && block.location.1 == location.1 {
                assert(self.walls()[b as int] == cell);
                return true;
            }
            b += 1;
        }
        false
    }

    /// Whether the frame or a landed piece holds the cell at `location`.
    fn occupied(&self, location: (i32, i32)) -> (hit: bool)
        ensures
            hit == (self.walls().contains((location.0 as int, location.1 as int)) || field_has(
                self.field(),
                (location.0 as int, location.1 as int),
            )),
    {
        self.landed_at(location) || self.in_border(location)
    }

    /// Whether the border is the frame of the grid, no more and no less.
    fn frame_is_sound(&self) -> (ok: bool)
        ensures
            ok == forall|cell: (int, int)| #[trigger]
                self.walls().contains(cell) <==> is_wall(cell),
    {
        let mut b: usize = 0;
        while b < self.border.len()
            invariant
                0 <= b <= self.border.len(),
                forall|q: int| 0 <= q < b ==> is_wall(#[trigger] self.walls()[q]),
            decreases self.border.len() - b,
        {
            if !in_frame(self.border[b].location) {
                assert(self.walls().contains(self.walls()[b as int]));
                return false;
            }
            b += 1;
        }
        let mut y: i32 = -4;
        while y <= 19
            invariant
                -4 <= y <= 20,
                forall|row: int|
                    -4 <= row < y ==> #[trigger] self.walls().contains((-1, row))
                        && self.walls().contains((10, row)),
            decreases 20 - y,
        {
            if !self.in_border((-1, y)) || !self.in_border((10, y)) {
                assert(is_wall((-1, y as int)) && is_wall((10, y as int)));
                return false;
            }
            y += 1;
        }
        let mut x: i32 = 0;
        while x <= 9
            invariant
                0 <= x <= 10,
                forall|col: int| 0 <= col < x ==> #[trigger] self.walls().contains((col, 20)),
            decreases 10 - x,
        {
            if !self.in_border((x, 20)) {
                assert(is_wall((x as int, 20)));
                return false;
            }
            x += 1;
        }
        assert forall|cell: (int, int)| #[trigger] self.walls().contains(cell) <==> is_wall(
            cell,
        ) by {
            if is_wall(cell) {
                if cell.1 == 20 {
                    assert(self.walls().contains((cell.0, 20)));
                } else {
                    assert(self.walls().contains((-1, cell.1)) && self.walls().contains(
                        (10, cell.1),
                    ));
                }
            }
        }
        true
    }

    /// Whether the supply is in order.
    fn supply_is_sound(&self) -> (ok: bool)
        ensures
            ok == supply_wf(self.slots(), self.cursor(), self.inplay.piece_enum),
    {
        if self.bag_i < 1 || self.bag_i > 7 {
            return false;
        }
        let mut i: usize = 0;
        while i < 8
            invariant
                0 <= i <= 8,
                forall|p: int| 0 <= p < i ==> self.slots()[p] != PieceEnum::Empty,
                forall|p: int, q: int| 1 <= p < q <= 6 && p < i ==> self.slots()[p] != self.slots()[q],
            decreases 8 - i,
        {
            if self.bag[i] == PieceEnum::Empty {
                return false;
            }
            if 1 <= i && i <= 5 {
                let mut j: usize = i + 1;
                while j <= 6
                    invariant
                        1 <= i <= 5,
                        i < j <= 7,
                        forall|q: int| i < q < j ==> self.slots()[i as int] != self.slots()[q],
                    decreases 7 - j,
                {
                    if self.bag[i] == self.bag[j] {
                        return false;
                    }
                    j += 1;
                }
            }
            i += 1;
        }
        self.bag_i < 2 || self.bag[self.bag_i - 1] == self.inplay.piece_enum
    }

    /// Whether the game is in a state that the rules can work on: what
    /// `wf` asks, tested.
    pub fn is_well_formed(&self) -> (ok: bool)
        ensures
            ok == self.wf(),
    {
        self.frame_is_sound() && active_is_sound(&self.inplay) && self.supply_is_sound()
    }

    /// Turns the active piece a quarter turn about its pivot, if none of the
    /// turned cells is in the frame or in a landed piece; else leaves the
    /// game as it is. The pivot stays where it is either way.
    pub fn rotate_piece(&mut self)
        requires
            old(self).wf(),
        ensures
            final(self).wf(),
            final(self).turned_from(old(self)),
            final(self).inplay.pivot() == old(self).inplay.pivot(),
            final(self).lost == old(self).lost,
    {
        let center = self.inplay.center;
        let mut new_shape: Vec<Block> = Vec::new();
        let ghost cells = self.inplay.cells();
        let ghost pivot = self.inplay.pivot();
        let ghost target = turn_all(cells, pivot);

        let mut collision = false;
        let mut k: usize = 0;
        while k < 4
            invariant
                0 <= k <= 4,
                self.wf(),
                *self == *old(self),
                center == self.inplay.center,
                cells == self.inplay.cells(),
                pivot == self.inplay.pivot(),
                target == turn_all(cells, pivot),
                new_shape@.len() == k,
                forall|q: int| 0 <= q < k ==> (#[trigger] new_shape@[q]).cell() == target[q],
                collision == exists|q: int| 0 <= q < k && self.blocked(#[trigger] target[q]),
            decreases 4 - k,
        {
            let block = self.inplay.shape[k];
            assert(block.cell() == cells[k as int]);
            let (old_x, old_y) = block.location;
            let result = (center.0 - (old_y - center.1), center.1 + (old_x - center.0));
            assert((result.0 as int, result.1 as int) == target[k as int]);
            if self.occupied(result) {
                collision = true;
            }
            new_shape.push(Block::new(result));
            k += 1;
        }
        assert(collision == any_blocked(self.field(), target));

        if !collision {
            self.inplay.shape = new_shape;
            proof {
                assert(self.inplay.cells() =~= target);
                assert(self.walls() =~= old(self).walls());
                assert forall|q: int| 0 <= q < 4 implies {
                    let cell = #[trigger] self.inplay.cells()[q];
                    &&& -2 <= cell.0 - pivot.0 <= 2
                    &&& -2 <= cell.1 - pivot.1 <= 2
                    &&& !is_wall(cell)
                } by {
                    assert(!old(self).blocked(target[q]));
                    assert(target[q] == turned(cells[q], pivot));
                }
                assert(target[0] == turned(cells[0], pivot));
            }
        }
    }

    /// Moves the active piece one step, if none of the moved cells is in the
    /// frame or in a landed piece; else leaves the game as it is. Returns
    /// whether the move was refused.
    pub fn move_piece(&mut self, direction: MoveDirection) -> (collision: bool)
        requires
            old(self).wf(),
        ensures
            final(self).wf(),
            collision == any_blocked(
                old(self).field(),
                shift_all(old(self).inplay.cells(), direction.vector()),
            ),
            final(self).moved_from(old(self), direction.vector()),
            final(self).lost == old(self).lost,
    {
        let move_vector: (i32, i32) = match direction {
            MoveDirection::Left => (-1, 0),
            MoveDirection::Right => (1, 0),
            MoveDirection::Down => (0, 1),
        };
        let mut new_shape: Vec<Block> = Vec::new();
        let new_center = (
            self.inplay.center.0 + move_vector.0,
            self.inplay.center.1 + move_vector.1,
        );
        let ghost cells = self.inplay.cells();
        let ghost target = shift_all(cells, direction.vector());

        let mut collision = false;
        let mut k: usize = 0;
        while k < 4
            invariant
                0 <= k <= 4,
                self.wf(),
                *self == *old(self),
                cells == self.inplay.cells(),
                target == shift_all(cells, direction.vector()),
                direction.vector() == (move_vector.0 as int, move_vector.1 as int),
                -1 <= move_vector.0 <= 1,
                0 <= move_vector.1 <= 1,
                new_shape@.len() == k,
                forall|q: int| 0 <= q < k ==> (#[trigger] new_shape@[q]).cell() == target[q],
                collision == exists|q: int| 0 <= q < k && self.blocked(#[trigger] target[q]),
            decreases 4 - k,
        {
            let block = self.inplay.shape[k];
            assert(block.cell() == cells[k as int]);
            let new_location = (
                block.location.0 + move_vector.0,
                block.location.1 + move_vector.1,
            );
            assert((new_location.0 as int, new_location.1 as int) == target[k as int]);
            if self.occupied(new_location) {
                collision = true;
            }
            new_shape.push(Block::new(new_location));
            k += 1;
        }
        assert(collision == any_blocked(self.field(), target));

        if !collision {
            self.inplay.shape = new_shape;
            self.inplay.center = new_center;
            proof {
                let step = direction.vector();
                let pivot = old(self).inplay.pivot();
                assert(self.inplay.cells() =~= target);
                assert(self.walls() =~= old(self).walls());
                assert(self.inplay.pivot() == shifted(pivot, step));
                assert forall|q: int| 0 <= q < 4 implies {
                    let cell = #[trigger] self.inplay.cells()[q];
                    &&& -2 <= cell.0 - self.inplay.pivot().0 <= 2
                    &&& -2 <= cell.1 - self.inplay.pivot().1 <= 2
                    &&& !is_wall(cell)
                } by {
                    assert(!old(self).blocked(target[q]));
                    assert(target[q] == shifted(cells[q], step));
                }
                assert(target[0] == shifted(cells[0], step));
                assert(!old(self).blocked(target[0]));
            }
        }
        collision
    }

    /// Lets the active piece fall until the next step down is refused.
    /// Returns how many rows it fell.
    pub fn hard_drop(&mut self) -> (rows: u32)
        requires
            old(self).wf(),
        ensures
            final(self).wf(),
            final(self).dropped_from(old(self), rows as int),
            final(self).lost == old(self).lost,
    {
        let mut rows: u32 = 0;
        let ghost cells = self.inplay.cells();
        assert(self.inplay.cells() =~= shift_all(cells, (0, 0)));
        loop
            invariant
                self.wf(),
                old(self).wf(),
                cells == old(self).inplay.cells(),
                self.same_but_active(old(self)),
                self.inplay.cells() == shift_all(cells, (0, rows as int)),
                self.inplay.pivot() == shifted(old(self).inplay.pivot(), (0, rows as int)),
                forall|k: int|
                    1 <= k <= rows ==> !any_blocked(
                        old(self).field(),
                        #[trigger] shift_all(cells, (0, k)),
                    ),
            ensures
                any_blocked(old(self).field(), shift_all(cells, (0, rows + 1))),
            decreases 19 - self.inplay.center.1,
        {
            assert(shift_all(self.inplay.cells(), (0, 1)) =~= shift_all(cells, (0, rows + 1)));
            let collision = self.move_piece(MoveDirection::Down);
            if collision {
                break;
            }
            rows += 1;
        }
        rows
    }

    /// Gives gravity its turn at time `now`, in milliseconds. Where the
    /// game is lost, or no more than `GRAVITY_INTERVAL` has passed since the
    /// last pull, nothing happens. Else the active piece moves one row down;
    /// where that is refused it is locked, the next piece is dealt, the loss
    /// flag is set if a landed cell lies above row 0, and the full rows are
    /// cleared. Then the timer is set to `now`.
    pub fn gravity_tick(self, now: u64) -> (game: Self)
        requires
            self.wf(),
            self.score + 24 * LINE_BONUS <= u32::MAX,
        ensures
            game.wf(),
            game.ticked_from(&self, now),
            self.lost ==> game.lost,
    {
        let mut game = self;
        if now > game.timer && now - game.timer > GRAVITY_INTERVAL && !game.lost {
            let collision = game.move_piece(MoveDirection::Down);
            if collision {
                game = game.place_piece();
                let ghost mid = game;
                proof {
                    lemma_full_rows_bound(mid.field(), -4);
                }
                game.check_lose();
                let ghost judged = game;
                game.check_line();
                assert(game.walls() =~= mid.walls());
                game.timer = now;
                assert(game.walls() =~= mid.walls());
                proof {
                    let back = Game { timer: self.timer, ..game };
                    assert(back.walls() =~= mid.walls());
                    assert(back.field() =~= game.field());
                    assert(judged.field() =~= mid.field());
                    assert(judged.walls() =~= mid.walls());
                    assert(mid.dealt_from(&self) && back.settled_from(&mid));
                }
            } else {
                let ghost moved = game;
                game.timer = now;
                proof {
                    let back = Game { timer: self.timer, ..game };
                    assert(back.walls() =~= moved.walls());
                    assert(back == moved);
                    assert(game.walls() =~= moved.walls());
                }
            }
        }
        game
    }

    /// Serves one request of the player at time `now`, in milliseconds.
    pub fn apply(self, intent: Intent, now: u64) -> (game: Self)
        requires
            self.wf(),
        ensures
            game.wf(),
            game.served_from(&self, intent, now),
            self.lost && !(intent is Restart) ==> game.lost,
    {
        let mut game = self;
        match intent {
            Intent::Restart => {
                if game.lost {
                    game = Game::new_game(now);
                }
            },
            Intent::Quit => {},
            Intent::MoveLeft => {
                if !game.lost {
                    game.move_piece(MoveDirection::Left);
                }
            },
            Intent::MoveRight => {
                if !game.lost {
                    game.move_piece(MoveDirection::Right);
                }
            },
            Intent::MoveDown => {
                if !game.lost {
                    game.move_piece(MoveDirection::Down);
                }
            },
            Intent::HardDrop => {
                if !game.lost {
                    let rows = game.hard_drop();
                    assert(game.dropped_from(&self, rows as int));
                }
            },
            Intent::Rotate => {
                if !game.lost {
                    game.rotate_piece();
                }
            },
            Intent::Hold => {
                if !game.lost {
                    game = game.hold_piece();
                }
            },
        }
        game
    }

    /// Sets the loss flag if a landed cell lies above row 0. The flag is
    /// never taken back.
    pub fn check_lose(&mut self)
        ensures
            *final(self) == (Game {
                lost: old(self).lost || above_top(old(self).field()),
                ..*old(self)
            }),
    {
        let mut i: usize = 0;
        while i < self.playfield.len()
            invariant
                0 <= i <= self.playfield.len(),
                *self == *old(self),
                forall|p: int, q: int|
                    0 <= p < i && 0 <= q < self.field()[p].len() ==> self.field()[p][q].1 >= 0,
            decreases self.playfield.len() - i,
        {
            let mut j: usize = 0;
            while j < self.playfield[i].shape.len()
                invariant
                    0 <= i < self.playfield.len(),
                    0 <= j <= self.playfield[i as int].shape.len(),
                    *self == *old(self),
                    forall|q: int| 0 <= q < j ==> self.field()[i as int][q].1 >= 0,
                decreases self.playfield[i as int].shape.len() - j,
            {
                if self.playfield[i].shape[j].location.1 < 0 {
                    assert(self.field()[i as int][j as int].1 < 0);
                    self.lost = true;
                    return ;
                }
                j += 1;
            }
            i += 1;
        }
    }

    /// Moves every landed cell in row `if_above` or above it one row down.
    pub fn move_board_down(&mut self, if_above: i32)
        requires
            if_above < i32::MAX,
        ensures
            final(self).field() == lower_field(old(self).field(), if_above as int),
            final(self).same_but_field(old(self)),
            final(self).score == old(self).score,
    {
        let mut i: usize = 0;
        while i < self.playfield.len()
            invariant
                0 <= i <= self.playfield.len(),
                if_above < i32::MAX,
                self.same_but_field(old(self)),
                self.score == old(self).score,
                forall|p: int|
                    0 <= p < i ==> (#[trigger] self.playfield@[p]).cells() == lower_cells(
                        old(self).playfield@[p].cells(),
                        if_above as int,
                    ),
                forall|p: int|
                    i <= p < self.playfield.len() ==> #[trigger] self.playfield@[p] == old(
                        self,
                    ).playfield@[p],
            decreases self.playfield.len() - i,
        {
            lower_blocks(&mut self.playfield[i].shape, if_above);
            assert(self.walls() =~= old(self).walls());
            i += 1;
        }
        assert(self.field() =~= lower_field(old(self).field(), if_above as int));
    }

    /// Takes every landed cell in row `line` away.
    pub fn remove_line(&mut self, line: i32)
        ensures
            final(self).field() == strip_field(old(self).field(), line as int),
            final(self).same_but_field(old(self)),
            final(self).score == old(self).score,
    {
        let mut i: usize = 0;
        while i < self.playfield.len()
            invariant
                0 <= i <= self.playfield.len(),
                self.same_but_field(old(self)),
                self.score == old(self).score,
                forall|p: int|
                    0 <= p < i ==> (#[trigger] self.playfield@[p]).cells() == strip_cells(
                        old(self).playfield@[p].cells(),
                        line as int,
                    ),
                forall|p: int|
                    i <= p < self.playfield.len() ==> #[trigger] self.playfield@[p] == old(
                        self,
                    ).playfield@[p],
            decreases self.playfield.len() - i,
        {
            keep_off_row(&mut self.playfield[i].shape, line);
            assert(self.walls() =~= old(self).walls());
            i += 1;
        }
        assert(self.field() =~= strip_field(old(self).field(), line as int));
    }

    /// Whether all ten columns of `row` hold a landed cell.
    fn occupancy_row(&self, row: i32) -> (line: Vec<bool>)
        ensures
            line@.len() == 10,
            forall|col: int|
                0 <= col < 10 ==> line@[col] == field_has(self.field(), (col, row as int)),
    {
        let mut line: Vec<bool> = Vec::new();
        let mut col: i32 = 0;
        while col < 10
            invariant
                0 <= col <= 10,
                line@.len() == col,
                forall|c: int|
                    0 <= c < col ==> line@[c] == field_has(self.field(), (c, row as int)),
            decreases 10 - col,
        {
            let hit = self.landed_at((col, row));
            line.push(hit);
            col += 1;
        }
        line
    }

    /// One pass over the rows, from row -4 down to row 19. Which rows are
    /// full is read once, before the pass. Each full row is then cleared in
    /// turn: its cells are taken away, what lies above it moves one row
    /// down, and the score grows by `LINE_BONUS`.
    pub fn check_line(&mut self)
        requires
            old(self).score + LINE_BONUS * full_rows_from(old(self).field(), -4) <= u32::MAX,
        ensures
            final(self).field() == cleared_from(old(self).field(), old(self).field(), -4),
            final(self).score == old(self).score + LINE_BONUS * full_rows_from(
                old(self).field(),
                -4,
            ),
            final(self).same_but_field(old(self)),
    {
        let ghost snapshot = self.field();
        let mut piece_map: Vec<Vec<bool>> = Vec::new();
        let mut row: i32 = -4;
        while row <= 19
            invariant
                -4 <= row <= 20,
                *self == *old(self),
                snapshot == self.field(),
                piece_map@.len() == row + 4,
                forall|r: int|
                    0 <= r < row + 4 ==> (#[trigger] piece_map@[r])@.len() == 10 && forall|
                        col: int,
                    |
                        0 <= col < 10 ==> piece_map@[r]@[col] == field_has(
                            snapshot,
                            (col, r - 4),
                        ),
            decreases 20 - row,
        {
            let line = self.occupancy_row(row);
            piece_map.push(line);
            row += 1;
        }

        let mut cline: i32 = -4;
        let mut r: usize = 0;
        while r < 24
            invariant
                0 <= r <= 24,
                cline == r - 4,
                piece_map@.len() == 24,
                forall|a: int|
                    0 <= a < 24 ==> (#[trigger] piece_map@[a])@.len() == 10 && forall|col: int|
                        0 <= col < 10 ==> piece_map@[a]@[col] == field_has(
                            snapshot,
                            (col, a - 4),
                        ),
                snapshot == old(self).field(),
                self.same_but_field(old(self)),
                cleared_from(self.field(), snapshot, cline as int) == cleared_from(
                    snapshot,
                    snapshot,
                    -4,
                ),
                self.score + LINE_BONUS * full_rows_from(snapshot, cline as int) == old(
                    self,
                ).score + LINE_BONUS * full_rows_from(snapshot, -4),
                old(self).score + LINE_BONUS * full_rows_from(snapshot, -4) <= u32::MAX,
            decreases 24 - r,
        {
            let mut line_clear = true;
            let mut col: usize = 0;
            while col < 10
                invariant
                    0 <= col <= 10,
                    0 <= r < 24,
                    piece_map@.len() == 24,
                    piece_map@[r as int]@.len() == 10,
                    line_clear == forall|c: int| 0 <= c < col ==> piece_map@[r as int]@[c],
                decreases 10 - col,
            {
                if !piece_map[r][col] {
                    line_clear = false;
                }
                col += 1;
            }
            assert(line_clear == row_full(snapshot, cline as int)) by {
                if line_clear {
                    assert forall|c: int| 0 <= c <= 9 implies field_has(
                        snapshot,
                        (c, cline as int),
                    ) by {
                        assert(piece_map@[r as int]@[c]);
                    }
                } else {
                    let c = choose|c: int| 0 <= c < 10 && !piece_map@[r as int]@[c];
                    assert(!field_has(snapshot, (c, cline as int)));
                }
            }

            if line_clear {
                self.remove_line(cline);
                self.move_board_down(cline);
                self.score += LINE_BONUS;
            }
            cline += 1;
            r += 1;
        }
    }
}

/// Moves every block in row `if_above` or above it one row down.
fn lower_blocks(shape: &mut Vec<Block>, if_above: i32)
    requires
        if_above < i32::MAX,
    ensures
        block_cells(final(shape)@) == lower_cells(block_cells(old(shape)@), if_above as int),
{
    let mut j: usize = 0;
    while j < shape.len()
        invariant
            0 <= j <= shape.len(),
            if_above < i32::MAX,
            shape@.len() == old(shape)@.len(),
            forall|q: int|
                0 <= q < j ==> (#[trigger] shape@[q]).cell() == lowered(
                    old(shape)@[q].cell(),
                    if_above as int,
                ),
            forall|q: int| j <= q < shape.len() ==> #[trigger] shape@[q] == old(shape)@[q],
        decreases shape.len() - j,
    {
        let location = shape[j].location;
        if location.1 <= if_above {
            shape[j].location = (location.0, location.1 + 1);
        }
        j += 1;
    }
    assert(block_cells(shape@) =~= lower_cells(block_cells(old(shape)@), if_above as int));
}

/// Keeps the blocks that are not in row `line`, in their order.
fn keep_off_row(shape: &mut Vec<Block>, line: i32)
    ensures
        block_cells(final(shape)@) == strip_cells(block_cells(old(shape)@), line as int),
{
    let mut kept: Vec<Block> = Vec::new();
    let mut j: usize = 0;
    assert(block_cells(shape@.take(0)) =~= Seq::<(int, int)>::empty());
    assert(Seq::<(int, int)>::empty().filter(off_row(line as int)) =~= Seq::<(int, int)>::empty()) by {
        reveal(Seq::filter);
    }
    while j < shape.len()
        invariant
            0 <= j <= shape.len(),
            *shape == *old(shape),
            block_cells(kept@) == strip_cells(block_cells(shape@.take(j as int)), line as int),
        decreases shape.len() - j,
    {
        let block = shape[j];
        proof {
            let seen = block_cells(shape@.take(j as int));
            assert(block_cells(shape@.take(j + 1)) =~= seen.push(block.cell()));
            seen.lemma_filter_push(block.cell(), off_row(line as int));
            if block.location.1 != line {
                assert(block_cells(kept@.push(block)) =~= block_cells(kept@).push(block.cell()));
            }
        }
        if block.location.1 != line {
            kept.push(block);
        }
        j += 1;
    }
    assert(shape@.take(shape@.len() as int) =~= shape@);
    *shape = kept;
}

/// Whether the cell at `location` belongs to the frame of the grid.
fn in_frame(location: (i32, i32)) -> (hit: bool)
    ensures
        hit == is_wall((location.0 as int, location.1 as int)),
{
    ((location.0 == -1 || location.0 == 10) && -4 <= location.1 && location.1 <= 19) || (
    location.1 == 20 && 0 <= location.0 && location.0 <= 9)
}

/// Whether `piece` can be the active piece of a game.
fn active_is_sound(piece: &Piece) -> (ok: bool)
    ensures
        ok == active_wf(*piece),
{
    let center = piece.center;
    if piece.shape.len() != 4 || piece.piece_enum == PieceEnum::Empty {
        return false;
    }
    if center.0 < 0 || center.0 > 9 || center.1 < -3 || center.1 > 19 {
        return false;
    }
    if piece.shape[0].location.0 != center.0 || piece.shape[0].location.1 != center.1 {
        return false;
    }
    let mut k: usize = 0;
    while k < 4
        invariant
            0 <= k <= 4,
            piece.shape@.len() == 4,
            center == piece.center,
            0 <= center.0 <= 9,
            -3 <= center.1 <= 19,
            forall|q: int|
                0 <= q < k ==> {
                    let cell = #[trigger] piece.cells()[q];
                    &&& -2 <= cell.0 - piece.pivot().0 <= 2
                    &&& -2 <= cell.1 - piece.pivot().1 <= 2
                    &&& !is_wall(cell)
                },
        decreases 4 - k,
    {
        let location = piece.shape[k].location;
        assert(piece.cells()[k as int] == (location.0 as int, location.1 as int));
        if location.0 < -2 || location.0 > 11 || location.1 < -5 || location.1 > 21 {
            return false;
        }
        let dx = location.0 - center.0;
        let dy = location.1 - center.1;
        if dx < -2 || dx > 2 || dy < -2 || dy > 2 || in_frame(location) {
            return false;
        }
        k += 1;
    }
    true
}

} // verus!
