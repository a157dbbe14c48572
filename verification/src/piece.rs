use vstd::prelude::*;
use macroquad::color::Color;
use crate::block::{block_cells, Block};
use crate::rect::Rect;

verus! {

/// `macroquad::color::Color`, the colour type of the drawing framework. It
/// is carried through as it is: nothing in this library looks inside one.
#[verifier::external_type_specification]
#[verifier::external_body]
pub struct ExColor(macroquad::color::Color);

/// The colour that `Color::from_rgba` builds from four channels.
pub uninterp spec fn rgba_color(r: u8, g: u8, b: u8, a: u8) -> Color;

/// `Color::from_rgba` of macroquad divides each channel by 255: its result
/// is a function of the four channels alone. It is named `rgba_color`, and
/// nothing more is claimed of it.
pub assume_specification[ Color::from_rgba ](r: u8, g: u8, b: u8, a: u8) -> (color: Color)
    ensures
        color == rgba_color(r, g, b, a),
;

/// The seven kinds of piece, and `Empty` for a slot that holds none.
#[derive(Debug, PartialEq, Eq, Clone, Copy, Structural)]
pub enum PieceEnum {
    Empty,
    I,
    O,
    T,
    S,
    Z,
    J,
    L,
}

/// A piece on the grid: its cells, the cell it turns about, its colour and its kind.
#[derive(Debug)]
pub struct Piece {
    pub shape: Vec<Block>,
    pub center: (i32, i32),
    pub color: Color,
    pub piece_enum: PieceEnum,
}

/// The four cells that a piece of `kind` occupies when it enters the grid.
pub open spec fn spawn_cells(kind: PieceEnum) -> Seq<(int, int)> {
    match kind {
        PieceEnum::I => seq![(5int, -3int), (5int, -4int), (5int, -2int), (5int, -1int)],
        PieceEnum::O => seq![(4int, -2int), (4int, -1int), (5int, -2int), (5int, -1int)],
        PieceEnum::T => seq![(5int, -2int), (4int, -2int), (6int, -2int), (5int, -1int)],
        PieceEnum::S => seq![(5int, -1int), (4int, -1int), (5int, -2int), (6int, -2int)],
        PieceEnum::Z => seq![(5int, -1int), (4int, -2int), (5int, -2int), (6int, -1int)],
        PieceEnum::J => seq![(5int, -2int), (4int, -1int), (5int, -1int), (5int, -3int)],
        PieceEnum::L => seq![(4int, -2int), (4int, -3int), (4int, -1int), (5int, -1int)],
        PieceEnum::Empty => Seq::empty(),
    }
}

/// The cell that a piece of `kind` turns about when it enters the grid: its first cell.
pub open spec fn spawn_center(kind: PieceEnum) -> (int, int) {
    match kind {
        PieceEnum::I => (5, -3),
        PieceEnum::O => (4, -2),
        PieceEnum::T => (5, -2),
        PieceEnum::S => (5, -1),
        PieceEnum::Z => (5, -1),
        PieceEnum::J => (5, -2),
        PieceEnum::L => (4, -2),
        PieceEnum::Empty => (0, 0),
    }
}

/// The colour of a kind; black for the empty slot.
pub open spec fn kind_color(kind: PieceEnum) -> Color {
    match kind {
        PieceEnum::I => rgba_color(0, 255, 255, 255),
        PieceEnum::O => rgba_color(255, 255, 0, 255),
        PieceEnum::T => rgba_color(255, 0, 255, 255),
        PieceEnum::S => rgba_color(0, 255, 0, 255),
        PieceEnum::Z => rgba_color(255, 0, 0, 255),
        PieceEnum::J => rgba_color(0, 0, 255, 255),
        PieceEnum::L => rgba_color(255, 128, 0, 255),
        PieceEnum::Empty => rgba_color(0, 0, 0, 255),
    }
}

/// The rectangles that draw the preview of a kind, each as left, top, width, height.
pub open spec fn preview_rects(kind: PieceEnum) -> Seq<(u32, u32, u32, u32)> {
    match kind {
        PieceEnum::I => seq![(870u32, 730u32, 60u32, 240u32)],
        PieceEnum::O => seq![(840u32, 730u32, 120u32, 120u32)],
        PieceEnum::T => seq![(810u32, 730u32, 180u32, 60u32), (870u32, 790u32, 60u32, 60u32)],
        PieceEnum::S => seq![(870u32, 730u32, 120u32, 60u32), (810u32, 790u32, 120u32, 60u32)],
        PieceEnum::Z => seq![(810u32, 730u32, 120u32, 60u32), (870u32, 790u32, 120u32, 60u32)],
        PieceEnum::J => seq![(870u32, 730u32, 60u32, 180u32), (810u32, 850u32, 60u32, 60u32)],
        PieceEnum::L => seq![(870u32, 730u32, 60u32, 180u32), (930u32, 850u32, 60u32, 60u32)],
        PieceEnum::Empty => Seq::empty(),
    }
}

/// What a list of rectangles holds, each as left, top, width, height.
pub open spec fn rects_data(rects: Seq<Rect>) -> Seq<(u32, u32, u32, u32)> {
    rects.map_values(|r: Rect| r.data())
}

/// The seven kinds, in the order of the catalogue.
pub open spec fn all_kinds() -> Seq<PieceEnum> {
    seq![
        PieceEnum::I,
        PieceEnum::O,
        PieceEnum::T,
        PieceEnum::S,
        PieceEnum::Z,
        PieceEnum::J,
        PieceEnum::L,
    ]
}

/// The test "`slots` does not hold this kind".
pub open spec fn absent_from(slots: Seq<PieceEnum>) -> spec_fn(PieceEnum) -> bool {
    |kind: PieceEnum| !slots.contains(kind)
}

/// The kinds that `slots` does not hold, in the order of the catalogue.
pub open spec fn open_kinds(slots: Seq<PieceEnum>) -> Seq<PieceEnum> {
    all_kinds().filter(absent_from(slots))
}

/// What every newly made bag satisfies: eight slots, none of the last seven
/// empty, and no kind twice among the first seven.
pub open spec fn fresh_bag(bag: Seq<PieceEnum>) -> bool {
    &&& bag.len() == 8
    &&& forall|i: int| 1 <= i <= 7 ==> bag[i] != PieceEnum::Empty
    &&& forall|i: int, j: int| 0 <= i < j <= 6 ==> bag[i] != bag[j]
}

/// How often a kind is drawn for one slot before the first open kind is taken instead.
pub const DRAW_LIMIT: u32 = 1000;

/// `macroquad::rand::gen_range` on `i32`. It takes the next 32-bit output of
/// the global generator, divides it by 2^32 and scales it into the range,
/// all in double precision, and cuts off the fraction. For bounds of at most
/// sixteen bits that arithmetic is exact, so the result is at least `low`
/// and below `high`. Which number comes depends on the generator's state,
/// so nothing else is claimed.
#[verifier::external_body]
fn gen_range_i32(low: i32, high: i32) -> (r: i32)
    requires
        0 <= low < high <= 0x10000,
    ensures
        low <= r < high,
{
    macroquad::rand::gen_range(low, high)
}

/// Whether `slots` holds `kind`.
pub fn contains_kind(slots: &[PieceEnum], kind: PieceEnum) -> (found: bool)
    ensures
        found == slots@.contains(kind),
{
    let mut i: usize = 0;
    while i < slots.len()
        invariant
            0 <= i <= slots.len(),
            forall|j: int| 0 <= j < i ==> slots@[j] != kind,
        decreases slots.len() - i,
    {
        if slots[i] == kind {
            return true;
        }
        i += 1;
    }
    false
}

/// A collection of slots that can name the kinds it lacks.
pub trait FindOpen {
    /// The slots, in order.
    spec fn kinds(&self) -> Seq<PieceEnum>;

    /// The kinds that no slot holds, in the order of the catalogue.
    fn find_open(&self) -> (open: Vec<PieceEnum>)
        ensures
            open@ == open_kinds(self.kinds()),
    ;
}

impl FindOpen for &[PieceEnum] {
    open spec fn kinds(&self) -> Seq<PieceEnum> {
        self@
    }

    fn find_open(&self) -> (open: Vec<PieceEnum>) {
        let mut open: Vec<PieceEnum> = Vec::new();
        let mut i: i32 = 0;
        while i < 7
            invariant
                0 <= i <= 7,
                open@ == all_kinds().take(i as int).filter(absent_from(self@)),
            decreases 7 - i,
        {
            let kind = PieceEnum::from_index(i);
            proof {
                assert(all_kinds().take(i + 1) =~= all_kinds().take(i as int).push(kind));
                all_kinds().take(i as int).lemma_filter_push(kind, absent_from(self@));
            }
            if !contains_kind(self, kind) {
                open.push(kind);
            }
            i += 1;
        }
        assert(all_kinds().take(7) =~= all_kinds());
        open
    }
}

/// Where at most six slots hold a kind, some kind is open, and the first
/// open kind is a kind that no slot holds.
pub proof fn lemma_some_kind_is_open(slots: Seq<PieceEnum>)
    requires
        forall|j: int| 6 <= j < slots.len() ==> slots[j] == PieceEnum::Empty,
    ensures
        open_kinds(slots).len() > 0,
        open_kinds(slots)[0] != PieceEnum::Empty,
        !slots.contains(open_kinds(slots)[0]),
{
    let absent = absent_from(slots);
    let all = all_kinds();
    if forall|k: int| 0 <= k < 7 ==> slots.contains(#[trigger] all[k]) {
        assert(slots.contains(all[0]));
        assert(slots.contains(all[1]));
        assert(slots.contains(all[2]));
        assert(slots.contains(all[3]));
        assert(slots.contains(all[4]));
        assert(slots.contains(all[5]));
        assert(slots.contains(all[6]));
        let j0 = choose|j: int| 0 <= j < slots.len() && slots[j] == all[0];
        let j1 = choose|j: int| 0 <= j < slots.len() && slots[j] == all[1];
        let j2 = choose|j: int| 0 <= j < slots.len() && slots[j] == all[2];
        let j3 = choose|j: int| 0 <= j < slots.len() && slots[j] == all[3];
        let j4 = choose|j: int| 0 <= j < slots.len() && slots[j] == all[4];
        let j5 = choose|j: int| 0 <= j < slots.len() && slots[j] == all[5];
        let j6 = choose|j: int| 0 <= j < slots.len() && slots[j] == all[6];
        assert(j0 < 6 && j1 < 6 && j2 < 6 && j3 < 6);
        assert(j4 < 6 && j5 < 6 && j6 < 6);
        assert(false);
    }
    let k = choose|k: int| 0 <= k < 7 && !slots.contains(#[trigger] all[k]);
    assert(absent(all[k]));
    all.lemma_filter_contains(absent, k);
    let open = open_kinds(slots);
    assert(open.len() > 0);
    all.lemma_filter_pred(absent, 0);
    assert(absent(open[0]));
    all.lemma_filter_contains_rev(absent, open[0]);
    assert(all.contains(open[0]));
}

impl PieceEnum {
    /// The kind at a place of the catalogue, counted from zero.
    pub fn from_index(index: i32) -> (kind: Self)
        requires
            0 <= index < 7,
        ensures
            kind == all_kinds()[index as int],
    {
        if index == 0 {
            Self::I
        } else if index == 1 {
            Self::O
        } else if index == 2 {
            Self::T
        } else if index == 3 {
            Self::S
        } else if index == 4 {
            Self::Z
        } else if index == 5 {
            Self::J
        } else {
            Self::L
        }
    }

    /// One of the seven kinds, as the generator gives it.
    fn random_piece() -> (kind: Self)
        ensures
            kind != PieceEnum::Empty,
    {
        let random = gen_range_i32(0, 7);
        Self::from_index(random)
    }

    /// A drawn kind that `slots` does not hold yet. Kinds are drawn until one
    /// is new; after `DRAW_LIMIT` draws the first open kind is taken.
    fn draw_absent(slots: &[PieceEnum; 8]) -> (kind: Self)
        requires
            open_kinds(slots@).len() > 0,
            open_kinds(slots@)[0] != PieceEnum::Empty,
            !slots@.contains(open_kinds(slots@)[0]),
        ensures
            kind != PieceEnum::Empty,
            !slots@.contains(kind),
    {
        let mut draws: u32 = 0;
        while draws < DRAW_LIMIT
            invariant
                draws <= DRAW_LIMIT,
            decreases DRAW_LIMIT - draws,
        {
            let kind = Self::random_piece();
            if !contains_kind(slots.as_slice(), kind) {
                return kind;
            }
            draws += 1;
        }
        let window = slots.as_slice();
        let open = window.find_open();
        open[0]
    }

    /// A new bag of eight slots. Slot 0 is `first_piece`, or a drawn kind
    /// where none is given; slots 1 to 6 are drawn so that no kind stands
    /// twice among slots 0 to 6; slot 7 is drawn freely.
    pub fn generate_bag(first_piece: Option<Self>) -> (bag: [Self; 8])
        ensures
            fresh_bag(bag@),
            first_piece matches Some(kind) ==> bag@[0] == kind,
            first_piece is None ==> bag@[0] != PieceEnum::Empty,
    {
        let mut result = [PieceEnum::Empty; 8];
        let first_piece = match first_piece {
            Some(piece) => piece,
            None => Self::random_piece(),
        };
        result[0] = first_piece;

        let mut i: usize = 1;
        while i <= 6
            invariant
                1 <= i <= 7,
                result@[0] == first_piece,
                forall|j: int| 1 <= j < i ==> result@[j] != PieceEnum::Empty,
                forall|j: int, k: int| 0 <= j < k < i ==> result@[j] != result@[k],
                forall|j: int| i <= j < 8 ==> result@[j] == PieceEnum::Empty,
            decreases 7 - i,
        {
            proof {
                lemma_some_kind_is_open(result@);
            }
            let new_piece = Self::draw_absent(&result);
            result[i] = new_piece;
            i += 1;
        }
        result[7] = Self::random_piece();

        result
    }

    /// The preview of this kind: its rectangles and its colour. The empty
    /// slot has no rectangle.
    pub fn as_rects(&self) -> (preview: (Vec<Rect>, Color))
        ensures
            rects_data(preview.0@) == preview_rects(*self),
            preview.1 == kind_color(*self),
    {
        let preview = match self {
            Self::I => (vec![Rect::new(870, 730, 60, 240)], Color::from_rgba(0, 255, 255, 255)),
            Self::O => (vec![Rect::new(840, 730, 120, 120)], Color::from_rgba(255, 255, 0, 255)),
            Self::T => (
                vec![Rect::new(810, 730, 180, 60), Rect::new(870, 790, 60, 60)],
                Color::from_rgba(255, 0, 255, 255),
            ),
            Self::S => (
                vec![Rect::new(870, 730, 120, 60), Rect::new(810, 790, 120, 60)],
                Color::from_rgba(0, 255, 0, 255),
            ),
            Self::Z => (
                vec![Rect::new(810, 730, 120, 60), Rect::new(870, 790, 120, 60)],
                Color::from_rgba(255, 0, 0, 255),
            ),
            Self::J => (
                vec![Rect::new(870, 730, 60, 180), Rect::new(810, 850, 60, 60)],
                Color::from_rgba(0, 0, 255, 255),
            ),
            Self::L => (
                vec![Rect::new(870, 730, 60, 180), Rect::new(930, 850, 60, 60)],
                Color::from_rgba(255, 128, 0, 255),
            ),
            Self::Empty => (vec![], Color::from_rgba(0, 0, 0, 255)),
        };
        assert(rects_data(preview.0@) =~= preview_rects(*self));
        preview
    }
}

impl Piece {
    /// The cells of the piece as pairs of mathematical integers, in order.
    pub open spec fn cells(self) -> Seq<(int, int)> {
        block_cells(self.shape@)
    }

    /// The cell that the piece turns about.
    pub open spec fn pivot(self) -> (int, int) {
        (self.center.0 as int, self.center.1 as int)
    }

    /// Whether the piece is a piece of `kind` as it enters the grid.
    pub open spec fn is_spawn_of(self, kind: PieceEnum) -> bool {
        &&& self.cells() == spawn_cells(kind)
        &&& self.pivot() == spawn_center(kind)
        &&& self.color == kind_color(kind)
        &&& self.piece_enum == kind
    }

    /// A piece of the given kind where it enters the grid. There is no piece
    /// of the empty slot.
    pub fn new(piece_enum: &PieceEnum) -> (piece: Self)
        requires
            *piece_enum != PieceEnum::Empty,
        ensures
            piece.is_spawn_of(*piece_enum),
    {
        let piece = match piece_enum {
            PieceEnum::I => {
                let color = Color::from_rgba(0, 255, 255, 255);
                let blocks = vec![
                    Block::new((5, -3)),
                    Block::new((5, -4)),
                    Block::new((5, -2)),
                    Block::new((5, -1)),
                ];
                Self { shape: blocks, color: color, center: (5, -3), piece_enum: PieceEnum::I }
            },
            PieceEnum::O => {
                let color = Color::from_rgba(255, 255, 0, 255);
                let blocks = vec![
                    Block::new((4, -2)),
                    Block::new((4, -1)),
                    Block::new((5, -2)),
                    Block::new((5, -1)),
                ];
                Self { shape: blocks, color: color, center: (4, -2), piece_enum: PieceEnum::O }
            },
            PieceEnum::T => {
                let color = Color::from_rgba(255, 0, 255, 255);
                let blocks = vec![
                    Block::new((5, -2)),
                    Block::new((4, -2)),
                    Block::new((6, -2)),
                    Block::new((5, -1)),
                ];
                Self { shape: blocks, color: color, center: (5, -2), piece_enum: PieceEnum::T }
            },
            PieceEnum::S => {
                let color = Color::from_rgba(0, 255, 0, 255);
                let blocks = vec![
                    Block::new((5, -1)),
                    Block::new((4, -1)),
                    Block::new((5, -2)),
                    Block::new((6, -2)),
                ];
                Self { shape: blocks, color: color, center: (5, -1), piece_enum: PieceEnum::S }
            },
            PieceEnum::Z => {
                let color = Color::from_rgba(255, 0, 0, 255);
                let blocks = vec![
                    Block::new((5, -1)),
                    Block::new((4, -2)),
                    Block::new((5, -2)),
                    Block::new((6, -1)),
                ];
                Self { shape: blocks, color: color, center: (5, -1), piece_enum: PieceEnum::Z }
            },
            PieceEnum::J => {
                let color = Color::from_rgba(0, 0, 255, 255);
                let blocks = vec![
                    Block::new((5, -2)),
                    Block::new((4, -1)),
                    Block::new((5, -1)),
                    Block::new((5, -3)),
                ];
                Self { shape: blocks, color: color, center: (5, -2), piece_enum: PieceEnum::J }
            },
            PieceEnum::L => {
                let color = Color::from_rgba(255, 128, 0, 255);
                let blocks = vec![
                    Block::new((4, -2)),
                    Block::new((4, -3)),
                    Block::new((4, -1)),
                    Block::new((5, -1)),
                ];
                Self { shape: blocks, color: color, center: (4, -2), piece_enum: PieceEnum::L }
            },
            PieceEnum::Empty => {
                // the empty slot has no piece; the precondition excludes it
                Self { shape: Vec::new(), color: Color::from_rgba(0, 0, 0, 255), center: (0, 0), piece_enum: PieceEnum::Empty }
            },
        };
        assert(piece.cells() =~= spawn_cells(*piece_enum));
        piece
    }
}

} // verus!
