//! Matter identifiers and the packed cell word: the three highest bytes hold
//! the cell's colour, the lowest byte its matter identifier.

use rand::rngs::StdRng;
use rand::Rng;
use vstd::prelude::*;

use crate::rgba::{rgba_word, u32_rgba_to_u8_rgba, u8_rgba_to_u32_rgba};

verus! {

/// Colour of empty cells, as an RGBA word.
pub const EMPTY_COLOR: u32 = 0x0000_0000;

/// Base colour of sand, as an RGBA word.
pub const SAND_COLOR: u32 = 0xc2b2_80ff;

/// Base colour of wood, as an RGBA word.
pub const WOOD_COLOR: u32 = 0xba8c_63ff;

/// Largest offset, in channel steps, that placement adds to or takes from a
/// colour channel (a tenth of the channel range).
pub const JITTER: i32 = 25;

/// The cell word of an empty cell.
pub const EMPTY_CELL: u32 = 0;

/// Matter that the automaton simulates.
#[derive(Debug, Clone, Copy, PartialEq, Eq, Structural)]
pub enum MatterId {
    Empty,
    Sand,
    Wood,
}

/// The identifier byte of each matter.
pub open spec fn id_byte(m: MatterId) -> u8 {
    match m {
        MatterId::Empty => 0,
        MatterId::Sand => 1,
        MatterId::Wood => 2,
    }
}

/// The matter an identifier byte stands for; a byte that names no matter
/// reads as empty.
pub open spec fn matter_of_byte(b: u8) -> MatterId {
    if b == 1 {
        MatterId::Sand
    } else if b == 2 {
        MatterId::Wood
    } else {
        MatterId::Empty
    }
}

/// The matter held by a cell word: its lowest byte, decoded.
pub open spec fn matter_of(cell: u32) -> MatterId {
    matter_of_byte((cell % 0x100) as u8)
}

/// Whether a cell word holds no matter.
pub open spec fn is_empty(cell: u32) -> bool {
    matter_of(cell) == MatterId::Empty
}

/// The base colour of a matter, as an RGBA word.
pub open spec fn base_color(m: MatterId) -> u32 {
    match m {
        MatterId::Empty => EMPTY_COLOR,
        MatterId::Sand => SAND_COLOR,
        MatterId::Wood => WOOD_COLOR,
    }
}

/// A channel value moved into `0..=255`.
pub open spec fn clamp_channel(v: int) -> u8 {
    if v < 0 {
        0
    } else if v > 255 {
        255
    } else {
        v as u8
    }
}

/// Red, green and blue of a matter's base colour.
pub open spec fn base_red(m: MatterId) -> int {
    base_color(m) as int / 0x100_0000
}

pub open spec fn base_green(m: MatterId) -> int {
    (base_color(m) as int / 0x1_0000) % 0x100
}

pub open spec fn base_blue(m: MatterId) -> int {
    (base_color(m) as int / 0x100) % 0x100
}

/// The cell word that placing matter `m` gives when its channels are moved by
/// `dr`, `dg` and `db`: empty matter always gives the empty cell.
pub open spec fn encode(m: MatterId, dr: int, dg: int, db: int) -> u32 {
    if m == MatterId::Empty {
        EMPTY_CELL
    } else {
        rgba_word(
            clamp_channel(base_red(m) + dr),
            clamp_channel(base_green(m) + dg),
            clamp_channel(base_blue(m) + db),
            id_byte(m),
        )
    }
}

/// Whether `cell` is a word that placing `m` can give, with each channel
/// offset within `-JITTER..=JITTER`.
pub open spec fn is_placement_of(m: MatterId, cell: u32) -> bool {
    exists|dr: int, dg: int, db: int|
        -JITTER <= dr <= JITTER && -JITTER <= dg <= JITTER && -JITTER <= db <= JITTER && cell
            == #[trigger] encode(m, dr, dg, db)
}

/// The matter byte of an encoded word is the matter's own.
proof fn lemma_encode_low_byte(m: MatterId, dr: int, dg: int, db: int)
    ensures
        encode(m, dr, dg, db) % 0x100 == id_byte(m) as int,
{
    if m != MatterId::Empty {
        let r = clamp_channel(base_red(m) + dr);
        let g = clamp_channel(base_green(m) + dg);
        let b = clamp_channel(base_blue(m) + db);
        let q = r as int * 0x1_0000 + g as int * 0x100 + b as int;
        vstd::arithmetic::div_mod::lemma_fundamental_div_mod_converse(
            q * 0x100 + id_byte(m) as int,
            0x100,
            q,
            id_byte(m) as int,
        );
    }
}

/// Decoding what an encoding gave yields the encoded matter, whatever the
/// channel offsets.
pub proof fn lemma_decode_encode(m: MatterId, dr: int, dg: int, db: int)
    ensures
        matter_of(encode(m, dr, dg, db)) == m,
{
    lemma_encode_low_byte(m, dr, dg, db);
}

/// Encoding empty matter yields the one canonical empty cell, whatever the
/// channel offsets, and that cell decodes as empty.
pub proof fn lemma_empty_is_canonical(dr: int, dg: int, db: int)
    ensures
        encode(MatterId::Empty, dr, dg, db) == EMPTY_CELL,
        matter_of(encode(MatterId::Empty, dr, dg, db)) == MatterId::Empty,
{
}

/// Any word that placing `m` can give decodes as `m`; for empty matter it is
/// the canonical empty cell.
pub proof fn lemma_placement_decodes(m: MatterId, cell: u32)
    requires
        is_placement_of(m, cell),
    ensures
        matter_of(cell) == m,
        m == MatterId::Empty ==> cell == EMPTY_CELL,
{
    let (dr, dg, db) = choose|dr: int, dg: int, db: int|
        -JITTER <= dr <= JITTER && -JITTER <= dg <= JITTER && -JITTER <= db <= JITTER && cell
            == #[trigger] encode(m, dr, dg, db);
    lemma_decode_encode(m, dr, dg, db);
}

impl MatterId {
    /// The identifier byte of this matter.
    pub fn id(&self) -> (r: u8)
        ensures
            r == id_byte(*self),
    {
        match self {
            MatterId::Empty => 0,
            MatterId::Sand => 1,
            MatterId::Wood => 2,
        }
    }

    /// The base colour of this matter as `[r, g, b, a]`.
    pub fn color_rgba_u8(&self) -> (r: [u8; 4])
        ensures
            r[0] as int == base_red(*self),
            r[1] as int == base_green(*self),
            r[2] as int == base_blue(*self),
            r[3] as int == base_color(*self) as int % 0x100,
    {
        let color = match self {
            MatterId::Empty => EMPTY_COLOR,
            MatterId::Sand => SAND_COLOR,
            MatterId::Wood => WOOD_COLOR,
        };
        u32_rgba_to_u8_rgba(color)
    }
}

impl Default for MatterId {
    fn default() -> (r: Self)
        ensures
            r == MatterId::Empty,
    {
        MatterId::Empty
    }
}

impl From<u8> for MatterId {
    /// Decodes an identifier byte; a byte that names no matter gives `Empty`.
    fn from(item: u8) -> (r: Self)
        ensures
            r == matter_of_byte(item),
    {
        if item == 1 {
            MatterId::Sand
        } else if item == 2 {
            MatterId::Wood
        } else {
            MatterId::Empty
        }
    }
}

impl vstd::std_specs::convert::FromSpecImpl<u8> for MatterId {
    open spec fn obeys_from_spec() -> bool {
        true
    }

    open spec fn from_spec(v: u8) -> Self {
        matter_of_byte(v)
    }
}

#[verifier::external_type_specification]
#[verifier::external_body]
pub struct ExStdRng(StdRng);

/// Relies on rand's `Rng::gen_range` over an inclusive `i32` range: it returns
/// a value of the range, and panics only on an empty range.
#[verifier::external_body]
fn random_between(rng: &mut StdRng, lo: i32, hi: i32) -> (r: i32)
    requires
        lo <= hi,
    ensures
        lo <= r <= hi,
{
    rng.gen_range(lo..=hi)
}

/// A channel moved by an offset and kept within `0..=255`.
fn jitter_channel(base: u8, offset: i32) -> (r: u8)
    ensures
        r == clamp_channel(base as int + offset as int),
{
    let v: i64 = base as i64 + offset as i64;
    if v < 0 {
        0
    } else if v > 255 {
        255
    } else {
        v as u8
    }
}

/// A cell word: colour in the three highest bytes, matter identifier in the lowest.
#[derive(Clone, Copy)]
pub struct MatterWithColor {
    pub value: u32,
}

impl MatterWithColor {
    /// The cell of matter `matter_id` in its base colour.
    pub fn new(matter_id: MatterId) -> (r: MatterWithColor)
        ensures
            r.value == encode(matter_id, 0, 0, 0),
    {
        Self::with_offsets(matter_id, 0, 0, 0)
    }

    /// The cell of matter `matter` with its base colour's channels moved by the
    /// given offsets (each kept within `0..=255`); empty matter always gives the
    /// empty cell.
    pub fn with_offsets(matter: MatterId, dr: i32, dg: i32, db: i32) -> (r: MatterWithColor)
        ensures
            r.value == encode(matter, dr as int, dg as int, db as int),
    {
        if matter == MatterId::Empty {
            return MatterWithColor { value: EMPTY_CELL };
        }
        let color = matter.color_rgba_u8();
        let value = u8_rgba_to_u32_rgba(
            jitter_channel(color[0], dr),
            jitter_channel(color[1], dg),
            jitter_channel(color[2], db),
            matter.id(),
        );
        MatterWithColor { value }
    }

    /// The cell of matter `matter` with each colour channel moved by an offset
    /// drawn from `rng` within `-JITTER..=JITTER`.
    pub fn with_jitter(matter: MatterId, rng: &mut StdRng) -> (r: MatterWithColor)
        ensures
            is_placement_of(matter, r.value),
            matter_of(r.value) == matter,
            matter == MatterId::Empty ==> r.value == EMPTY_CELL,
    {
        let dr = random_between(rng, -JITTER, JITTER);
        let dg = random_between(rng, -JITTER, JITTER);
        let db = random_between(rng, -JITTER, JITTER);
        let r = Self::with_offsets(matter, dr, dg, db);
        proof {
            lemma_decode_encode(matter, dr as int, dg as int, db as int);
        }
        r
    }

    /// The matter this cell holds, read from its lowest byte; a byte that
    /// names no matter reads as `Empty`.
    pub fn matter_id(&self) -> (r: MatterId)
        ensures
            r == matter_of(self.value),
    {
        let v = self.value;
        let b = v & 255;
        assert(b == v % 0x100) by (bit_vector)
            requires
                b == v & 255,
        ;
        MatterId::from(b as u8)
    }
}

impl Default for MatterWithColor {
    fn default() -> (r: Self)
        ensures
            r.value == EMPTY_CELL,
    {
        MatterWithColor { value: EMPTY_CELL }
    }
}

impl From<u32> for MatterWithColor {
    fn from(item: u32) -> (r: Self)
        ensures
            r.value == item,
    {
        MatterWithColor { value: item }
    }
}

impl vstd::std_specs::convert::FromSpecImpl<u32> for MatterWithColor {
    open spec fn obeys_from_spec() -> bool {
        true
    }

    open spec fn from_spec(v: u32) -> Self {
        MatterWithColor { value: v }
    }
}

} // verus!
