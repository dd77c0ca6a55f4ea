use vstd::prelude::*;

use hex_color::HexColor;

verus! {

/// The material a cell holds.
#[derive(Clone, Copy, Debug, PartialEq, Eq, Structural, Hash)]
pub enum CellType {
    Empty,
    Sand,
    Wall,
}

/// Every variant, in the fixed order that encoders index cells by.
pub open spec fn all_cells() -> Seq<CellType> {
    seq![CellType::Empty, CellType::Sand, CellType::Wall]
}

/// The position of `c` in `all_cells()`.
pub open spec fn code_of(c: CellType) -> nat {
    match c {
        CellType::Empty => 0,
        CellType::Sand => 1,
        CellType::Wall => 2,
    }
}

/// The display colour of a cell as red, green, blue and alpha bytes.
pub open spec fn color_of(c: CellType) -> Seq<u8> {
    match c {
        CellType::Empty => seq![0u8, 0u8, 0u8, 255u8],
        CellType::Sand => seq![168u8, 134u8, 42u8, 255u8],
        CellType::Wall => seq![148u8, 148u8, 148u8, 255u8],
    }
}

/// An upper-case hexadecimal digit for `d < 16`.
pub open spec fn hex_digit(d: nat) -> char {
    if d < 10 {
        (('0' as nat) + d) as char
    } else {
        (('A' as nat) + d - 10) as char
    }
}

/// Two upper-case hexadecimal digits for a byte, high nibble first.
pub open spec fn hex_byte(b: u8) -> Seq<char> {
    seq![hex_digit(b as nat / 16), hex_digit(b as nat % 16)]
}

/// `#RRGGBB` in upper-case hexadecimal.
pub open spec fn hex_rgb_text(r: u8, g: u8, b: u8) -> Seq<char> {
    seq!['#'] + hex_byte(r) + hex_byte(g) + hex_byte(b)
}

/// Relies on hex_color's `HexColor::rgb` and the `Display` that
/// `display_rgb` returns, which writes `#` and then each channel as two
/// upper-case hexadecimal digits (`"#{r:02X}{g:02X}{b:02X}"`).
#[verifier::external_body]
fn hex_rgb(r: u8, g: u8, b: u8) -> (s: String)
    ensures
        s@ == hex_rgb_text(r, g, b),
{
    HexColor::rgb(r, g, b).display_rgb().to_string()
}

impl CellType {
    /// All variants in their stable order.
    pub fn all() -> (r: Vec<CellType>)
        ensures
            r@ == all_cells(),
    {
        let r = vec![CellType::Empty, CellType::Sand, CellType::Wall];
        assert(r@ =~= all_cells());
        r
    }

    /// The slot of this variant in [`CellType::all`].
    pub fn code(self) -> (r: u8)
        ensures
            r as nat == code_of(self),
            all_cells()[r as int] == self,
    {
        match self {
            CellType::Empty => 0,
            CellType::Sand => 1,
            CellType::Wall => 2,
        }
    }

    /// The display colour as red, green, blue and alpha bytes.
    pub fn color(self) -> (r: [u8; 4])
        ensures
            r@ == color_of(self),
    {
        let r = match self {
            CellType::Empty => [0u8, 0u8, 0u8, 255u8],
            CellType::Sand => [168u8, 134u8, 42u8, 255u8],
            CellType::Wall => [148u8, 148u8, 148u8, 255u8],
        };
        assert(r@ =~= color_of(self));
        r
    }
}

/// The display colour of `cell` as `#RRGGBB`.
pub fn color_hex(cell: CellType) -> (s: String)
    ensures
        s@ == hex_rgb_text(color_of(cell)[0], color_of(cell)[1], color_of(cell)[2]),
{
    let c = cell.color();
    hex_rgb(c[0], c[1], c[2])
}

} // verus!
