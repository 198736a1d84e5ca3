//! Texts of the popup, in pieces: words that are finished, and numbers that are
//! still to be written out.
use crate::text;
use vstd::prelude::*;

verus! {

/// A number to be written out.
#[derive(Debug, Clone, Copy, PartialEq, Eq, Structural)]
pub enum Quantity {
    /// A fraction, as single-precision bits.
    Single(u32),
    /// The sum of two fractions, as single-precision bits.
    Sum(u32, u32),
    /// How many percent of a fraction another one is, at most a hundred; both as
    /// single-precision bits.
    Percent { used: u32, total: u32 },
    /// MiB in GiB, as double-precision bits.
    Gib(u64),
    /// How many percent of a fraction another one is, as double-precision bits.
    Share { part: u64, whole: u64 },
    /// KiB in MiB.
    Mib(u64),
    /// Seconds in minutes.
    Minutes(usize),
}

/// A piece of a text.
#[derive(Debug)]
pub enum Piece {
    Words(String),
    /// A number with so many decimals, filled up with zeros to a width.
    Number { value: Quantity, decimals: u8, width: u8 },
    /// The sum of fractions, as single-precision bits, without decimals.
    Total(Vec<u32>),
}

/// A piece as characters.
pub enum Part {
    Words(Seq<char>),
    Number { value: Quantity, decimals: u8, width: u8 },
    Total(Seq<u32>),
}

impl View for Piece {
    type V = Part;

    open spec fn view(&self) -> Part {
        match *self {
            Piece::Words(s) => Part::Words(s@),
            Piece::Number { value, decimals, width } => Part::Number { value, decimals, width },
            Piece::Total(list) => Part::Total(list@),
        }
    }
}

/// A text in pieces, as characters.
pub open spec fn line(pieces: Seq<Piece>) -> Seq<Part> {
    pieces.map_values(|p: Piece| p@)
}

/// A fraction with so many decimals.
pub open spec fn single(bits: u32, decimals: u8) -> Part {
    Part::Number { value: Quantity::Single(bits), decimals, width: 0 }
}

/// A number without decimals.
pub open spec fn round(value: Quantity) -> Part {
    Part::Number { value, decimals: 0, width: 0 }
}

/// How much something matters.
#[derive(Debug, Clone, Copy, PartialEq, Eq, Structural)]
pub enum Tone {
    Plain,
    Good,
    Warn,
    Bad,
}

/// No pieces yet.
pub fn no_pieces() -> (r: Vec<Piece>)
    ensures
        line(r@) == Seq::<Part>::empty(),
{
    let r: Vec<Piece> = Vec::new();
    assert(line(r@) =~= Seq::<Part>::empty());
    r
}

/// Pieces and words.
pub fn words(pieces: Vec<Piece>, s: &str) -> (r: Vec<Piece>)
    ensures
        line(r@) == line(pieces@).push(Part::Words(s@)),
{
    let mut r = pieces;
    let ghost before = line(r@);
    r.push(Piece::Words(text::copy(s)));
    assert(line(r@) =~= before.push(Part::Words(s@)));
    r
}

/// Pieces and a number.
pub fn number(pieces: Vec<Piece>, value: Quantity, decimals: u8, width: u8) -> (r: Vec<Piece>)
    ensures
        line(r@) == line(pieces@).push(Part::Number { value, decimals, width }),
{
    let mut r = pieces;
    let ghost before = line(r@);
    r.push(Piece::Number { value, decimals, width });
    assert(line(r@) =~= before.push(Part::Number { value, decimals, width }));
    r
}

/// Pieces and the sum of a list.
pub fn total(pieces: Vec<Piece>, list: Vec<u32>) -> (r: Vec<Piece>)
    ensures
        line(r@) == line(pieces@).push(Part::Total(list@)),
{
    let mut r = pieces;
    let ghost before = line(r@);
    r.push(Piece::Total(list));
    assert(line(r@) =~= before.push(Part::Total(list@)));
    r
}

/// A text after others, with a separator where there are any.
pub open spec fn continued(so_far: Seq<Part>, more: Seq<Part>) -> Seq<Part> {
    if so_far.len() == 0 {
        more
    } else {
        so_far.push(Part::Words(" · "@)) + more
    }
}

/// Appends a text to others.
pub fn append(so_far: Vec<Piece>, more: Vec<Piece>) -> (r: Vec<Piece>)
    ensures
        line(r@) == continued(line(so_far@), line(more@)),
{
    let ghost a = line(so_far@);
    let ghost b = line(more@);
    assert(a.len() == so_far@.len());
    if so_far.len() == 0 {
        return more;
    }
    let mut r = words(so_far, " · ");
    let mut rest = more;
    let ghost first = r@;
    let ghost second = rest@;
    r.append(&mut rest);
    assert(line(r@) =~= line(first) + line(second));
    r
}

/// A text that is finished.
pub fn plain(s: &str) -> (r: Vec<Piece>)
    ensures
        line(r@) == seq![Part::Words(s@)],
{
    let r = words(no_pieces(), s);
    assert(line(r@) =~= seq![Part::Words(s@)]);
    r
}

} // verus!
