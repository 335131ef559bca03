//! The temperature bar: a row of coloured cells, filled in proportion to
//! the reading.
//!
//! A bar spans a reference range of 0 to 100 degrees. Each cell takes the
//! colour of the band that its position falls in, in the light shade where
//! the bar is filled and in the dark shade where it is not.

use crate::decimal::{
    lemma_denominator_positive, lemma_pow10_order, lemma_pow10_small, pow10, power_of_ten, Decimal,
};
use crate::rounding::{lemma_rounded_is, lemma_rounded_share, round_fraction, rounded};
use vstd::prelude::*;

verus! {

/// A colour by its red, green and blue parts.
#[derive(Clone, Copy, Debug, PartialEq, Eq, Structural)]
pub struct Rgb {
    pub red: u8,
    pub green: u8,
    pub blue: u8,
}

/// One of the three temperature ranges.
#[derive(Clone, Copy, Debug, PartialEq, Eq, Structural)]
pub enum Band {
    /// Below 45 hundredths of the range.
    Cool,
    /// From 45 to below 75 hundredths of the range.
    Warm,
    /// From 75 hundredths of the range.
    Hot,
}

impl Band {
    /// The colour of a filled cell: olive green, amber or red.
    pub open spec fn light_of(self) -> Rgb {
        match self {
            Band::Cool => Rgb { red: 165, green: 183, blue: 0 },
            Band::Warm => Rgb { red: 227, green: 168, blue: 43 },
            Band::Hot => Rgb { red: 204, green: 31, blue: 26 },
        }
    }

    /// The colour of an unfilled cell: the dull shade of the band.
    pub open spec fn dark_of(self) -> Rgb {
        match self {
            Band::Cool => Rgb { red: 68, green: 68, blue: 37 },
            Band::Warm => Rgb { red: 94, green: 78, blue: 40 },
            Band::Hot => Rgb { red: 76, green: 32, blue: 32 },
        }
    }

    /// The colour of a filled cell.
    pub fn light(&self) -> (result: Rgb)
        ensures
            result == self.light_of(),
    {
        match self {
            Band::Cool => Rgb { red: 165, green: 183, blue: 0 },
            Band::Warm => Rgb { red: 227, green: 168, blue: 43 },
            Band::Hot => Rgb { red: 204, green: 31, blue: 26 },
        }
    }

    /// The colour of an unfilled cell.
    pub fn dark(&self) -> (result: Rgb)
        ensures
            result == self.dark_of(),
    {
        match self {
            Band::Cool => Rgb { red: 68, green: 68, blue: 37 },
            Band::Warm => Rgb { red: 94, green: 78, blue: 40 },
            Band::Hot => Rgb { red: 76, green: 32, blue: 32 },
        }
    }
}

/// The band of the cell `index` in a bar of `width` cells, by the ratio
/// `index / width`: below 0.45 cool, below 0.75 warm, else hot.
pub open spec fn cell_band(index: int, width: int) -> Band {
    if 100 * index < 45 * width {
        Band::Cool
    } else if 100 * index < 75 * width {
        Band::Warm
    } else {
        Band::Hot
    }
}

/// The band of a whole reading, by its share of 100 degrees: below 45
/// degrees cool, below 75 degrees warm, else hot.
pub open spec fn reading_band(temperature: Decimal) -> Band {
    if temperature.below(Decimal::whole(45)) {
        Band::Cool
    } else if temperature.below(Decimal::whole(75)) {
        Band::Warm
    } else {
        Band::Hot
    }
}

/// The number of filled cells: the reading's share of 100 degrees, kept
/// between nought and one, times the width, rounded.
pub open spec fn filled_cells(temperature: Decimal, width: int) -> int {
    let full = 100 * temperature.denominator();
    let part = if temperature.numerator() < 0 {
        0
    } else if temperature.numerator() > full {
        full
    } else {
        temperature.numerator()
    };
    rounded(part * width, full)
}

/// The colour of the cell `index` of the bar.
pub open spec fn cell_color(temperature: Decimal, width: int, index: int) -> Rgb {
    if index < filled_cells(temperature, width) {
        cell_band(index, width).light_of()
    } else {
        cell_band(index, width).dark_of()
    }
}

/// Finds the band of the cell `index` in a bar of `width` cells.
pub fn band_of_cell(index: u16, width: u16) -> (result: Band)
    ensures
        result == cell_band(index as int, width as int),
{
    let position: u32 = 100 * (index as u32);
    if position < 45 * (width as u32) {
        Band::Cool
    } else if position < 75 * (width as u32) {
        Band::Warm
    } else {
        Band::Hot
    }
}

/// Finds the band of a whole reading.
pub fn band_of_reading(temperature: &Decimal) -> (result: Band)
    ensures
        result == reading_band(*temperature),
{
    if temperature.is_below(&Decimal::from_whole(45)) {
        Band::Cool
    } else if temperature.is_below(&Decimal::from_whole(75)) {
        Band::Warm
    } else {
        Band::Hot
    }
}

/// The colour of the mark that stands beside the reading: the light colour
/// of the reading's band.
pub fn indicator_color(temperature: &Decimal) -> (result: Rgb)
    ensures
        result == reading_band(*temperature).light_of(),
{
    band_of_reading(temperature).light()
}

/// Counts the filled cells of a bar of `width` cells.
pub fn fill(temperature: &Decimal, width: u16) -> (result: u16)
    ensures
        result == filled_cells(*temperature, width as int),
        result <= width,
{
    let t = *temperature;
    let ghost full = 100 * t.denominator();
    proof {
        lemma_denominator_positive(t);
        lemma_pow10_small();
        lemma_pow10_order(0, t.up());
    }
    if t.negative || t.coefficient == 0 {
        proof {
            assert(t.magnitude() >= 0) by (nonlinear_arith)
                requires
                    t.magnitude() == t.coefficient as int * pow10(t.up()),
                    pow10(t.up()) > 0,
                    t.coefficient >= 0,
            ;
            assert(t.coefficient == 0 ==> t.magnitude() == 0) by (nonlinear_arith)
                requires
                    t.magnitude() == t.coefficient as int * pow10(t.up()),
            ;
            assert(0 * (width as int) == 0);
            lemma_rounded_is(0, full, 0);
        }
        return 0;
    }
    if !t.is_below(&Decimal::from_whole(100)) {
        proof {
            let hundred = Decimal::whole(100);
            assert(hundred.numerator() == 100 && hundred.denominator() == 1) by {
                assert(hundred.magnitude() == 100 * pow10(0));
            }
            assert(t.numerator() * 1 >= 100 * t.denominator());
            assert(full * (width as int) == (width as int) * full) by (nonlinear_arith);
            assert((width as int) * (2 * full) == 2 * (full * (width as int))) by (nonlinear_arith);
            assert((width + 1) * (2 * full) == 2 * (full * (width as int)) + 2 * full)
                by (nonlinear_arith);
            lemma_rounded_is(full * (width as int), full, width as int);
        }
        return width;
    }
    proof {
        let hundred = Decimal::whole(100);
        assert(hundred.numerator() == 100 && hundred.denominator() == 1) by {
            assert(hundred.magnitude() == 100 * pow10(0));
        }
        assert(t.numerator() * 1 < 100 * t.denominator());
        assert(t.numerator() == t.magnitude());
        assert(t.magnitude() > 0) by (nonlinear_arith)
            requires
                t.magnitude() == t.coefficient as int * pow10(t.up()),
                pow10(t.up()) > 0,
                t.coefficient > 0,
        ;
    }
    if t.exponent >= 0 {
        proof {
            if t.exponent >= 2 {
                lemma_pow10_order(2, t.up());
                assert(t.magnitude() >= 100) by (nonlinear_arith)
                    requires
                        t.magnitude() == t.coefficient as int * pow10(t.up()),
                        pow10(t.up()) >= 100,
                        t.coefficient >= 1,
                ;
            }
            assert(t.denominator() == 1);
        }
        let scale = power_of_ten(t.exponent as u32);
        proof {
            assert(t.coefficient as int * scale < 100);
            assert(t.coefficient < 100) by (nonlinear_arith)
                requires
                    t.coefficient as int * scale < 100,
                    scale >= 1,
                    t.coefficient >= 0,
            ;
        }
        let value: u128 = (t.coefficient as u128) * scale;
        proof {
            assert(value * width <= 100 * u16::MAX) by (nonlinear_arith)
                requires
                    0 <= value <= 100,
                    0 <= width <= u16::MAX,
            ;
            lemma_rounded_share(value as int, 100, width as int);
        }
        let result = round_fraction(value * (width as u128), 100);
        result as u16
    } else {
        let places: i64 = -(t.exponent as i64);
        proof {
            assert(t.up() == 0 && t.down() == places);
            assert(t.magnitude() == t.coefficient) by (nonlinear_arith)
                requires
                    t.magnitude() == t.coefficient as int * pow10(t.up()),
                    pow10(t.up()) == 1,
            ;
        }
        if places > 26 {
            proof {
                lemma_pow10_order(26, places as nat);
                let n = t.coefficient as int * (width as int);
                assert(0 <= n <= u64::MAX * u16::MAX) by (nonlinear_arith)
                    requires
                        n == t.coefficient as int * (width as int),
                        0 <= t.coefficient <= u64::MAX,
                        0 <= width <= u16::MAX,
                ;
                lemma_rounded_is(n, full, 0);
            }
            0
        } else {
            proof {
                lemma_pow10_order(places as nat, 26);
            }
            let scale = power_of_ten(places as u32);
            proof {
                assert(t.coefficient as int * (width as int) <= u64::MAX * u16::MAX)
                    by (nonlinear_arith)
                    requires
                        0 <= t.coefficient <= u64::MAX,
                        0 <= width <= u16::MAX,
                ;
                lemma_rounded_share(t.coefficient as int, full, width as int);
            }
            let result = round_fraction((t.coefficient as u128) * (width as u128), 100 * scale);
            result as u16
        }
    }
}

/// Renders the bar of a reading: `width` cells, the first
/// [`filled_cells`] of them in the light colour of their band, the others
/// in the dark colour.
pub fn render_bar(temperature: &Decimal, width: u16) -> (result: Vec<Rgb>)
    ensures
        result@.len() == width,
        forall|i: int|
            0 <= i < width ==> #[trigger] result@[i] == cell_color(*temperature, width as int, i),
{
    let filled = fill(temperature, width);
    let mut result: Vec<Rgb> = Vec::new();
    let mut index: u16 = 0;
    while index < width
        invariant
            index <= width,
            filled == filled_cells(*temperature, width as int),
            result@.len() == index,
            forall|i: int|
                0 <= i < index ==> #[trigger] result@[i] == cell_color(
                    *temperature,
                    width as int,
                    i,
                ),
        decreases width - index,
    {
        let band = band_of_cell(index, width);
        let color = if index < filled {
            band.light()
        } else {
            band.dark()
        };
        result.push(color);
        index += 1;
    }
    result
}

} // verus!
