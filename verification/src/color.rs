//! Eight-bit RGB colours.

use crate::decimal::{decimal, lemma_decimal_is_word, push_decimal};
use crate::tokens::{is_closed, lemma_closed_word, lemma_tokens_concat, tokens};
use vstd::prelude::*;
use vstd::string::StringExecFns;

verus! {

/// A colour with one byte per channel.
#[derive(Debug, Clone, Copy, PartialEq, Eq, Structural)]
pub struct Rgb {
    pub red: u8,
    pub green: u8,
    pub blue: u8,
}

/// The sum of two channel values, reduced modulo 256.
pub open spec fn wrapped_sum(a: u8, b: u8) -> u8 {
    ((a + b) % 0x100) as u8
}

impl Rgb {
    /// The colour as one number: red in bits 16 to 23, green in bits 8 to 15,
    /// blue in bits 0 to 7.
    pub open spec fn packed(self) -> nat {
        (self.red * 0x1_0000 + self.green * 0x100 + self.blue) as nat
    }

    /// The colour as pixel-map text: the three channels in decimal notation,
    /// red first, each followed by one space.
    pub open spec fn ppm(self) -> Seq<char> {
        decimal(self.red as nat) + seq![' '] + decimal(self.green as nat) + seq![' '] + decimal(
            self.blue as nat,
        ) + seq![' ']
    }

    /// The three channels in decimal notation, red first.
    pub open spec fn channels(self) -> Seq<Seq<char>> {
        seq![decimal(self.red as nat), decimal(self.green as nat), decimal(self.blue as nat)]
    }

    /// Unpacks a colour from the low 24 bits of `value`; higher bits are ignored.
    pub fn from_u32(value: u32) -> (color: Rgb)
        ensures
            color.packed() == value % 0x100_0000,
            color.red == (value / 0x1_0000) % 0x100,
            color.green == (value / 0x100) % 0x100,
            color.blue == value % 0x100,
    {
        assert((value & 0xFF0000) >> 16 == (value / 0x1_0000) % 0x100) by (bit_vector);
        assert((value & 0x00FF00) >> 8 == (value / 0x100) % 0x100) by (bit_vector);
        assert(value & 0x0000FF == value % 0x100) by (bit_vector);
        Rgb {
            red: ((value & 0xFF0000) >> 16) as u8,
            green: ((value & 0x00FF00) >> 8) as u8,
            blue: (value & 0x0000FF) as u8,
        }
    }

    /// Renders the colour as pixel-map text.
    pub fn to_ppm(&self) -> (text: String)
        ensures
            text@ == self.ppm(),
    {
        proof {
            reveal_strlit(" ");
        }
        let mut text = String::new();
        push_decimal(&mut text, self.red as u32);
        text.append(" ");
        push_decimal(&mut text, self.green as u32);
        text.append(" ");
        push_decimal(&mut text, self.blue as u32);
        text.append(" ");
        assert(text@ =~= self.ppm());
        text
    }
}

/// A colour's text splits into its three channels in decimal notation, red
/// first, and what follows it starts afresh.
pub proof fn lemma_ppm_tokens(color: Rgb)
    ensures
        tokens(color.ppm()) == color.channels(),
        is_closed(color.ppm()),
{
    let red = decimal(color.red as nat).push(' ');
    let green = decimal(color.green as nat).push(' ');
    let blue = decimal(color.blue as nat).push(' ');
    lemma_decimal_is_word(color.red as nat);
    lemma_decimal_is_word(color.green as nat);
    lemma_decimal_is_word(color.blue as nat);
    lemma_closed_word(decimal(color.red as nat), ' ');
    lemma_closed_word(decimal(color.green as nat), ' ');
    lemma_closed_word(decimal(color.blue as nat), ' ');
    lemma_tokens_concat(red, green);
    lemma_tokens_concat(red + green, blue);
    assert(color.ppm() =~= red + green + blue);
    assert(tokens(red) + tokens(green) + tokens(blue) =~= color.channels());
}

/// Channel-wise addition. A channel whose sum exceeds 255 wraps around: the
/// result is the sum modulo 256, never a clamp to 255.
impl core::ops::Add for Rgb {
    type Output = Rgb;

    fn add(self, rhs: Rgb) -> (sum: Rgb)
        ensures
            sum.red == wrapped_sum(self.red, rhs.red),
            sum.green == wrapped_sum(self.green, rhs.green),
            sum.blue == wrapped_sum(self.blue, rhs.blue),
    {
        Rgb {
            red: self.red.wrapping_add(rhs.red),
            green: self.green.wrapping_add(rhs.green),
            blue: self.blue.wrapping_add(rhs.blue),
        }
    }
}

impl vstd::std_specs::ops::AddSpecImpl for Rgb {
    open spec fn obeys_add_spec() -> bool {
        true
    }

    open spec fn add_req(self, rhs: Rgb) -> bool {
        true
    }

    open spec fn add_spec(self, rhs: Rgb) -> Rgb {
        Rgb {
            red: wrapped_sum(self.red, rhs.red),
            green: wrapped_sum(self.green, rhs.green),
            blue: wrapped_sum(self.blue, rhs.blue),
        }
    }
}

} // verus!
