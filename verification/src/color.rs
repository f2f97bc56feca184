//! Colours of pixels and of the two inks.

use vstd::prelude::*;

verus! {

/// One pixel's colour: three channels and its opacity.
#[derive(Clone, Copy, Debug, PartialEq, Eq, Structural)]
pub struct Color {
    pub red: u8,
    pub green: u8,
    pub blue: u8,
    pub alpha: u8,
}

impl Color {
    /// The colour as one number: opacity on top, then red, green and blue,
    /// eight bits each.
    pub open spec fn word(self) -> int {
        self.alpha * 0x100_0000 + self.red * 0x1_0000 + self.green * 0x100 + self.blue
    }

    /// The colour that a number stands for.
    pub open spec fn of_word(word: int) -> Color {
        Color {
            red: ((word / 0x1_0000) % 0x100) as u8,
            green: ((word / 0x100) % 0x100) as u8,
            blue: (word % 0x100) as u8,
            alpha: ((word / 0x100_0000) % 0x100) as u8,
        }
    }

    /// A fully opaque colour.
    pub fn opaque(red: u8, green: u8, blue: u8) -> (result: Color)
        ensures
            result == (Color { red, green, blue, alpha: 255 }),
    {
        Color { red, green, blue, alpha: 255 }
    }

    /// The colour of a fresh canvas, which is also what the erasing ink lays down.
    pub fn background() -> (result: Color)
        ensures
            result == Ink::Erase.shade(),
    {
        Color::opaque(4, 101, 130)
    }

    /// The colour in which the pointer is shown on top of the drawing.
    pub fn cursor() -> (result: Color)
        ensures
            result == (Color { red: 255, green: 255, blue: 255, alpha: 255 }),
    {
        Color::opaque(255, 255, 255)
    }

    /// Packs the colour into one 32-bit number.
    pub fn to_word(self) -> (result: u32)
        ensures
            result == self.word(),
    {
        let alpha: u32 = self.alpha as u32;
        let red: u32 = self.red as u32;
        let green: u32 = self.green as u32;
        let blue: u32 = self.blue as u32;
        alpha * 0x100_0000 + red * 0x1_0000 + green * 0x100 + blue
    }

    /// Unpacks a 32-bit number into the colour that it stands for.
    pub fn from_word(word: u32) -> (result: Color)
        ensures
            result == Color::of_word(word as int),
            result.word() == word,
    {
        proof {
            lemma_channels_make_word(word);
        }
        Color {
            red: ((word / 0x1_0000) % 0x100) as u8,
            green: ((word / 0x100) % 0x100) as u8,
            blue: (word % 0x100) as u8,
            alpha: ((word / 0x100_0000) % 0x100) as u8,
        }
    }
}

proof fn lemma_channels_make_word(word: u32)
    by (bit_vector)
    ensures
        ((word / 0x100_0000) % 0x100) * 0x100_0000 + ((word / 0x1_0000) % 0x100) * 0x1_0000 + ((word
            / 0x100) % 0x100) * 0x100 + word % 0x100 == word,
{
}

proof fn lemma_word_gives_channels(alpha: u32, red: u32, green: u32, blue: u32)
    by (bit_vector)
    requires
        alpha < 0x100,
        red < 0x100,
        green < 0x100,
        blue < 0x100,
    ensures
        ({
            let word = alpha * 0x100_0000 + red * 0x1_0000 + green * 0x100 + blue;
            &&& word <= 0xffff_ffff
            &&& (word / 0x100_0000) % 0x100 == alpha
            &&& (word / 0x1_0000) % 0x100 == red
            &&& (word / 0x100) % 0x100 == green
            &&& word % 0x100 == blue
        }),
{
}

/// Packing loses nothing: unpacking a colour's number gives the colour back.
pub proof fn lemma_word_round_trip(color: Color)
    ensures
        0 <= color.word() <= u32::MAX,
        Color::of_word(color.word()) == color,
{
    lemma_word_gives_channels(
        color.alpha as u32,
        color.red as u32,
        color.green as u32,
        color.blue as u32,
    );
}

/// The two inks of the brush.
#[derive(Clone, Copy, Debug, PartialEq, Eq, Structural)]
pub enum Ink {
    /// Lays down the drawing colour.
    Paint,
    /// Lays down the background colour again; nothing becomes transparent.
    Erase,
}

impl Ink {
    /// The colour that the ink lays down.
    pub open spec fn shade(self) -> Color {
        match self {
            Ink::Paint => Color { red: 243, green: 145, blue: 137, alpha: 255 },
            Ink::Erase => Color { red: 4, green: 101, blue: 130, alpha: 255 },
        }
    }

    /// The ink that a press of the given pointer button lays down: the
    /// first button paints, the third erases, and no other button draws.
    pub open spec fn of_button(button: u32) -> Option<Ink> {
        if button == 1 {
            Some(Ink::Paint)
        } else if button == 3 {
            Some(Ink::Erase)
        } else {
            None
        }
    }

    /// The ink that a drag lays down while the first or the third button is
    /// held; the first wins where both are.
    pub open spec fn of_held(first: bool, third: bool) -> Option<Ink> {
        if first {
            Some(Ink::Paint)
        } else if third {
            Some(Ink::Erase)
        } else {
            None
        }
    }

    /// The ink that a press of the given pointer button lays down.
    pub fn for_button(button: u32) -> (result: Option<Ink>)
        ensures
            result == Ink::of_button(button),
    {
        if button == 1 {
            Some(Ink::Paint)
        } else if button == 3 {
            Some(Ink::Erase)
        } else {
            None
        }
    }

    /// The ink that a drag lays down while buttons are held.
    pub fn for_held(first: bool, third: bool) -> (result: Option<Ink>)
        ensures
            result == Ink::of_held(first, third),
    {
        if first {
            Some(Ink::Paint)
        } else if third {
            Some(Ink::Erase)
        } else {
            None
        }
    }

    /// The colour that the ink lays down.
    pub fn color(self) -> (result: Color)
        ensures
            result == self.shade(),
    {
        match self {
            Ink::Paint => Color::opaque(243, 145, 137),
            Ink::Erase => Color::opaque(4, 101, 130),
        }
    }
}

} // verus!
