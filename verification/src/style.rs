//! Text styles: a foreground and background colour and the sets of text
//! modifiers that a style adds and removes.

use vstd::prelude::*;

verus! {

/// The modifier that makes text bold.
pub const BOLD: u16 = 0x001;
/// The modifier that makes text dim.
pub const DIM: u16 = 0x002;
/// The modifier that makes text italic.
pub const ITALIC: u16 = 0x004;
/// The modifier that underlines text.
pub const UNDERLINED: u16 = 0x008;
/// The modifier that makes text blink slowly.
pub const SLOW_BLINK: u16 = 0x010;
/// The modifier that makes text blink rapidly.
pub const RAPID_BLINK: u16 = 0x020;
/// The modifier that swaps foreground and background.
pub const REVERSED: u16 = 0x040;
/// The modifier that hides text.
pub const HIDDEN: u16 = 0x080;
/// The modifier that strikes text through.
pub const CROSSED_OUT: u16 = 0x100;

/// A terminal colour.
#[derive(Clone, Copy, Debug, PartialEq, Eq, Structural)]
pub enum Color {
    Reset,
    Black,
    Red,
    Green,
    Yellow,
    Blue,
    Magenta,
    Cyan,
    Gray,
    DarkGray,
    LightRed,
    LightGreen,
    LightYellow,
    LightBlue,
    LightMagenta,
    LightCyan,
    White,
    Rgb(u8, u8, u8),
    Indexed(u8),
}

/// A style: optional colours, and the modifiers it adds and removes, each a
/// set of the bits above.
#[derive(Clone, Copy, Debug, PartialEq, Eq, Structural)]
pub struct TextStyle {
    pub fg: Option<Color>,
    pub bg: Option<Color>,
    pub add_modifier: u16,
    pub sub_modifier: u16,
}

/// The style that changes nothing.
pub open spec fn plain_style() -> TextStyle {
    TextStyle { fg: None, bg: None, add_modifier: 0, sub_modifier: 0 }
}

/// `s` with the modifiers `m` added (and no longer removed).
pub open spec fn style_with_modifier(s: TextStyle, m: u16) -> TextStyle {
    TextStyle { add_modifier: s.add_modifier | m, sub_modifier: s.sub_modifier & !m, ..s }
}

/// `s` with the modifiers `m` removed (and no longer added).
pub open spec fn style_without_modifier(s: TextStyle, m: u16) -> TextStyle {
    TextStyle { add_modifier: s.add_modifier & !m, sub_modifier: s.sub_modifier | m, ..s }
}

/// `s` with foreground colour `c`.
pub open spec fn style_with_fg(s: TextStyle, c: Color) -> TextStyle {
    TextStyle { fg: Some(c), ..s }
}

/// `s` with no foreground colour.
pub open spec fn style_without_fg(s: TextStyle) -> TextStyle {
    TextStyle { fg: None, ..s }
}

impl TextStyle {
    /// The style that changes nothing.
    pub fn plain() -> (s: TextStyle)
        ensures
            s == plain_style(),
    {
        TextStyle { fg: None, bg: None, add_modifier: 0, sub_modifier: 0 }
    }

    /// Adds the modifiers `m`.
    pub fn add_modifier(self, m: u16) -> (s: TextStyle)
        ensures
            s == style_with_modifier(self, m),
    {
        TextStyle { add_modifier: self.add_modifier | m, sub_modifier: self.sub_modifier & !m, ..self }
    }

    /// Removes the modifiers `m`.
    pub fn remove_modifier(self, m: u16) -> (s: TextStyle)
        ensures
            s == style_without_modifier(self, m),
    {
        TextStyle { add_modifier: self.add_modifier & !m, sub_modifier: self.sub_modifier | m, ..self }
    }

    /// Sets the foreground colour.
    pub fn fg(self, c: Color) -> (s: TextStyle)
        ensures
            s == style_with_fg(self, c),
    {
        TextStyle { fg: Some(c), ..self }
    }

    /// Clears the foreground colour.
    pub fn reset_fg(self) -> (s: TextStyle)
        ensures
            s == style_without_fg(self),
    {
        TextStyle { fg: None, ..self }
    }
}

/// Adding modifiers and then removing the same ones leaves none of them
/// added and all of them removed; the other bits of both sets are as before
/// the removal asked for them.
pub proof fn lemma_remove_after_add(s: TextStyle, m: u16)
    ensures
        style_without_modifier(style_with_modifier(s, m), m).add_modifier == s.add_modifier & !m,
        style_without_modifier(style_with_modifier(s, m), m).sub_modifier == s.sub_modifier | m,
        style_without_modifier(style_with_modifier(s, m), m).fg == s.fg,
        style_without_modifier(style_with_modifier(s, m), m).bg == s.bg,
{
    let a = s.add_modifier;
    let b = s.sub_modifier;
    assert((a | m) & !m == a & !m) by (bit_vector);
    assert((b & !m) | m == b | m) by (bit_vector);
}

/// Adding modifiers twice is adding them once.
pub proof fn lemma_add_modifier_idempotent(s: TextStyle, m: u16)
    ensures
        style_with_modifier(style_with_modifier(s, m), m) == style_with_modifier(s, m),
{
    let a = s.add_modifier;
    let b = s.sub_modifier;
    assert((a | m) | m == a | m) by (bit_vector);
    assert((b & !m) & !m == b & !m) by (bit_vector);
}

/// Clearing the foreground after setting it gives the style without a
/// foreground, whatever the colour was.
pub proof fn lemma_reset_after_set_fg(s: TextStyle, c: Color)
    ensures
        style_without_fg(style_with_fg(s, c)) == style_without_fg(s),
{
}

} // verus!
