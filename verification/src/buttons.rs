//! Button sizing shared by the interface.

use vstd::prelude::*;

verus! {

/// The three button sizes.
#[derive(Clone, Copy, PartialEq, Eq, Structural, Debug)]
pub enum ButtonSize {
    Small,
    Normal,
    Large,
}

impl ButtonSize {
    /// The side length of the button, in whole pixels.
    pub fn pixels(&self) -> (r: u32)
        ensures
            r == (match self {
                ButtonSize::Small => 24u32,
                ButtonSize::Normal => 36u32,
                ButtonSize::Large => 48u32,
            }),
    {
        match self {
            ButtonSize::Small => 24,
            ButtonSize::Normal => 36,
            ButtonSize::Large => 48,
        }
    }
}

impl Default for ButtonSize {
    /// The ordinary size.
    fn default() -> (r: ButtonSize)
        ensures
            r == ButtonSize::Normal,
    {
        ButtonSize::Normal
    }
}

/// How an icon button is drawn.
pub enum IconButtonVariant {
    Outlined(ButtonSize),
    Filled(ButtonSize),
    Text(ButtonSize),
}

impl IconButtonVariant {
    /// The size the variant carries.
    pub fn get_button_size(&self) -> (r: &ButtonSize)
        ensures
            r == (match self {
                IconButtonVariant::Outlined(size) => size,
                IconButtonVariant::Filled(size) => size,
                IconButtonVariant::Text(size) => size,
            }),
    {
        match self {
            IconButtonVariant::Filled(size) => size,
            IconButtonVariant::Outlined(size) => size,
            IconButtonVariant::Text(size) => size,
        }
    }
}

} // verus!
