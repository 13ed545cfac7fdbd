//! Style families and font sizes shared by the interface.

use vstd::prelude::*;

verus! {

/// The general button style families.
#[derive(Clone, Copy, PartialEq, Eq, Structural, Debug)]
pub enum ButtonVariant {
    Container,
    Small,
    Medium,
    Large,
}

impl Default for ButtonVariant {
    /// The container style.
    fn default() -> (r: ButtonVariant)
        ensures
            r == ButtonVariant::Container,
    {
        ButtonVariant::Container
    }
}

/// The text roles of the interface.
#[derive(Clone, Copy, PartialEq, Eq, Structural, Debug)]
pub enum FontSize {
    Body,
    Caption,
    Header1,
    Tooltip,
}

impl FontSize {
    /// The point size of each text role, in whole pixels.
    pub fn pixels(&self) -> (r: u32)
        ensures
            r == (match self {
                FontSize::Body => 16u32,
                FontSize::Caption => 10u32,
                FontSize::Header1 => 24u32,
                FontSize::Tooltip => 12u32,
            }),
    {
        match self {
            FontSize::Body => 16,
            FontSize::Caption => 10,
            FontSize::Header1 => 24,
            FontSize::Tooltip => 12,
        }
    }
}

} // verus!
