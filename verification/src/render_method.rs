use vstd::prelude::*;

verus! {

/// How an image is drawn in the terminal.
#[derive(Debug, Clone, Copy, PartialEq, Eq, Structural)]
pub enum RenderMethod {
    HalfBlock,
    Ascii,
    Sixel,
}

/// The methods in the order in which the picker lists them.
pub open spec fn all_methods() -> Seq<RenderMethod> {
    seq![RenderMethod::HalfBlock, RenderMethod::Ascii, RenderMethod::Sixel]
}

impl RenderMethod {
    /// Every render method, in the order in which the picker lists them.
    pub fn all() -> (r: &'static [RenderMethod])
        ensures
            r@ == all_methods(),
    {
        &[RenderMethod::HalfBlock, RenderMethod::Ascii, RenderMethod::Sixel]
    }

    /// The short name shown in the status bar and in the picker.
    pub fn label(&self) -> (r: &'static str)
        ensures
            *self == RenderMethod::HalfBlock ==> r@ == "Half-Block (▀)"@,
            *self == RenderMethod::Ascii ==> r@ == "ASCII Art"@,
            *self == RenderMethod::Sixel ==> r@ == "Sixel Graphics"@,
    {
        match self {
            RenderMethod::HalfBlock => "Half-Block (▀)",
            RenderMethod::Ascii => "ASCII Art",
            RenderMethod::Sixel => "Sixel Graphics",
        }
    }

    /// The line that explains the method in the picker.
    pub fn description(&self) -> (r: &'static str)
        ensures
            *self == RenderMethod::HalfBlock ==> r@ == "Full color using ▀ characters with ANSI fg/bg"@,
            *self == RenderMethod::Ascii ==> r@ == "Grayscale characters mapped by brightness"@,
            *self == RenderMethod::Sixel ==> r@
                == "Pixel-perfect via Sixel escape sequences (requires terminal support)"@,
    {
        match self {
            RenderMethod::HalfBlock => "Full color using ▀ characters with ANSI fg/bg",
            RenderMethod::Ascii => "Grayscale characters mapped by brightness",
            RenderMethod::Sixel => {
                "Pixel-perfect via Sixel escape sequences (requires terminal support)"
            },
        }
    }
}

} // verus!
