//! How the trailing color tokens of vertex and face lines are read.
use vstd::prelude::*;

verus! {

/// The color formats a document may use.
#[derive(Copy, Clone, Debug, PartialEq, Eq, Structural)]
pub enum ColorFormat {
    /// Red, green and blue as decimals from 0 to 1.
    RGBFloat,
    /// Red, green, blue and alpha as decimals from 0 to 1.
    RGBAFloat,
    /// Red, green and blue as integers from 0 to 255.
    RGBInteger,
    /// Red, green, blue and alpha as integers from 0 to 255.
    RGBAInteger,
}

impl ColorFormat {
    /// Whether channels are written as decimals in the unit interval.
    pub open spec fn spec_is_float(self) -> bool {
        self is RGBFloat || self is RGBAFloat
    }

    /// Whether the format carries an alpha channel.
    pub open spec fn spec_has_alpha(self) -> bool {
        self is RGBAFloat || self is RGBAInteger
    }

    /// How many tokens one color takes.
    pub open spec fn spec_channel_count(self) -> nat {
        if self.spec_has_alpha() {
            4
        } else {
            3
        }
    }

    /// Returns whether the color format is a floating point format.
    pub fn is_float(&self) -> (r: bool)
        ensures
            r == self.spec_is_float(),
    {
        match self {
            ColorFormat::RGBFloat | ColorFormat::RGBAFloat => true,
            _ => false,
        }
    }

    /// Returns whether the color format is an integer format.
    pub fn is_integer(&self) -> (r: bool)
        ensures
            r == !self.spec_is_float(),
    {
        !self.is_float()
    }

    /// Returns whether the color format contains an alpha channel.
    pub fn has_alpha(&self) -> (r: bool)
        ensures
            r == self.spec_has_alpha(),
    {
        match self {
            ColorFormat::RGBAFloat | ColorFormat::RGBAInteger => true,
            _ => false,
        }
    }

    /// Returns the number of channels in the color format.
    pub fn channel_count(&self) -> (r: usize)
        ensures
            r == self.spec_channel_count(),
    {
        if self.has_alpha() {
            4
        } else {
            3
        }
    }
}

impl Default for ColorFormat {
    /// Red, green, blue and alpha as decimals.
    fn default() -> (r: Self)
        ensures
            r == ColorFormat::RGBAFloat,
    {
        ColorFormat::RGBAFloat
    }
}

} // verus!
