use vstd::prelude::*;

verus! {

/// A decoded channel value. Eight-bit sources and their transformed forms fit in it.
pub type ColorValue = i16;

/// The channels an image carries.
#[derive(Clone, Copy, Debug, PartialEq, Eq, Structural)]
pub enum ColorSpace {
    Monochrome,
    RGB,
    RGBA,
}

impl ColorSpace {
    /// The number of channels of the colour space.
    pub open spec fn count(self) -> nat {
        match self {
            ColorSpace::Monochrome => 1,
            ColorSpace::RGB => 3,
            ColorSpace::RGBA => 4,
        }
    }

    pub fn num_channels(&self) -> (r: usize)
        ensures
            r == self.count(),
    {
        match self {
            ColorSpace::Monochrome => 1,
            ColorSpace::RGB => 3,
            ColorSpace::RGBA => 4,
        }
    }

    /// Whether the colour space holds `c`.
    pub open spec fn has(self, c: Channel) -> bool {
        c.index() < self.count()
    }
}

/// One channel of a pixel.
#[derive(Clone, Copy, Debug, PartialEq, Eq, Structural)]
pub enum Channel {
    Red,
    Green,
    Blue,
    Alpha,
}

impl Channel {
    /// The position of the channel in colour-space order.
    pub open spec fn index(self) -> nat {
        match self {
            Channel::Red => 0,
            Channel::Green => 1,
            Channel::Blue => 2,
            Channel::Alpha => 3,
        }
    }

    pub fn as_index(&self) -> (r: usize)
        ensures
            r == self.index(),
    {
        match self {
            Channel::Red => 0,
            Channel::Green => 1,
            Channel::Blue => 2,
            Channel::Alpha => 3,
        }
    }

    /// The channel at position `i` of colour-space order.
    pub open spec fn from_index_spec(i: nat) -> Channel {
        if i == 0 {
            Channel::Red
        } else if i == 1 {
            Channel::Green
        } else if i == 2 {
            Channel::Blue
        } else {
            Channel::Alpha
        }
    }

    pub fn from_index(i: usize) -> (r: Channel)
        requires
            i < 4,
        ensures
            r == Self::from_index_spec(i as nat),
            r.index() == i,
    {
        if i == 0 {
            Channel::Red
        } else if i == 1 {
            Channel::Green
        } else if i == 2 {
            Channel::Blue
        } else {
            Channel::Alpha
        }
    }
}

/// A pixel: one value per channel. Channels the image lacks hold zero.
#[derive(Clone, Copy, Debug, PartialEq, Eq, Structural, Default)]
pub struct Rgba {
    pub red: ColorValue,
    pub green: ColorValue,
    pub blue: ColorValue,
    pub alpha: ColorValue,
}

impl Rgba {
    pub open spec fn value(self, c: Channel) -> ColorValue {
        match c {
            Channel::Red => self.red,
            Channel::Green => self.green,
            Channel::Blue => self.blue,
            Channel::Alpha => self.alpha,
        }
    }

    pub fn zero() -> (r: Rgba)
        ensures
            r.red == 0 && r.green == 0 && r.blue == 0 && r.alpha == 0,
    {
        Rgba { red: 0, green: 0, blue: 0, alpha: 0 }
    }

    pub fn get(&self, c: Channel) -> (r: ColorValue)
        ensures
            r == self.value(c),
    {
        match c {
            Channel::Red => self.red,
            Channel::Green => self.green,
            Channel::Blue => self.blue,
            Channel::Alpha => self.alpha,
        }
    }

    /// Whether the alpha channel of an image with alpha is zero; always false otherwise.
    pub fn is_alpha_zero(&self, space: ColorSpace) -> (r: bool)
        ensures
            r == (space == ColorSpace::RGBA && self.alpha == 0),
    {
        space == ColorSpace::RGBA && self.alpha == 0
    }

    /// Red, as a property of green and blue.
    pub fn red_pvec(&self, c: Channel) -> (r: Option<i32>)
        ensures
            r == (if c == Channel::Green || c == Channel::Blue { Some(self.red as i32) } else { None::<i32> }),
    {
        if c == Channel::Green || c == Channel::Blue { Some(self.red as i32) } else { None }
    }

    /// Green, as a property of blue.
    pub fn green_pvec(&self, c: Channel) -> (r: Option<i32>)
        ensures
            r == (if c == Channel::Blue { Some(self.green as i32) } else { None::<i32> }),
    {
        if c == Channel::Blue { Some(self.green as i32) } else { None }
    }

    /// Alpha, as a property of the colours of an image with alpha.
    pub fn alpha_pvec(&self, c: Channel, space: ColorSpace) -> (r: Option<i32>)
        ensures
            r == (if c != Channel::Alpha && space == ColorSpace::RGBA { Some(self.alpha as i32) } else { None::<i32> }),
    {
        if c != Channel::Alpha && space == ColorSpace::RGBA { Some(self.alpha as i32) } else { None }
    }

    pub fn set(&mut self, c: Channel, v: ColorValue)
        ensures
            final(self).value(c) == v,
            forall|d: Channel| d != c ==> final(self).value(d) == old(self).value(d),
    {
        match c {
            Channel::Red => self.red = v,
            Channel::Green => self.green = v,
            Channel::Blue => self.blue = v,
            Channel::Alpha => self.alpha = v,
        }
    }
}

} // verus!
