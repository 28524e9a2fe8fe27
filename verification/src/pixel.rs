//! Pixels and their three colour channels.
use vstd::prelude::*;

verus! {

/// One of the three colour channels of a pixel. In channel-split addressing
/// each channel is one page of the volume: red is page 0, green page 1 and
/// blue page 2.
#[derive(Clone, Copy, Debug, PartialEq, Eq, Structural)]
pub enum Channel {
    Red,
    Green,
    Blue,
}

impl Channel {
    /// The number of the page that this channel backs.
    pub open spec fn page(self) -> int {
        match self {
            Channel::Red => 0,
            Channel::Green => 1,
            Channel::Blue => 2,
        }
    }

    /// The channel that backs page `page`; pages above 2 do not exist.
    pub open spec fn of_page(page: int) -> Channel {
        if page == 0 {
            Channel::Red
        } else if page == 1 {
            Channel::Green
        } else {
            Channel::Blue
        }
    }

    /// The channel behind page `page`, if there is such a page.
    pub fn from_page(page: u64) -> (c: Option<Channel>)
        ensures
            page < 3 <==> c is Some,
            c matches Some(ch) ==> ch == Channel::of_page(page as int) && ch.page() == page,
    {
        if page == 0 {
            Some(Channel::Red)
        } else if page == 1 {
            Some(Channel::Green)
        } else if page == 2 {
            Some(Channel::Blue)
        } else {
            None
        }
    }

    /// The number of the page that this channel backs.
    pub fn index(self) -> (page: u64)
        ensures
            page == self.page(),
    {
        match self {
            Channel::Red => 0,
            Channel::Green => 1,
            Channel::Blue => 2,
        }
    }
}

/// An RGB pixel with 8 bits per channel.
#[derive(Clone, Copy, Debug, PartialEq, Eq, Structural)]
pub struct Pixel {
    pub r: u8,
    pub g: u8,
    pub b: u8,
}

impl Pixel {
    /// The value of channel `c`.
    pub open spec fn channel(self, c: Channel) -> u8 {
        match c {
            Channel::Red => self.r,
            Channel::Green => self.g,
            Channel::Blue => self.b,
        }
    }

    /// This pixel with channel `c` replaced by `v`.
    pub open spec fn with_channel(self, c: Channel, v: u8) -> Pixel {
        match c {
            Channel::Red => Pixel { r: v, g: self.g, b: self.b },
            Channel::Green => Pixel { r: self.r, g: v, b: self.b },
            Channel::Blue => Pixel { r: self.r, g: self.g, b: v },
        }
    }

    /// The grey pixel whose three channels all hold `v`.
    pub open spec fn gray(v: u8) -> Pixel {
        Pixel { r: v, g: v, b: v }
    }

    /// The black pixel, which a blank raster is filled with.
    pub open spec fn black() -> Pixel {
        Pixel { r: 0, g: 0, b: 0 }
    }

    /// Reads channel `c`.
    pub fn get(&self, c: Channel) -> (v: u8)
        ensures
            v == self.channel(c),
    {
        match c {
            Channel::Red => self.r,
            Channel::Green => self.g,
            Channel::Blue => self.b,
        }
    }

    /// Overwrites channel `c` with `v` and leaves the other two alone.
    pub fn set(&mut self, c: Channel, v: u8)
        ensures
            *final(self) == old(self).with_channel(c, v),
    {
        match c {
            Channel::Red => self.r = v,
            Channel::Green => self.g = v,
            Channel::Blue => self.b = v,
        }
    }

    /// Builds the grey pixel whose three channels all hold `v`.
    pub fn splat(v: u8) -> (p: Pixel)
        ensures
            p == Pixel::gray(v),
    {
        Pixel { r: v, g: v, b: v }
    }
}

} // verus!
