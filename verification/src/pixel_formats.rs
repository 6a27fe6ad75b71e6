//! Plain 8-bit-per-channel pixel layouts.
use vstd::prelude::*;

verus! {

/// Red/Green/Blue/Alpha, u8 per channel.
#[derive(Debug, Clone, Copy, Default, PartialEq, Eq, Structural, PartialOrd, Ord, Hash)]
pub struct RGBA8888 {
    pub r: u8,
    pub g: u8,
    pub b: u8,
    pub a: u8,
}

/// Alpha/Red/Green/Blue, u8 per channel.
#[derive(Debug, Clone, Copy, Default, PartialEq, Eq, Structural, PartialOrd, Ord, Hash)]
pub struct ARGB8888 {
    pub a: u8,
    pub r: u8,
    pub g: u8,
    pub b: u8,
}

/// Alpha/Blue/Green/Red, u8 per channel.
#[derive(Debug, Clone, Copy, Default, PartialEq, Eq, Structural, PartialOrd, Ord, Hash)]
pub struct ABGR8888 {
    pub a: u8,
    pub b: u8,
    pub g: u8,
    pub r: u8,
}

/// Ignored/Red/Green/Blue, u8 per channel.
#[derive(Debug, Clone, Copy, Default, PartialEq, Eq, Structural, PartialOrd, Ord, Hash)]
pub struct XRGB8888 {
    pub x: u8,
    pub r: u8,
    pub g: u8,
    pub b: u8,
}

/// Ignored/Blue/Green/Red, u8 per channel.
#[derive(Debug, Clone, Copy, Default, PartialEq, Eq, Structural, PartialOrd, Ord, Hash)]
pub struct XBGR8888 {
    pub x: u8,
    pub b: u8,
    pub g: u8,
    pub r: u8,
}

/// Red/Green/Blue, u8 per channel.
#[derive(Debug, Clone, Copy, Default, PartialEq, Eq, Structural, PartialOrd, Ord, Hash)]
pub struct RGB888 {
    pub r: u8,
    pub g: u8,
    pub b: u8,
}

impl From<RGBA8888> for ARGB8888 {
    fn from(p: RGBA8888) -> (out: Self) {
        ARGB8888 { a: p.a, r: p.r, g: p.g, b: p.b }
    }
}

impl vstd::std_specs::convert::FromSpecImpl<RGBA8888> for ARGB8888 {
    open spec fn obeys_from_spec() -> bool {
        true
    }

    open spec fn from_spec(p: RGBA8888) -> ARGB8888 {
        ARGB8888 { a: p.a, r: p.r, g: p.g, b: p.b }
    }
}

impl From<RGBA8888> for ABGR8888 {
    fn from(p: RGBA8888) -> (out: Self) {
        ABGR8888 { a: p.a, b: p.b, g: p.g, r: p.r }
    }
}

impl vstd::std_specs::convert::FromSpecImpl<RGBA8888> for ABGR8888 {
    open spec fn obeys_from_spec() -> bool {
        true
    }

    open spec fn from_spec(p: RGBA8888) -> ABGR8888 {
        ABGR8888 { a: p.a, b: p.b, g: p.g, r: p.r }
    }
}

impl From<RGBA8888> for XRGB8888 {
    fn from(p: RGBA8888) -> (out: Self) {
        XRGB8888 { x: p.a, r: p.r, g: p.g, b: p.b }
    }
}

impl vstd::std_specs::convert::FromSpecImpl<RGBA8888> for XRGB8888 {
    open spec fn obeys_from_spec() -> bool {
        true
    }

    open spec fn from_spec(p: RGBA8888) -> XRGB8888 {
        XRGB8888 { x: p.a, r: p.r, g: p.g, b: p.b }
    }
}

impl From<RGBA8888> for XBGR8888 {
    fn from(p: RGBA8888) -> (out: Self) {
        XBGR8888 { x: p.a, b: p.b, g: p.g, r: p.r }
    }
}

impl vstd::std_specs::convert::FromSpecImpl<RGBA8888> for XBGR8888 {
    open spec fn obeys_from_spec() -> bool {
        true
    }

    open spec fn from_spec(p: RGBA8888) -> XBGR8888 {
        XBGR8888 { x: p.a, b: p.b, g: p.g, r: p.r }
    }
}

} // verus!
