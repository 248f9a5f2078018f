//! Surface options: the per-surface flag set (opaque, depth, stencil).
//!
//! The flags are carried as three booleans; `bits`/`from_bits` give the
//! packed encoding (`OPAQUE = 0x01`, `DEPTH = 0x02`, `STENCIL = 0x04`)
//! used at the external interface.

use vstd::prelude::*;

verus! {

/// The packed bit for the opaque flag.
pub const OPAQUE_BIT: u8 = 0x01;

/// The packed bit for the depth flag.
pub const DEPTH_BIT: u8 = 0x02;

/// The packed bit for the stencil flag.
pub const STENCIL_BIT: u8 = 0x04;

/// Options of a surface layer: whether its content is fully opaque, and
/// whether its framebuffer needs a depth or a stencil attachment.
#[derive(Clone, Copy, PartialEq, Eq, Structural, Debug)]
pub struct SurfaceOptions {
    pub opaque: bool,
    pub depth: bool,
    pub stencil: bool,
}

impl SurfaceOptions {
    /// The packed encoding of the flags.
    pub open spec fn spec_bits(self) -> u8 {
        ((if self.opaque {
            1int
        } else {
            0int
        }) + (if self.depth {
            2int
        } else {
            0int
        }) + (if self.stencil {
            4int
        } else {
            0int
        })) as u8
    }

    /// No flag set.
    pub fn empty() -> (r: SurfaceOptions)
        ensures
            r == (SurfaceOptions { opaque: false, depth: false, stencil: false }),
    {
        SurfaceOptions { opaque: false, depth: false, stencil: false }
    }

    /// The packed encoding of the flags.
    pub fn bits(&self) -> (r: u8)
        ensures
            r == self.spec_bits(),
    {
        (if self.opaque {
            1u8
        } else {
            0u8
        }) + (if self.depth {
            2u8
        } else {
            0u8
        }) + (if self.stencil {
            4u8
        } else {
            0u8
        })
    }

    /// Decodes the packed encoding; bits beyond the three flags are ignored.
    pub fn from_bits(bits: u8) -> (r: SurfaceOptions)
        ensures
            r.opaque == (bits & OPAQUE_BIT != 0),
            r.depth == (bits & DEPTH_BIT != 0),
            r.stencil == (bits & STENCIL_BIT != 0),
    {
        SurfaceOptions {
            opaque: bits & OPAQUE_BIT != 0,
            depth: bits & DEPTH_BIT != 0,
            stencil: bits & STENCIL_BIT != 0,
        }
    }
}

/// Packing the flags and decoding them again yields the original flags.
pub proof fn lemma_bits_roundtrip(o: SurfaceOptions)
    ensures
        o.spec_bits() & OPAQUE_BIT != 0 <==> o.opaque,
        o.spec_bits() & DEPTH_BIT != 0 <==> o.depth,
        o.spec_bits() & STENCIL_BIT != 0 <==> o.stencil,
{
    let a: u8 = if o.opaque {
        1
    } else {
        0
    };
    let b: u8 = if o.depth {
        1
    } else {
        0
    };
    let c: u8 = if o.stencil {
        1
    } else {
        0
    };
    assert(a <= 1 && b <= 1 && c <= 1 ==> {
        &&& ((a + 2 * b + 4 * c) as u8 & 1 != 0 <==> a == 1)
        &&& ((a + 2 * b + 4 * c) as u8 & 2 != 0 <==> b == 1)
        &&& ((a + 2 * b + 4 * c) as u8 & 4 != 0 <==> c == 1)
    }) by (bit_vector);
}

} // verus!
