use planeshift::surface::{SurfaceOptions, DEPTH_BIT, OPAQUE_BIT, STENCIL_BIT};

#[test]
fn empty_has_no_flags() {
    let o = SurfaceOptions::empty();
    assert!(!o.opaque && !o.depth && !o.stencil);
    assert_eq!(o.bits(), 0);
}

#[test]
fn bits_match_documented_values() {
    assert_eq!(OPAQUE_BIT, 0x01);
    assert_eq!(DEPTH_BIT, 0x02);
    assert_eq!(STENCIL_BIT, 0x04);
    let opaque = SurfaceOptions { opaque: true, depth: false, stencil: false };
    let depth = SurfaceOptions { opaque: false, depth: true, stencil: false };
    let stencil = SurfaceOptions { opaque: false, depth: false, stencil: true };
    let all = SurfaceOptions { opaque: true, depth: true, stencil: true };
    assert_eq!(opaque.bits(), 0x01);
    assert_eq!(depth.bits(), 0x02);
    assert_eq!(stencil.bits(), 0x04);
    assert_eq!(all.bits(), 0x07);
}

#[test]
fn from_bits_roundtrips_every_combination() {
    for bits in 0u8..8 {
        let o = SurfaceOptions::from_bits(bits);
        assert_eq!(o.bits(), bits);
    }
}

#[test]
fn from_bits_ignores_unknown_bits() {
    let o = SurfaceOptions::from_bits(0xF9);
    assert!(o.opaque && !o.depth && !o.stencil);
}
