use flif::error::Error;
use flif::pixels::{Channel, ColorSpace, Rgba};
use flif::transform::{Bounds, ChannelCompact, ColorRange, TransformChain, TransformStep, YCoGg};
use flif::Decoder;

fn ycocg_chain() -> TransformChain {
    let chain = TransformChain::new();
    let ycocg = YCoGg::new(&chain, ColorSpace::RGB).unwrap();
    TransformChain { steps: vec![TransformStep::YCoGg(ycocg)] }
}

fn px(red: i16, green: i16, blue: i16, alpha: i16) -> Rgba {
    Rgba { red, green, blue, alpha }
}

#[test]
fn untransformed_range_is_eight_bits() {
    let chain = TransformChain::new();
    assert_eq!(chain.range(Channel::Green), ColorRange { min: 0, max: 255 });
    assert_eq!(chain.crange(Channel::Blue, px(1, 2, 3, 4)), ColorRange { min: 0, max: 255 });
    assert_eq!(chain.undo(px(1, 2, 3, 4)), Some(px(1, 2, 3, 4)));
}

#[test]
fn ycocg_ranges() {
    let chain = ycocg_chain();
    assert_eq!(chain.range(Channel::Red), ColorRange { min: 0, max: 255 });
    assert_eq!(chain.range(Channel::Green), ColorRange { min: -255, max: 255 });
    assert_eq!(chain.range(Channel::Blue), ColorRange { min: -255, max: 255 });
    assert_eq!(chain.range(Channel::Alpha), ColorRange { min: 0, max: 255 });
    assert!(YCoGg::new(&TransformChain::new(), ColorSpace::Monochrome).is_err());
}

#[test]
fn ycocg_expands_to_three_modulo_four() {
    let bounds = Bounds { ranges: vec![ColorRange { min: 0, max: 100 }; 4] };
    let chain = TransformChain { steps: vec![TransformStep::Bounds(bounds)] };
    let ycocg = YCoGg::new(&chain, ColorSpace::RGB).unwrap();
    assert_eq!(ycocg.max, 103);
}

#[test]
fn ycocg_conditional_ranges() {
    let chain = ycocg_chain();
    // low luma: chroma-orange within 3 + 4y
    assert_eq!(chain.crange(Channel::Green, px(10, 0, 0, 0)), ColorRange { min: -43, max: 43 });
    // low luma: chroma-green bounds depend on |co|
    assert_eq!(chain.crange(Channel::Blue, px(10, 5, 0, 0)), ColorRange { min: -21, max: 17 });
    // middle luma: the full chroma-orange range
    assert_eq!(chain.crange(Channel::Green, px(100, 0, 0, 0)), ColorRange { min: -255, max: 255 });
    // high luma
    assert_eq!(chain.crange(Channel::Green, px(250, 0, 0, 0)), ColorRange { min: -20, max: 20 });
    assert_eq!(chain.crange(Channel::Blue, px(250, 3, 0, 0)), ColorRange { min: -6, max: 10 });
    // luma itself is unconditional
    assert_eq!(chain.crange(Channel::Red, px(7, 7, 7, 7)), ColorRange { min: 0, max: 255 });
}

#[test]
fn ycocg_undo_formulas() {
    let chain = ycocg_chain();
    assert_eq!(chain.undo(px(100, 10, -20, 77)), Some(px(115, 90, 105, 77)));
    assert_eq!(chain.undo(px(0, 0, 0, 0)), Some(px(0, 0, 0, 0)));
    // odd negative values use arithmetic shifts
    assert_eq!(chain.undo(px(50, -7, -3, 1)), Some(px(49, 49, 56, 1)));
}

#[test]
fn snap_clamps_into_conditional_range() {
    let chain = ycocg_chain();
    let p = px(10, 0, 0, 0);
    assert_eq!(chain.snap(Channel::Green, p, 100), 43);
    assert_eq!(chain.snap(Channel::Green, p, -100), -43);
    assert_eq!(chain.snap(Channel::Green, p, 5), 5);
}

#[test]
fn bounds_intersect_with_previous_crange() {
    let mut ranges = vec![ColorRange { min: 0, max: 255 }; 4];
    ranges[1] = ColorRange { min: -30, max: 200 };
    ranges[2] = ColorRange { min: 100, max: 120 };
    let ycocg = YCoGg::new(&TransformChain::new(), ColorSpace::RGB).unwrap();
    let chain = TransformChain {
        steps: vec![TransformStep::YCoGg(ycocg), TransformStep::Bounds(Bounds { ranges })],
    };
    // [-43, 43] meets [-30, 200]
    assert_eq!(chain.crange(Channel::Green, px(10, 0, 0, 0)), ColorRange { min: -30, max: 43 });
    // [-21, 17] misses [100, 120]: the recorded bounds stand
    assert_eq!(chain.crange(Channel::Blue, px(10, 5, 0, 0)), ColorRange { min: 100, max: 120 });
    assert_eq!(chain.range(Channel::Blue), ColorRange { min: 100, max: 120 });
}

#[test]
fn channel_compact_undo_looks_values_up() {
    let compact = ChannelCompact {
        ranges: vec![ColorRange { min: 0, max: 2 }, ColorRange { min: 0, max: 0 }, ColorRange { min: 0, max: 0 }, ColorRange { min: 0, max: 0 }],
        decompacted: vec![vec![3, 80, 200], vec![], vec![], vec![]],
        channels: ColorSpace::Monochrome,
    };
    let chain = TransformChain { steps: vec![TransformStep::ChannelCompact(compact)] };
    assert_eq!(chain.range(Channel::Red), ColorRange { min: 0, max: 2 });
    assert_eq!(chain.undo(px(1, 0, 0, 0)), Some(px(80, 0, 0, 0)));
    assert_eq!(chain.undo(px(2, 0, 0, 0)), Some(px(200, 0, 0, 0)));
    assert_eq!(chain.undo(px(3, 0, 0, 0)), None);
    assert_eq!(chain.undo(px(-1, 0, 0, 0)), None);
}

#[test]
fn metadata_is_inflated() {
    // a stored DEFLATE block holding "abc"
    let mut bytes = b"FLIF\x31\x31\x00\x00eXif\x08".to_vec();
    bytes.extend([0x01, 0x03, 0x00, 0xFC, 0xFF, b'a', b'b', b'c']);
    bytes.push(0);
    bytes.extend([0u8; 8]);
    let decoder = Decoder::new(&bytes).unwrap();
    let metadata = &decoder.info().metadata;
    assert_eq!(metadata.len(), 1);
    assert_eq!(metadata[0].content, b"abc".to_vec());
    assert!(matches!(metadata[0].chunk_type, flif::metadata::ChunkType::Exif));
}

#[test]
fn too_many_metadata_chunks() {
    let mut bytes = b"FLIF\x31\x31\x00\x00".to_vec();
    for _ in 0..10 {
        bytes.extend(b"zzzz\x05");
        bytes.extend([0x01, 0x00, 0x00, 0xFF, 0xFF]);
    }
    bytes.push(0);
    bytes.extend([0u8; 8]);
    match Decoder::new(&bytes) {
        Err(Error::LimitViolation(ref m)) => assert!(m.contains("metadata")),
        _ => panic!("expected a metadata count violation"),
    }
}

#[test]
fn error_descriptions() {
    assert_eq!(Error::InvalidVarint.description(), "reader did not contain a varint, or varint was too large to store");
    assert_eq!(Error::InvalidHeader { desc: "x" }.description(), "x");
}
