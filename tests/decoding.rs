use flif::chances::{ChanceTable, ChanceTableEntry, UpdateTable};
use flif::error::Error;
use flif::rac::Rac;
use flif::transform::Transformation;
use flif::{Decoder, Flif, Limits};

fn limits_512() -> Limits {
    Limits {
        metadata_chunk: 32,
        metadata_count: 8,
        pixels: 1 << 16,
        maniac_nodes: 512,
    }
}

#[test]
fn invalid_inputs_invalid_bytes_per_channel() {
    let bytes = [0x46, 0x4c, 0x49, 0x46, 0x44, 0x27, 0x46, 0x46];
    let decoder = Decoder::new(bytes.as_ref());
    match decoder {
        Err(Error::InvalidHeader {
            desc: "bytes per channel was not a valid value",
        }) => {}
        _ => panic!("expected an Error::InvalidHeader indicating bytes per channel was not valid"),
    }
}

#[test]
fn ycocg_stack_overflow() {
    let bytes = b"FLIF41\x02\x01\x00pr@\x015\xc6\xe3d\xbfct\x00i\x005FLI)F\xca\xcdi\x00r\x00\xfft\x11-FLIF12i\x00r\x00\xfft\x11\x00\xfft\x11-FLIF12i\x00r\x00\xfft\x11-le\x00FLI 11\xe3d\xbfct\x00i\xf9\xf9\x07\xff5\xff\x00\x00";
    let _ = Flif::decode_with_limits(bytes.as_ref(), limits_512()).map(|img| img.get_raw_pixels());
}

#[test]
fn memory_growth() {
    let bytes = b"FLIF11F\x00\x00\x00\x00\x00\x00\x00\x00\x00\x00\x00\x04\x00\x00\x00FLIF\x00\x00L\xc5XifI\x00\x00\x00\x00\x00\x00\x00\x00\x00\x00\x00\x00\x00\x00\x00\x00\x00FLIF\x00\x00\x00\x00\x00\x00\x00";
    match Flif::decode_with_limits(bytes.as_ref(), limits_512()) {
        Err(Error::InvalidOperation(ref message)) if message.contains("maniac") => {}
        Err(err) => panic!(
            "Expected an Error::InvalidOperation indicating the maniac tree was too large, got {:?}",
            err
        ),
        _ => panic!("Expected an Error::InvalidOperation indicating the maniac tree was too large, got a valid image instead"),
    }
}

#[test]
fn bad_magic_is_invalid_header() {
    assert!(matches!(Decoder::new(b"FLIX11\x00\x00\x00".as_ref()), Err(Error::InvalidHeader { desc: "file is corrupt or not a FLIF" })));
    assert!(matches!(Decoder::new(b"FL".as_ref()), Err(Error::UnexpectedEof)));
}

#[test]
fn bad_flag_nibbles_are_invalid_headers() {
    assert!(matches!(Decoder::new(b"FLIF\x21\x31\x00\x00\x00".as_ref()), Err(Error::InvalidHeader { desc: "interlacing/animation bits not valid" })));
    assert!(matches!(Decoder::new(b"FLIF\x32\x31\x00\x00\x00".as_ref()), Err(Error::InvalidHeader { desc: "invalid number of channels" })));
}

#[test]
fn required_metadata_byte_is_rejected() {
    assert!(matches!(Decoder::new(b"FLIF\x31\x31\x00\x00\x05".as_ref()), Err(Error::UnknownRequiredMetadata(5))));
}

#[test]
fn critical_metadata_tag_is_rejected() {
    assert!(matches!(Decoder::new(b"FLIF\x31\x31\x00\x00Abcd\x00".as_ref()), Err(Error::UnknownCriticalMetadata([0x41, 0x62, 0x63, 0x64]))));
}

#[test]
fn oversized_metadata_chunk_is_a_limit_violation() {
    let mut bytes = b"FLIF\x31\x31\x00\x00eXif".to_vec();
    bytes.push(0x40);
    bytes.extend(vec![0u8; 64]);
    assert!(matches!(Flif::decode_with_limits(&bytes, limits_512()), Err(Error::LimitViolation(_))));
}

#[test]
fn invalid_deflate_is_invalid_metadata() {
    let mut bytes = b"FLIF\x31\x31\x00\x00eXif".to_vec();
    bytes.push(0x02);
    bytes.extend([0xFF, 0xFF]);
    bytes.push(0);
    assert!(matches!(Decoder::new(&bytes), Err(Error::InvalidMetadata(_))));
}

#[test]
fn pixel_limit_is_enforced() {
    // width 301 and height 301 is more than 2^16 pixels
    let bytes = b"FLIF\x31\x31\x82\x2C\x82\x2C\x00\x00\x00\x00";
    assert!(matches!(Flif::decode_with_limits(bytes.as_ref(), limits_512()), Err(Error::LimitViolation(_))));
}

#[test]
fn interlaced_images_are_unimplemented() {
    let decoder = Decoder::new(b"FLIF\x41\x31\x00\x00\x00\x00\x00\x00\x00\x00".as_ref()).unwrap();
    assert!(decoder.info().header.interlaced);
    assert!(matches!(decoder.decode_image(), Err(Error::Unimplemented(_))));
}

#[test]
fn node_limit_stops_tree_growth() {
    // all-zero coder bytes make every tree node a property node
    let mut bytes = b"FLIF\x31\x31\x00\x00\x00".to_vec();
    bytes.extend(vec![0u8; 64]);
    let mut limits = limits_512();
    limits.maniac_nodes = 16;
    match Flif::decode_with_limits(&bytes, limits) {
        Err(Error::LimitViolation(ref message)) => assert!(message.contains("maniac")),
        other => panic!("expected a node limit violation, got {:?}", other.map(|f| f.into_raw())),
    }
}

#[test]
fn unknown_transformation_id_is_rejected() {
    // all-one coder bytes ask for a custom cutoff and then transformation 13
    let mut bytes = b"FLIF\x31\x31\x00\x00\x00".to_vec();
    bytes.extend(vec![0xFFu8; 16]);
    match Decoder::new(&bytes) {
        Err(Error::InvalidOperation(ref message)) => assert!(message.contains("transformation")),
        other => panic!("expected an invalid transformation, got {:?}", other.map(|d| d.info().header)),
    }
}

#[test]
fn transformation_ids() {
    assert_eq!(Transformation::from_id(0), Some(Transformation::ChannelCompact));
    assert_eq!(Transformation::from_id(1), Some(Transformation::YCoGg));
    assert_eq!(Transformation::from_id(2), None);
    assert_eq!(Transformation::from_id(4), Some(Transformation::Bounds));
    assert_eq!(Transformation::from_id(12), Some(Transformation::FrameLookback));
    assert_eq!(Transformation::from_id(13), None);
    assert_eq!(Transformation::Palette.name(), "Palette");
}

/// Writes bits with the chances a decoder's tables would use, mirroring its updates.
struct Encoder {
    rac: Rac,
    updates: UpdateTable,
}

impl Encoder {
    fn new() -> Encoder {
        Encoder { rac: Rac::from_writer(), updates: UpdateTable::new(19, 2) }
    }

    fn bit(&mut self, b: bool) {
        self.rac.write_bit(b);
    }

    fn entry(&mut self, table: &mut ChanceTable, entry: ChanceTableEntry, b: bool) {
        let chance = table.get_chance(entry);
        self.rac.write_chance(chance as u32, b);
        table.update_entry(b, entry, &self.updates);
    }

    /// Writes a non-negative `v` of `[0, max]` as the near-zero coder reads it.
    fn near_zero(&mut self, table: &mut ChanceTable, v: i32, max: i32) {
        if max == 0 {
            return;
        }
        if v == 0 {
            self.entry(table, ChanceTableEntry::Zero, true);
            return;
        }
        self.entry(table, ChanceTableEntry::Zero, false);
        let mut largest = 0u8;
        while (2i64 << largest) <= max as i64 {
            largest += 1;
        }
        let mut e = 0u8;
        while (2i64 << e) <= v as i64 {
            e += 1;
        }
        for k in 0..e {
            self.entry(table, ChanceTableEntry::Exp(k, true), false);
        }
        if e < largest {
            self.entry(table, ChanceTableEntry::Exp(e, true), true);
        }
        let mut have = 1i32 << e;
        for pos in (0..e).rev() {
            let one = have + (1 << pos);
            if one <= max {
                let b = v & (1 << pos) != 0;
                self.entry(table, ChanceTableEntry::Mant(pos), b);
                if b {
                    have = one;
                }
            }
        }
        assert_eq!(have, v);
    }

    /// Writes `v` of `[min, max]` as the near-zero coder reads it, shifting the interval
    /// to touch zero first.
    fn near_zero_signed(&mut self, table: &mut ChanceTable, v: i32, min: i32, max: i32) {
        let delta = if min > 0 { min } else if max < 0 { max } else { 0 };
        let (v, min, max) = (v - delta, min - delta, max - delta);
        if min == max {
            return;
        }
        if v == 0 {
            self.entry(table, ChanceTableEntry::Zero, true);
            return;
        }
        self.entry(table, ChanceTableEntry::Zero, false);
        let sign = v > 0;
        if min < 0 && max > 0 {
            self.entry(table, ChanceTableEntry::Sign, sign);
        }
        let amax = if sign { max } else { -min };
        let a = v.abs();
        let mut largest = 0u8;
        while (2i64 << largest) <= amax as i64 {
            largest += 1;
        }
        let mut e = 0u8;
        while (2i64 << e) <= a as i64 {
            e += 1;
        }
        for k in 0..e {
            self.entry(table, ChanceTableEntry::Exp(k, sign), false);
        }
        if e < largest {
            self.entry(table, ChanceTableEntry::Exp(e, sign), true);
        }
        let mut have = 1i32 << e;
        for pos in (0..e).rev() {
            let one = have + (1 << pos);
            if one <= amax {
                let b = a & (1 << pos) != 0;
                self.entry(table, ChanceTableEntry::Mant(pos), b);
                if b {
                    have = one;
                }
            }
        }
        assert_eq!(have, a);
    }

    fn finish(mut self) -> Vec<u8> {
        self.rac.flush();
        self.rac.into_bytes()
    }
}

/// A one-pixel grey image whose value is `v`: no transformation, a root leaf and the
/// value coded against the guess zero.
fn one_grey_pixel(v: i32) -> Vec<u8> {
    let mut enc = Encoder::new();
    enc.bit(false); // no custom cutoff
    enc.bit(false); // no transformation
    let mut property = ChanceTable::new();
    enc.near_zero(&mut property, 0, 7); // the root is a leaf
    let mut leaf = ChanceTable::new();
    enc.near_zero(&mut leaf, v, 255);
    let mut bytes = b"FLIF\x31\x31\x00\x00\x00".to_vec();
    bytes.extend(enc.finish());
    bytes
}

#[test]
fn decodes_one_grey_pixel() {
    for &v in [0, 1, 5, 77, 128, 255].iter() {
        let image = Flif::decode(&one_grey_pixel(v)).unwrap();
        assert_eq!(image.info().header.width, 1);
        assert_eq!(image.info().header.height, 1);
        assert_eq!(image.raw().len(), 1);
        assert_eq!(image.into_raw(), vec![v as u8]);
    }
}

#[test]
fn raw_size_matches_dimensions() {
    // 3 x 2 grey image of zeros: a root leaf, then every pixel coded as "zero"
    let mut enc = Encoder::new();
    enc.bit(false);
    enc.bit(false);
    let mut property = ChanceTable::new();
    enc.near_zero(&mut property, 0, 7);
    let mut leaf = ChanceTable::new();
    for _ in 0..6 {
        enc.near_zero(&mut leaf, 0, 255);
    }
    let mut bytes = b"FLIF\x31\x31\x02\x01\x00".to_vec();
    bytes.extend(enc.finish());
    let image = Flif::decode(&bytes).unwrap();
    assert_eq!(image.info().header.width, 3);
    assert_eq!(image.info().header.height, 2);
    assert_eq!(image.get_raw_pixels(), vec![0u8; 6]);
}

#[test]
fn singleton_channel_needs_no_tree() {
    // Bounds narrows grey to [9, 9]: no tree is read and every pixel is 9
    let mut enc = Encoder::new();
    enc.bit(false); // no custom cutoff
    enc.bit(true); // a transformation follows
    // identifier 4 over [0, 13]: binary search bits
    let (mut lo, mut hi) = (0u32, 13u32);
    while lo != hi {
        let mid = lo + (hi - lo) / 2;
        let up = 4 > mid;
        enc.bit(up);
        if up { lo = mid + 1 } else { hi = mid }
    }
    let mut ctx = ChanceTable::new();
    enc.near_zero(&mut ctx, 9, 255); // min
    enc.near_zero(&mut ctx, 0, 246); // max - min, shifted to start at zero
    enc.bit(false); // no more transformations
    let mut bytes = b"FLIF\x31\x31\x01\x01\x00".to_vec();
    bytes.extend(enc.finish());
    let decoder = Decoder::new(&bytes).unwrap();
    assert_eq!(decoder.info().second_header.transformations, vec![Transformation::Bounds]);
    let image = decoder.decode_image().unwrap();
    assert_eq!(image.into_raw(), vec![9u8; 4]);
}

#[test]
fn unimplemented_transformation_is_named() {
    let mut enc = Encoder::new();
    enc.bit(false); // no custom cutoff
    enc.bit(true); // a transformation follows
    let (mut lo, mut hi) = (0u32, 13u32);
    while lo != hi {
        let mid = lo + (hi - lo) / 2;
        let up = 6 > mid;
        enc.bit(up);
        if up { lo = mid + 1 } else { hi = mid }
    }
    let mut bytes = b"FLIF\x31\x31\x01\x01\x00".to_vec();
    bytes.extend(enc.finish());
    match Decoder::new(&bytes) {
        Err(Error::UnimplementedTransformation(ref name)) => assert_eq!(name, "Palette"),
        _ => panic!("expected an unimplemented transformation"),
    }
}

#[test]
fn decodes_rgba_pixels_in_channel_order() {
    // 2 x 1 RGBA, no transformation, every tree a single leaf; channels are decoded
    // alpha first, and the second pixel is predicted from its left neighbour
    let pixels = [[10, 20, 30, 40], [12, 18, 30, 0]];
    let mut enc = Encoder::new();
    enc.bit(false); // alpha zero flag
    enc.bit(false); // no custom cutoff
    enc.bit(false); // no transformation
    // the trees, in decoding order: alpha, red, green, blue
    for &properties in [7, 8, 9, 10].iter() {
        let mut ctx = ChanceTable::new();
        enc.near_zero_signed(&mut ctx, 0, 0, properties);
    }
    for &channel in [3usize, 0, 1, 2].iter() {
        let mut leaf = ChanceTable::new();
        let mut left: Option<i32> = None;
        for p in pixels.iter() {
            let v = p[channel];
            let guess = left.unwrap_or(0);
            enc.near_zero_signed(&mut leaf, v - guess, -guess, 255 - guess);
            left = Some(v);
        }
    }
    let mut bytes = b"FLIF\x34\x31\x01\x00\x00".to_vec();
    bytes.extend(enc.finish());
    let image = Flif::decode(&bytes).unwrap();
    assert_eq!(image.info().header.width, 2);
    assert_eq!(image.info().header.height, 1);
    assert_eq!(image.into_raw(), vec![10, 20, 30, 40, 12, 18, 30, 0]);
}

#[test]
fn decoding_image_accessors() {
    let decoder = Decoder::new(&one_grey_pixel(5)).unwrap();
    let mut image = flif::image::DecodingImage::new(decoder.info()).unwrap();
    assert_eq!(image.get_val(0, 0, flif::pixels::Channel::Red), 0);
    image.set_val(0, 0, flif::pixels::Channel::Red, 7);
    assert_eq!(image.get_val(0, 0, flif::pixels::Channel::Red), 7);
    assert_eq!(image.get_val(0, 0, flif::pixels::Channel::Green), 0);
}
