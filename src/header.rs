use vstd::prelude::*;

use crate::chances::UpdateTable;
use crate::error::{Error, Result};
use crate::pixels::ColorSpace;
use crate::rac::{decode_step, Rac, RacState};
use crate::symbol::uniform_spec;
use crate::reader::{parse_varint, ByteReader, VarintParse};
use crate::transform::{first_step_ok, load_transformations, names_steps, TransformChain, Transformation, MAX_TRANSFORMS};
use crate::Limits;

verus! {

/// The size of a channel value.
#[derive(Clone, Copy, Debug, PartialEq, Eq, Structural)]
pub enum BytesPerChannel {
    Custom,
    One,
    Two,
}

/// The first header of a FLIF file.
#[derive(Clone, Copy, Debug, PartialEq, Eq, Structural)]
pub struct Header {
    pub interlaced: bool,
    pub channels: ColorSpace,
    pub bytes_per_channel: BytesPerChannel,
    pub width: u32,
    pub height: u32,
    pub num_frames: u32,
}

/// The bytes `FLIF` stand at position `p` of `s`.
pub open spec fn magic_at(s: Seq<u8>, p: int) -> bool {
    &&& 0 <= p && p + 4 <= s.len()
    &&& s[p] == 0x46 && s[p + 1] == 0x4C && s[p + 2] == 0x49 && s[p + 3] == 0x46
}

/// The colour space a flag byte names, if any.
pub open spec fn channels_of_flags(flags: u8) -> Option<ColorSpace> {
    let n = flags % 16;
    if n == 1 { Some(ColorSpace::Monochrome) }
    else if n == 3 { Some(ColorSpace::RGB) }
    else if n == 4 { Some(ColorSpace::RGBA) }
    else { None }
}

/// Whether the high nibble of a flag byte is one of the four known kinds.
pub open spec fn kind_ok(flags: u8) -> bool {
    3 <= flags / 16 <= 6
}

/// Interlacing per the high nibble: 4 and 6 are interlaced.
pub open spec fn interlaced_of_flags(flags: u8) -> bool {
    flags / 16 == 4 || flags / 16 == 6
}

/// Animation per the high nibble: 5 and 6 are animated.
pub open spec fn animated_of_flags(flags: u8) -> bool {
    flags / 16 == 5 || flags / 16 == 6
}

/// The bytes-per-channel digit.
pub open spec fn bpc_of(b: u8) -> Option<BytesPerChannel> {
    if b == 0x30 { Some(BytesPerChannel::Custom) }
    else if b == 0x31 { Some(BytesPerChannel::One) }
    else if b == 0x32 { Some(BytesPerChannel::Two) }
    else { None }
}

/// The number of pixels of all frames.
pub open spec fn pixel_count(width: int, height: int, frames: int) -> int {
    frames * width * height
}

/// The fields of the header at position `p` of `s`: interlacing, colour space, bytes per
/// channel, width, height and frame count; `None` where the bytes do not form a header
/// whose pixel count is within `limit`.
pub open spec fn header_spec(s: Seq<u8>, p: int, limit: int) -> Option<(bool, ColorSpace, BytesPerChannel, int, int, int)> {
    if !magic_at(s, p) || p + 6 > s.len() || !kind_ok(s[p + 4]) {
        None
    } else {
        let flags = s[p + 4];
        match (channels_of_flags(flags), bpc_of(s[p + 5])) {
            (Some(channels), Some(bpc)) => match parse_varint(s, p + 6) {
                VarintParse::Value { value: w, end: e1 } => match parse_varint(s, e1) {
                    VarintParse::Value { value: h, end: e2 } => {
                        let frames: Option<int> = if animated_of_flags(flags) {
                            match parse_varint(s, e2) {
                                VarintParse::Value { value: f, .. } => if f + 2 <= u32::MAX { Some(f + 2) } else { None },
                                _ => None,
                            }
                        } else {
                            Some(1)
                        };
                        match frames {
                            Some(f) => if w + 1 <= u32::MAX && h + 1 <= u32::MAX && pixel_count(w + 1, h + 1, f) <= limit {
                                Some((interlaced_of_flags(flags), channels, bpc, w + 1, h + 1, f))
                            } else {
                                None
                            },
                            None => None,
                        }
                    },
                    _ => None,
                },
                _ => None,
            },
            _ => None,
        }
    }
}

/// The header's fields before the dimensions are well formed.
pub open spec fn fields_ok(s: Seq<u8>, p: int) -> bool {
    &&& magic_at(s, p) && p + 6 <= s.len() && kind_ok(s[p + 4])
    &&& channels_of_flags(s[p + 4]) is Some && bpc_of(s[p + 5]) is Some
}

/// The dimensions parse, but one of them overflows `u32` once offset, or the pixel count
/// exceeds `limit`.
pub open spec fn dimensions_over_limit(s: Seq<u8>, p: int, limit: int) -> bool {
    &&& fields_ok(s, p)
    &&& parse_varint(s, p + 6) matches VarintParse::Value { value: w, end: e1 }
    &&& (w + 1 > u32::MAX || (parse_varint(s, e1) matches VarintParse::Value { value: h, end: e2 } && (h + 1 > u32::MAX
        || (if animated_of_flags(s[p + 4]) {
            parse_varint(s, e2) matches VarintParse::Value { value: f, .. } && (f + 2 > u32::MAX
                || pixel_count(w + 1, h + 1, f + 2) > limit)
        } else {
            pixel_count(w + 1, h + 1, 1) > limit
        }))))
}

/// The error a malformed first header at position `p` of `s` gives: the text naming the
/// field for a bad magic, flag nibble, channel count or bytes-per-channel digit, and a
/// limit violation for dimensions that overflow or exceed the pixel limit.
pub open spec fn header_errors<T>(s: Seq<u8>, p: int, limit: int, r: Result<T>) -> bool {
    &&& p + 4 <= s.len() && !magic_at(s, p) ==> (r matches Err(Error::InvalidHeader { desc })
        && desc@ == "file is corrupt or not a FLIF"@)
    &&& magic_at(s, p) && p + 6 <= s.len() && !kind_ok(s[p + 4]) ==> (r matches Err(Error::InvalidHeader { desc })
        && desc@ == "interlacing/animation bits not valid"@)
    &&& magic_at(s, p) && p + 6 <= s.len() && kind_ok(s[p + 4]) && channels_of_flags(s[p + 4]) is None
        ==> (r matches Err(Error::InvalidHeader { desc }) && desc@ == "invalid number of channels"@)
    &&& magic_at(s, p) && p + 6 <= s.len() && kind_ok(s[p + 4]) && channels_of_flags(s[p + 4]) is Some
        && bpc_of(s[p + 5]) is None ==> (r matches Err(Error::InvalidHeader { desc })
        && desc@ == "bytes per channel was not a valid value"@)
    &&& dimensions_over_limit(s, p, limit) ==> (r matches Err(Error::LimitViolation(_)))
    &&& header_spec(s, p, limit) is None ==> r is Err
}

/// Reads a dimension: a varint plus `delta`.
fn read_dimension(reader: &mut ByteReader, delta: u32) -> (r: Result<u32>)
    requires
        old(reader).wf(),
    ensures
        final(reader).wf(),
        final(reader).data@ == old(reader).data@,
        match parse_varint(old(reader).data@, old(reader).pos as int) {
            VarintParse::Value { value, end } => if value + delta <= u32::MAX {
                (r matches Ok(v) && v == value + delta) && final(reader).pos == end
            } else {
                r matches Err(Error::LimitViolation(_))
            },
            VarintParse::Overflow { .. } => r matches Err(Error::InvalidVarint),
            VarintParse::Truncated => r matches Err(Error::UnexpectedEof),
        },
        r matches Ok(v) ==> v >= delta,
{
    let v = reader.read_varint()?;
    if v > u32::MAX - delta {
        return Err(Error::LimitViolation("number of pixels exceeds limit: overflow".to_owned()));
    }
    Ok(v + delta)
}

/// Checks `width * height * frames` against the pixel limit.
fn check_limit(width: u32, height: u32, frames: u32, limit: u64) -> (r: Result<()>)
    ensures
        r is Ok <==> pixel_count(width as int, height as int, frames as int) <= limit,
        r matches Err(e) ==> e is LimitViolation,
{
    assert((frames as int) * (width as int) <= u64::MAX) by (nonlinear_arith)
        requires frames <= u32::MAX, width <= u32::MAX;
    let wf: u64 = (frames as u64) * (width as u64);
    assert(wf == frames * width);
    if height as u64 != 0 && wf > u64::MAX / (height as u64) {
        assert(wf * height > u64::MAX) by (nonlinear_arith)
            requires height > 0, wf as int > (u64::MAX as int) / (height as int);
        assert(pixel_count(width as int, height as int, frames as int) == wf * height);
        return Err(Error::LimitViolation("number of pixels exceeds limit: overflow".to_owned()));
    }
    assert(wf * height <= u64::MAX) by (nonlinear_arith)
        requires height == 0 || wf as int <= (u64::MAX as int) / (height as int), height >= 0;
    let pixels = wf * (height as u64);
    assert(pixel_count(width as int, height as int, frames as int) == pixels);
    if pixels > limit {
        return Err(Error::LimitViolation("number of pixels exceeds limit".to_owned()));
    }
    Ok(())
}

impl Header {
    /// Reads the first header: magic, flag byte, bytes-per-channel digit, width and height
    /// (each a varint plus one) and, for animations, the frame count (a varint plus two).
    pub fn from_reader(reader: &mut ByteReader, limits: &Limits) -> (r: Result<Header>)
        requires
            old(reader).wf(),
        ensures
            final(reader).wf(),
            final(reader).data@ == old(reader).data@,
            r matches Ok(h) ==> {
                let s = old(reader).data@;
                let p = old(reader).pos as int;
                &&& magic_at(s, p)
                &&& p + 6 <= s.len()
                &&& kind_ok(s[p + 4])
                &&& h.interlaced == interlaced_of_flags(s[p + 4])
                &&& channels_of_flags(s[p + 4]) == Some(h.channels)
                &&& bpc_of(s[p + 5]) == Some(h.bytes_per_channel)
                &&& h.width >= 1 && h.height >= 1 && h.num_frames >= 1
                &&& (!animated_of_flags(s[p + 4]) ==> h.num_frames == 1)
                &&& (parse_varint(s, p + 6) matches VarintParse::Value { value, .. } && h.width == value + 1)
                &&& pixel_count(h.width as int, h.height as int, h.num_frames as int) <= limits.pixels
            },
            (r is Ok) <==> header_spec(old(reader).data@, old(reader).pos as int, limits.pixels as int) is Some,
            r matches Ok(h) ==> header_spec(old(reader).data@, old(reader).pos as int, limits.pixels as int)
                == Some((h.interlaced, h.channels, h.bytes_per_channel, h.width as int, h.height as int, h.num_frames as int)),
            !magic_at(old(reader).data@, old(reader).pos as int) ==> r is Err,
            header_errors(old(reader).data@, old(reader).pos as int, limits.pixels as int, r),
            magic_at(old(reader).data@, old(reader).pos as int) && old(reader).pos + 6 <= old(reader).data@.len() ==> {
                let s = old(reader).data@;
                let p = old(reader).pos as int;
                &&& !kind_ok(s[p + 4]) ==> (r matches Err(Error::InvalidHeader { .. }))
                &&& kind_ok(s[p + 4]) && channels_of_flags(s[p + 4]) is None ==> (r matches Err(Error::InvalidHeader { .. }))
                &&& kind_ok(s[p + 4]) && channels_of_flags(s[p + 4]) is Some && bpc_of(s[p + 5]) is None
                    ==> (r matches Err(Error::InvalidHeader { .. }))
            },
    {
        let magic = reader.read_bytes(4)?;
        if !(magic[0] == 0x46 && magic[1] == 0x4C && magic[2] == 0x49 && magic[3] == 0x46) {
            return Err(Error::InvalidHeader { desc: "file is corrupt or not a FLIF" });
        }
        let flags = reader.read_u8()?;
        let kind = flags / 16;
        let (interlaced, animated) = if kind == 3 {
            (false, false)
        } else if kind == 4 {
            (true, false)
        } else if kind == 5 {
            (false, true)
        } else if kind == 6 {
            (true, true)
        } else {
            return Err(Error::InvalidHeader { desc: "interlacing/animation bits not valid" });
        };
        let n = flags % 16;
        let channels = if n == 1 {
            ColorSpace::Monochrome
        } else if n == 3 {
            ColorSpace::RGB
        } else if n == 4 {
            ColorSpace::RGBA
        } else {
            return Err(Error::InvalidHeader { desc: "invalid number of channels" });
        };
        let digit = reader.read_u8()?;
        let bytes_per_channel = if digit == 0x30 {
            BytesPerChannel::Custom
        } else if digit == 0x31 {
            BytesPerChannel::One
        } else if digit == 0x32 {
            BytesPerChannel::Two
        } else {
            return Err(Error::InvalidHeader { desc: "bytes per channel was not a valid value" });
        };
        let width = read_dimension(reader, 1)?;
        let height = read_dimension(reader, 1)?;
        let num_frames = if animated { read_dimension(reader, 2)? } else { 1 };
        check_limit(width, height, num_frames, limits.pixels)?;
        Ok(Header { interlaced, channels, bytes_per_channel, width, height, num_frames })
    }
}

/// The alpha-zero flag as read from state `s`: one even bit for images with alpha.
pub open spec fn alpha_zero_spec(s: RacState, data: Seq<u8>, channels: ColorSpace) -> (bool, RacState) {
    if channels == ColorSpace::RGBA {
        decode_step(s, data, s.range / 2)
    } else {
        (false, s)
    }
}

/// The cutoff fields as read from state `s`: a flag, then either the defaults (cutoff 2,
/// alpha divisor 19, no custom bitchance) or a cutoff in `[1, 128]`, an alpha divisor in
/// `[2, 128]` and a custom-bitchance flag.
pub open spec fn cutoff_spec(s: RacState, data: Seq<u8>) -> (bool, int, int, bool, RacState) {
    let (custom, s1) = decode_step(s, data, s.range / 2);
    if custom {
        let (cutoff, s2) = uniform_spec(s1, data, 1, 128);
        let (divisor, s3) = uniform_spec(s2, data, 2, 128);
        let (bitchance, s4) = decode_step(s3, data, s3.range / 2);
        (true, cutoff, divisor, bitchance, s4)
    } else {
        (false, 2, 19, false, s1)
    }
}

/// The second header, read through the range coder.
#[derive(Debug)]
pub struct SecondHeader {
    pub bits_per_pixel: Vec<u8>,
    pub alpha_zero: bool,
    pub loops: Option<u8>,
    pub frame_delay: Option<Vec<u16>>,
    pub custom_cutoff: bool,
    pub cutoff: u8,
    pub alpha_divisor: u8,
    pub custom_bitchance: bool,
    pub transformations: Vec<Transformation>,
    pub invis_pixel_predictor: Option<u8>,
}

impl SecondHeader {
    /// Reads the second header and the transformation chain.
    pub fn from_rac(main_header: &Header, rac: &mut Rac) -> (r: Result<(SecondHeader, TransformChain)>)
        requires
            old(rac).wf(),
        ensures
            final(rac).wf(),
            final(rac).io.data@ == old(rac).io.data@,
            r matches Ok((h, chain)) ==> {
                &&& 1 <= h.cutoff <= 128
                &&& 2 <= h.alpha_divisor <= 128
                &&& (!h.custom_cutoff ==> h.cutoff == 2 && h.alpha_divisor == 19 && !h.custom_bitchance)
                &&& (main_header.channels != ColorSpace::RGBA ==> !h.alpha_zero)
                &&& h.bits_per_pixel@.len() == main_header.channels.count()
                &&& (main_header.bytes_per_channel == BytesPerChannel::One ==> forall|i: int| 0 <= i < h.bits_per_pixel@.len() ==> #[trigger] h.bits_per_pixel@[i] == 8)
                &&& chain.wf()
                &&& names_steps(h.transformations@, chain.steps@)
                &&& h.transformations@.len() <= MAX_TRANSFORMS
                &&& (main_header.num_frames == 1 ==> h.loops is None && h.frame_delay is None)
                &&& (h.loops is Some <==> main_header.num_frames != 1)
                &&& (h.frame_delay is Some <==> main_header.num_frames != 1)
                &&& (h.invis_pixel_predictor is Some <==> h.alpha_zero && main_header.interlaced)
                &&& (main_header.bytes_per_channel != BytesPerChannel::Custom && main_header.num_frames == 1 ==> {
                    let (alpha_zero, s1) = alpha_zero_spec(old(rac).state(), old(rac).io.data@, main_header.channels);
                    let (custom, cutoff, divisor, bitchance, _) = cutoff_spec(s1, old(rac).io.data@);
                    &&& h.alpha_zero == alpha_zero
                    &&& h.custom_cutoff == custom && h.cutoff == cutoff && h.alpha_divisor == divisor
                    &&& h.custom_bitchance == bitchance
                })
            },
            r matches Err(e) ==> e is InvalidOperation || e is UnimplementedTransformation,
            main_header.bytes_per_channel != BytesPerChannel::Custom && main_header.num_frames == 1 ==> ({
                let data = old(rac).io.data@;
                let (alpha_zero, s1) = alpha_zero_spec(old(rac).state(), data, main_header.channels);
                let s4 = cutoff_spec(s1, data).4;
                let (more, s5) = decode_step(s4, data, s4.range / 2);
                let (id, _) = uniform_spec(s5, data, 0, 13);
                &&& !more && !(alpha_zero && main_header.interlaced) ==> (r matches Ok((h, chain))
                    && h.transformations@.len() == 0 && chain.steps@.len() == 0)
                &&& more && Transformation::from_id_spec(id) is None ==> (r matches Err(Error::InvalidOperation(_)))
                &&& more && (Transformation::from_id_spec(id) matches Some(t) && !t.supported())
                    ==> (r matches Err(Error::UnimplementedTransformation(n)) && n@ == Transformation::from_id_spec(id)->Some_0.name_spec())
            }),
    {
        let ghost data = rac.io.data@;
        let ghost s0 = rac.state();
        let n = main_header.channels.num_channels();
        let mut bits_per_pixel: Vec<u8> = Vec::new();
        let mut i: usize = 0;
        while i < n
            invariant
                rac.wf(),
                rac.io.data@ == old(rac).io.data@,
                n == main_header.channels.count(),
                i <= n,
                bits_per_pixel@.len() == i,
                main_header.bytes_per_channel == BytesPerChannel::One ==> forall|j: int| 0 <= j < i ==> #[trigger] bits_per_pixel@[j] == 8,
                main_header.bytes_per_channel != BytesPerChannel::Custom ==> rac.state() == s0,
            decreases n - i,
        {
            let bits: u8 = match main_header.bytes_per_channel {
                BytesPerChannel::One => 8,
                BytesPerChannel::Two => 16,
                BytesPerChannel::Custom => rac.read_val(1, 16) as u8,
            };
            bits_per_pixel.push(bits);
            i = i + 1;
        }
        let alpha_zero = if main_header.channels == ColorSpace::RGBA { rac.read_bool() } else { false };
        let ghost s1 = rac.state();
        let animated = main_header.num_frames != 1;
        let loops = if animated { Some(rac.read_val(0, 100) as u8) } else { None };
        let frame_delay = if animated {
            let mut delays: Vec<u16> = Vec::new();
            let mut f: u32 = 0;
            while f < main_header.num_frames
                invariant
                    rac.wf(),
                    rac.io.data@ == old(rac).io.data@,
                    f <= main_header.num_frames,
                decreases main_header.num_frames - f,
            {
                delays.push(rac.read_val(0, 60000) as u16);
                f = f + 1;
            }
            Some(delays)
        } else {
            None
        };
        let custom_cutoff = rac.read_bool();
        let (cutoff, alpha_divisor, custom_bitchance) = if custom_cutoff {
            let cutoff = rac.read_val(1, 128) as u8;
            let alpha_divisor = rac.read_val(2, 128) as u8;
            let custom_bitchance = rac.read_bool();
            (cutoff, alpha_divisor, custom_bitchance)
        } else {
            (2u8, 19u8, false)
        };
        let update_table = UpdateTable::new(alpha_divisor, cutoff);
        let ghost s4 = rac.state();
        proof {
            if main_header.bytes_per_channel != BytesPerChannel::Custom && main_header.num_frames == 1 {
                assert(s4 == cutoff_spec(s1, data).4);
            }
        }
        let (transformations, chain) = load_transformations(rac, main_header.channels, &update_table)?;
        let invis_pixel_predictor = if alpha_zero && main_header.interlaced {
            Some(rac.read_val(0, 2) as u8)
        } else {
            None
        };
        Ok((
            SecondHeader {
                bits_per_pixel,
                alpha_zero,
                loops,
                frame_delay,
                custom_cutoff,
                cutoff,
                alpha_divisor,
                custom_bitchance,
                transformations,
                invis_pixel_predictor,
            },
            chain,
        ))
    }
}

} // verus!
