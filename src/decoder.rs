use vstd::prelude::*;

use crate::chances::UpdateTable;
use crate::error::{Error, Result};
use crate::header::{header_errors, header_spec, magic_at, BytesPerChannel, Header, SecondHeader};
use crate::transform::Transformation;
use crate::image::DecodingImage;
use crate::metadata::Metadata;
use crate::rac::Rac;
use crate::reader::ByteReader;
use crate::transform::TransformChain;
use crate::Limits;

verus! {

/// The first header of `data` is `h`, within the pixel limit `limit`.
pub open spec fn header_of(data: Seq<u8>, limit: int, h: Header) -> bool {
    header_spec(data, 0, limit) == Some((h.interlaced, h.channels, h.bytes_per_channel, h.width as int, h.height as int, h.num_frames as int))
}

/// Every transformation named is one this decoder reads.
pub open spec fn supported_only(ids: Seq<Transformation>) -> bool {
    forall|k: int| 0 <= k < ids.len() ==> (#[trigger] ids[k] == Transformation::ChannelCompact || ids[k] == Transformation::YCoGg
        || ids[k] == Transformation::PermutePlanes || ids[k] == Transformation::Bounds)
}

/// What the headers of an image say.
#[derive(Debug)]
pub struct FlifInfo {
    pub header: Header,
    pub metadata: Vec<Metadata>,
    pub second_header: SecondHeader,
    pub transform: TransformChain,
}

impl FlifInfo {
    pub open spec fn wf(&self) -> bool {
        &&& self.header.width >= 1 && self.header.height >= 1
        &&& 1 <= self.second_header.cutoff <= 128
        &&& 2 <= self.second_header.alpha_divisor <= 128
        &&& self.transform.wf()
    }
}

/// A decoded image: its headers and its pixels as interleaved bytes.
#[derive(Debug)]
pub struct Flif {
    pub info: FlifInfo,
    pub raw: Vec<u8>,
}

/// A decoder whose headers have been read; the pixels come next.
#[derive(Debug)]
pub struct Decoder {
    pub limits: Limits,
    pub info: FlifInfo,
    pub rac: Rac,
}

/// Reads the headers of `data` and starts the range coder on the bytes after them.
fn identify_internal(data: &[u8], limits: &Limits) -> (r: Result<(FlifInfo, Rac)>)
    ensures
        r matches Ok((info, rac)) ==> info.wf() && rac.wf() && magic_at(data@, 0)
            && header_of(data@, limits.pixels as int, info.header)
            && info.metadata@.len() <= limits.metadata_count
            && info.header.width as int * info.header.height as int * info.header.num_frames as int <= limits.pixels,
        header_spec(data@, 0, limits.pixels as int) is None ==> r is Err,
        header_errors(data@, 0, limits.pixels as int, r),
        r matches Ok((info, _)) ==> supported_only(info.second_header.transformations@),
{
    let mut reader = ByteReader::new(data);
    let header = Header::from_reader(&mut reader, limits)?;
    let (metadata, end) = Metadata::all_from_reader(&mut reader, limits)?;
    if end != 0 {
        return Err(Error::UnknownRequiredMetadata(end));
    }
    let mut rac = Rac::from_reader(reader);
    let (second_header, transform) = SecondHeader::from_rac(&header, &mut rac)?;
    assert(header.width as int * header.height as int * header.num_frames as int
        == header.num_frames as int * header.width as int * header.height as int) by (nonlinear_arith);
    assert forall|k: int| 0 <= k < second_header.transformations@.len() implies (#[trigger] second_header.transformations@[k]
        == Transformation::ChannelCompact || second_header.transformations@[k] == Transformation::YCoGg
        || second_header.transformations@[k] == Transformation::PermutePlanes
        || second_header.transformations@[k] == Transformation::Bounds) by {
        let step = transform.steps@[k];
    }
    Ok((FlifInfo { header, metadata, second_header, transform }, rac))
}

impl Decoder {
    pub open spec fn wf(&self) -> bool {
        self.info.wf() && self.rac.wf()
    }

    /// Reads the headers with the default limits.
    pub fn new(data: &[u8]) -> (r: Result<Decoder>)
        ensures
            r matches Ok(d) ==> d.wf() && magic_at(data@, 0) && d.limits == (Limits {
                metadata_chunk: 0x10_0000,
                metadata_count: 8,
                pixels: 0x400_0000,
                maniac_nodes: 0x4000,
            }),
            !magic_at(data@, 0) ==> r is Err,
            header_spec(data@, 0, 0x400_0000) is None ==> r is Err,
            header_errors(data@, 0, 0x400_0000, r),
            r matches Ok(d) ==> header_of(data@, 0x400_0000, d.info.header)
                && supported_only(d.info.second_header.transformations@),
    {
        Self::with_limits(data, Limits::default())
    }

    /// Reads the headers: the first header, the metadata, then through the range coder
    /// the second header and the transformations.
    pub fn with_limits(data: &[u8], limits: Limits) -> (r: Result<Decoder>)
        ensures
            r matches Ok(d) ==> d.wf() && magic_at(data@, 0) && d.limits == limits
                && header_of(data@, limits.pixels as int, d.info.header)
                && d.info.metadata@.len() <= limits.metadata_count
                && d.info.header.width as int * d.info.header.height as int * d.info.header.num_frames as int <= limits.pixels,
            header_spec(data@, 0, limits.pixels as int) is None ==> r is Err,
            header_errors(data@, 0, limits.pixels as int, r),
            r matches Ok(d) ==> supported_only(d.info.second_header.transformations@),
    {
        let (info, rac) = identify_internal(data, &limits)?;
        Ok(Decoder { limits, info, rac })
    }

    /// The headers.
    pub fn info(&self) -> (r: &FlifInfo)
        ensures
            r == &self.info,
    {
        &self.info
    }

    /// Decodes the pixels. Interlaced, animated, sixteen-bit and custom-bitchance images
    /// are not supported.
    pub fn decode_image(self) -> (r: Result<Flif>)
        requires
            self.wf(),
        ensures
            self.info.header.interlaced ==> (r matches Err(Error::Unimplemented(_))),
            self.info.header.num_frames != 1 ==> (r matches Err(Error::Unimplemented(_))),
            self.info.header.bytes_per_channel != BytesPerChannel::One ==> (r matches Err(Error::Unimplemented(_))),
            self.info.second_header.custom_bitchance ==> (r matches Err(Error::Unimplemented(_))),
            !self.info.header.interlaced && self.info.header.num_frames == 1
                && self.info.header.bytes_per_channel == BytesPerChannel::One && !self.info.second_header.custom_bitchance
                && self.info.transform.has_permute() ==> (r matches Err(Error::UnimplementedTransformation(_))),
            r matches Ok(f) ==> f.raw@.len() == self.info.header.width * self.info.header.height * self.info.header.channels.count()
                && f.info == self.info,
    {
        let Decoder { limits, info, mut rac } = self;
        if info.header.interlaced {
            return Err(Error::Unimplemented("Interlaced images are not yet supported."));
        }
        if info.header.num_frames != 1 {
            return Err(Error::Unimplemented("Animated images are not yet supported."));
        }
        if info.header.bytes_per_channel != BytesPerChannel::One {
            return Err(Error::Unimplemented("Only images with 8 bits per channel are supported"));
        }
        if info.second_header.custom_bitchance {
            return Err(Error::Unimplemented("Custom bitchances are currently unimplemented in the FLIF standard."));
        }
        if info.transform.has_permute_planes() {
            return Err(Error::UnimplementedTransformation("Permute Planes".to_owned()));
        }
        let update_table = UpdateTable::new(info.second_header.alpha_divisor, info.second_header.cutoff);
        let mut image = DecodingImage::new(&info)?;
        let raw = image.process(&mut rac, &info, &update_table, &limits)?;
        Ok(Flif { info, raw })
    }
}

impl Flif {
    /// Decodes an image with the default limits.
    pub fn decode(data: &[u8]) -> (r: Result<Flif>)
        ensures
            r matches Ok(f) ==> magic_at(data@, 0)
                && f.raw@.len() == f.info.header.width * f.info.header.height * f.info.header.channels.count()
                && !f.info.header.interlaced && f.info.header.num_frames == 1
                && header_of(data@, 0x400_0000, f.info.header),
            !magic_at(data@, 0) ==> r is Err,
            header_errors(data@, 0, 0x400_0000, r),
    {
        Decoder::new(data)?.decode_image()
    }

    /// Decodes an image within `limits`.
    pub fn decode_with_limits(data: &[u8], limits: Limits) -> (r: Result<Flif>)
        ensures
            r matches Ok(f) ==> magic_at(data@, 0)
                && f.raw@.len() == f.info.header.width * f.info.header.height * f.info.header.channels.count()
                && !f.info.header.interlaced && f.info.header.num_frames == 1
                && f.info.header.width as int * f.info.header.height as int <= limits.pixels
                && header_of(data@, limits.pixels as int, f.info.header),
            header_spec(data@, 0, limits.pixels as int) is None ==> r is Err,
            header_errors(data@, 0, limits.pixels as int, r),
    {
        Decoder::with_limits(data, limits)?.decode_image()
    }

    /// The headers.
    pub fn info(&self) -> (r: &FlifInfo)
        ensures
            r == &self.info,
    {
        &self.info
    }

    /// The pixels, interleaved in colour-space order, rows top down.
    pub fn raw(&self) -> (r: &Vec<u8>)
        ensures
            r@ == self.raw@,
    {
        &self.raw
    }

    /// The pixels, giving up the image.
    pub fn into_raw(self) -> (r: Vec<u8>)
        ensures
            r@ == self.raw@,
    {
        self.raw
    }

    /// A copy of the pixels.
    pub fn get_raw_pixels(&self) -> (r: Vec<u8>)
        ensures
            r@ == self.raw@,
    {
        let mut out: Vec<u8> = Vec::new();
        let mut i: usize = 0;
        while i < self.raw.len()
            invariant
                i <= self.raw@.len(),
                out@ == self.raw@.subrange(0, i as int),
            decreases self.raw@.len() - i,
        {
            out.push(self.raw[i]);
            i = i + 1;
        }
        assert(out@ == self.raw@);
        out
    }
}

} // verus!
