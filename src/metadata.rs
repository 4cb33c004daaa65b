use vstd::prelude::*;

use crate::error::{Error, Result};
use crate::reader::{parse_varint, ByteReader, VarintParse};
use crate::Limits;

verus! {

/// What `inflate::inflate_bytes` makes of a DEFLATE stream: the bytes it returns, or `None`
/// where it returns an error (a truncated stream may still give the bytes decoded so far).
pub uninterp spec fn inflated(data: Seq<u8>) -> Option<Seq<u8>>;

/// Relies on `inflate::inflate_bytes`: it decompresses a raw DEFLATE stream, and what it
/// returns depends on the bytes alone.
#[verifier::external_body]
fn inflate_chunk(data: &Vec<u8>) -> (r: core::result::Result<Vec<u8>, String>)
    ensures
        r is Ok <==> inflated(data@) is Some,
        r matches Ok(v) ==> v@ == inflated(data@)->Some_0,
{
    inflate::inflate_bytes(data.as_slice())
}

/// The kind of a metadata chunk, from its four-byte tag.
#[derive(Clone, Copy, Debug)]
pub enum ChunkType {
    Iccp,
    Exif,
    Exmp,
    Unknown([u8; 4]),
}

/// A metadata chunk, decompressed.
#[derive(Debug)]
pub struct Metadata {
    pub chunk_type: ChunkType,
    pub content: Vec<u8>,
}

/// The chunk kind a tag names, or `None` for a critical tag (one that does not start
/// with a lowercase letter).
pub open spec fn chunk_type_of(t: Seq<u8>) -> Option<ChunkType> {
    if t == seq![0x69u8, 0x43u8, 0x43u8, 0x50u8] {
        Some(ChunkType::Iccp)
    } else if t == seq![0x65u8, 0x58u8, 0x69u8, 0x66u8] {
        Some(ChunkType::Exif)
    } else if t == seq![0x65u8, 0x58u8, 0x6Du8, 0x70u8] {
        Some(ChunkType::Exmp)
    } else if 0x61 <= t[0] <= 0x7A {
        Some(ChunkType::Unknown([t[0], t[1], t[2], t[3]]))
    } else {
        None
    }
}

fn chunk_type_from(t: &Vec<u8>) -> (r: Option<ChunkType>)
    requires
        t@.len() == 4,
    ensures
        r == chunk_type_of(t@),
{
    let (a, b, c, d) = (t[0], t[1], t[2], t[3]);
    proof {
        assert(t@ == seq![a, b, c, d]);
    }
    if a == 0x69 && b == 0x43 && c == 0x43 && d == 0x50 {
        Some(ChunkType::Iccp)
    } else if a == 0x65 && b == 0x58 && c == 0x69 && d == 0x66 {
        Some(ChunkType::Exif)
    } else if a == 0x65 && b == 0x58 && c == 0x6D && d == 0x70 {
        Some(ChunkType::Exmp)
    } else if 0x61 <= a && a <= 0x7A {
        Some(ChunkType::Unknown([a, b, c, d]))
    } else {
        None
    }
}

/// What the bytes at one position of the metadata section hold.
pub enum ChunkParse {
    /// The terminating zero byte; the section ends before `next`.
    End { next: int },
    /// A chunk of kind `kind` whose payload inflates to `content`; the next one starts at `next`.
    Chunk { kind: ChunkType, content: Seq<u8>, next: int },
    /// A chunk that cannot be read, and why.
    Fail { reason: MetaFailure },
}

/// Why the metadata section cannot be read.
pub enum MetaFailure {
    /// A section marked required, with its first byte.
    Required(u8),
    /// A critical chunk, with its tag.
    Critical(Seq<u8>),
    /// A chunk over the size limit, or more chunks than the count limit.
    Limit,
    /// A truncated chunk, a malformed length or a payload that does not inflate.
    Other,
}

/// `r` is the error `f` calls for.
pub open spec fn error_for<T>(f: MetaFailure, r: Result<T>) -> bool {
    match f {
        MetaFailure::Required(b) => r matches Err(Error::UnknownRequiredMetadata(x)) && x == b,
        MetaFailure::Critical(t) => r matches Err(Error::UnknownCriticalMetadata(a)) && a@ == t,
        MetaFailure::Limit => r matches Err(Error::LimitViolation(_)),
        MetaFailure::Other => r is Err,
    }
}

/// The metadata chunk at position `p` of `s`: a first byte (zero ends the section, 1 to
/// 31 are refused), three more tag bytes, a varint length within `max_chunk`, then the
/// DEFLATE payload.
pub open spec fn chunk_spec(s: Seq<u8>, p: int, max_chunk: int) -> ChunkParse {
    if p < 0 || p >= s.len() {
        ChunkParse::Fail { reason: MetaFailure::Other }
    } else if s[p] == 0 {
        ChunkParse::End { next: p + 1 }
    } else if s[p] <= 31 {
        ChunkParse::Fail { reason: MetaFailure::Required(s[p]) }
    } else if p + 4 > s.len() {
        ChunkParse::Fail { reason: MetaFailure::Other }
    } else {
        match chunk_type_of(s.subrange(p, p + 4)) {
            Some(kind) => match parse_varint(s, p + 4) {
                VarintParse::Value { value: n, end: e } => if n > max_chunk {
                    ChunkParse::Fail { reason: MetaFailure::Limit }
                } else if e + n > s.len() {
                    ChunkParse::Fail { reason: MetaFailure::Other }
                } else {
                    match inflated(s.subrange(e, e + n)) {
                        Some(content) => ChunkParse::Chunk { kind, content, next: e + n },
                        None => ChunkParse::Fail { reason: MetaFailure::Other },
                    }
                },
                _ => ChunkParse::Fail { reason: MetaFailure::Other },
            },
            None => ChunkParse::Fail { reason: MetaFailure::Critical(s.subrange(p, p + 4)) },
        }
    }
}

/// Why the metadata section from position `p` on cannot be read, `count` chunks having
/// been read before: the reason of the first chunk that fails, or the count limit.
pub open spec fn section_error(s: Seq<u8>, p: int, max_chunk: int, max_count: int, count: int) -> MetaFailure
    decreases s.len() - p,
{
    match chunk_spec(s, p, max_chunk) {
        ChunkParse::End { .. } => MetaFailure::Other,
        ChunkParse::Chunk { next, .. } => if count + 1 > max_count {
            MetaFailure::Limit
        } else if next <= p {
            MetaFailure::Other
        } else {
            section_error(s, next, max_chunk, max_count, count + 1)
        },
        ChunkParse::Fail { reason } => reason,
    }
}

/// The chunks of the metadata section from position `p` on, `count` chunks having been
/// read before, and the position after its terminating byte; `None` where a chunk fails
/// or the chunks outnumber `max_count`.
pub open spec fn section_spec(s: Seq<u8>, p: int, max_chunk: int, max_count: int, count: int)
    -> Option<(Seq<(ChunkType, Seq<u8>)>, int)>
    decreases s.len() - p,
{
    match chunk_spec(s, p, max_chunk) {
        ChunkParse::End { next } => Some((seq![], next)),
        ChunkParse::Chunk { kind, content, next } => if count + 1 > max_count || next <= p {
            None
        } else {
            match section_spec(s, next, max_chunk, max_count, count + 1) {
                Some((rest, end)) => Some((seq![(kind, content)] + rest, end)),
                None => None,
            }
        },
        ChunkParse::Fail { .. } => None,
    }
}

/// The chunks hold the kinds and contents of `spec`, in order.
pub open spec fn chunks_match(chunks: Seq<Metadata>, spec: Seq<(ChunkType, Seq<u8>)>) -> bool {
    &&& chunks.len() == spec.len()
    &&& forall|i: int| 0 <= i < chunks.len() ==> (#[trigger] chunks[i]).chunk_type == spec[i].0
        && chunks[i].content@ == spec[i].1
}

/// What one metadata read found.
enum MetadataEntry {
    Optional(Metadata),
    Required(u8),
}

impl Metadata {
    /// Reads one chunk, or the byte that ends the metadata.
    fn from_reader(reader: &mut ByteReader, limits: &Limits) -> (r: Result<MetadataEntry>)
        requires
            old(reader).wf(),
        ensures
            final(reader).wf(),
            final(reader).data@ == old(reader).data@,
            r matches Ok(MetadataEntry::Optional(_)) ==> final(reader).pos >= old(reader).pos + 4,
            r matches Ok(MetadataEntry::Required(b)) ==> b == 0 && old(reader).pos < old(reader).data@.len()
                && old(reader).data@[old(reader).pos as int] == 0,
            old(reader).pos < old(reader).data@.len() && 1 <= old(reader).data@[old(reader).pos as int] <= 31
                ==> r == Err::<MetadataEntry, Error>(Error::UnknownRequiredMetadata(old(reader).data@[old(reader).pos as int])),
            match chunk_spec(old(reader).data@, old(reader).pos as int, limits.metadata_chunk as int) {
                ChunkParse::End { next } => (r matches Ok(MetadataEntry::Required(_))) && final(reader).pos == next,
                ChunkParse::Chunk { kind, content, next } => (r matches Ok(MetadataEntry::Optional(m))
                    && m.chunk_type == kind && m.content@ == content) && final(reader).pos == next,
                ChunkParse::Fail { reason } => error_for(reason, r),
            },
    {
        let first = reader.read_u8()?;
        if first == 0 {
            return Ok(MetadataEntry::Required(0));
        }
        if first <= 31 {
            return Err(Error::UnknownRequiredMetadata(first));
        }
        let rest = reader.read_bytes(3)?;
        let mut tag: Vec<u8> = Vec::new();
        tag.push(first);
        tag.push(rest[0]);
        tag.push(rest[1]);
        tag.push(rest[2]);
        let ghost s = old(reader).data@;
        let ghost p = old(reader).pos as int;
        assert(tag@ =~= s.subrange(p, p + 4));
        let chunk_type = match chunk_type_from(&tag) {
            Some(t) => t,
            None => {
                let arr: [u8; 4] = [tag[0], tag[1], tag[2], tag[3]];
                assert(arr@ =~= tag@);
                return Err(Error::UnknownCriticalMetadata(arr));
            },
        };
        assert(reader.pos == old(reader).pos + 4);
        let chunk_size = reader.read_varint()?;
        if chunk_size > limits.metadata_chunk {
            return Err(Error::LimitViolation("requested metadata chunk size exceeds limit".to_owned()));
        }
        let ghost e = reader.pos as int;
        let deflated = reader.read_bytes(chunk_size as usize)?;
        assert(deflated@ == s.subrange(e, e + chunk_size));
        let content = match inflate_chunk(&deflated) {
            Ok(v) => v,
            Err(message) => {
                return Err(Error::InvalidMetadata(message));
            },
        };
        Ok(MetadataEntry::Optional(Metadata { chunk_type, content }))
    }

    /// Reads metadata chunks up to the byte that ends them.
    pub fn all_from_reader(reader: &mut ByteReader, limits: &Limits) -> (r: Result<(Vec<Metadata>, u8)>)
        requires
            old(reader).wf(),
        ensures
            final(reader).wf(),
            final(reader).data@ == old(reader).data@,
            r matches Ok((chunks, end)) ==> end == 0 && chunks@.len() <= limits.metadata_count,
            (r is Ok) <==> section_spec(old(reader).data@, old(reader).pos as int, limits.metadata_chunk as int,
                limits.metadata_count as int, 0) is Some,
            section_spec(old(reader).data@, old(reader).pos as int, limits.metadata_chunk as int,
                limits.metadata_count as int, 0) is None ==> error_for(section_error(old(reader).data@, old(reader).pos as int,
                limits.metadata_chunk as int, limits.metadata_count as int, 0), r),
            r matches Ok((chunks, _)) ==> {
                let spec = section_spec(old(reader).data@, old(reader).pos as int, limits.metadata_chunk as int,
                    limits.metadata_count as int, 0)->Some_0;
                chunks_match(chunks@, spec.0) && final(reader).pos == spec.1
            },
    {
        let ghost s = reader.data@;
        let ghost mc = limits.metadata_chunk as int;
        let ghost mn = limits.metadata_count as int;
        let ghost whole = section_spec(s, reader.pos as int, mc, mn, 0);
        let mut chunks: Vec<Metadata> = Vec::new();
        loop
            invariant
                reader.wf(),
                reader.data@ == old(reader).data@,
                s == old(reader).data@,
                mc == limits.metadata_chunk && mn == limits.metadata_count,
                whole == section_spec(s, old(reader).pos as int, mc, mn, 0),
                chunks@.len() <= limits.metadata_count,
                match section_spec(s, reader.pos as int, mc, mn, chunks@.len() as int) {
                    Some((rest, end)) => whole is Some && chunks@.len() <= whole->Some_0.0.len()
                        && chunks_match(chunks@, whole->Some_0.0.subrange(0, chunks@.len() as int))
                        && whole->Some_0.0.subrange(chunks@.len() as int, whole->Some_0.0.len() as int) == rest
                        && whole->Some_0.1 == end,
                    None => whole is None && section_error(s, reader.pos as int, mc, mn, chunks@.len() as int)
                        == section_error(s, old(reader).pos as int, mc, mn, 0),
                },
            decreases reader.data@.len() - reader.pos,
        {
            let ghost before = reader.pos as int;
            let ghost cnt = chunks@.len() as int;
            let ghost sp = section_spec(s, before, mc, mn, cnt);
            let entry = match Self::from_reader(reader, limits) {
                Ok(entry) => entry,
                Err(e) => {
                    return Err(e);
                },
            };
            match entry {
                MetadataEntry::Optional(m) => {
                    chunks.push(m);
                },
                MetadataEntry::Required(b) => {
                    proof {
                        let w = whole->Some_0.0;
                        assert(sp == Some((Seq::<(ChunkType, Seq<u8>)>::empty(), reader.pos as int)));
                        assert(w.subrange(cnt, w.len() as int).len() == 0);
                        assert(w.subrange(0, cnt) =~= w);
                    }
                    return Ok((chunks, b));
                },
            }
            if chunks.len() > limits.metadata_count as usize {
                return Err(Error::LimitViolation("number of metadata entries exceeds limit".to_owned()));
            }
            proof {
                match chunk_spec(s, before, mc) {
                    ChunkParse::Chunk { kind, content, next } => {
                        assert(next == reader.pos);
                        match section_spec(s, next, mc, mn, cnt + 1) {
                            Some((rest2, end)) => {
                                let w = whole->Some_0.0;
                                assert(sp == Some((seq![(kind, content)] + rest2, end)));
                                assert(w.subrange(cnt, w.len() as int) == seq![(kind, content)] + rest2);
                                assert(w[cnt] == w.subrange(cnt, w.len() as int)[0]);
                                assert(w.subrange(0, cnt + 1) =~= w.subrange(0, cnt).push(w[cnt]));
                                let t = w.subrange(cnt, w.len() as int);
                                assert(w.subrange(cnt + 1, w.len() as int) =~= t.subrange(1, t.len() as int));
                                assert(t.subrange(1, t.len() as int) =~= rest2);
                            },
                            None => {
                                assert(sp is None);
                            },
                        }
                    },
                    _ => {},
                }
            }
        }
    }
}

} // verus!
