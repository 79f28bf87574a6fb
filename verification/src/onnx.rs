//! Minimal ONNX weight reader.
//!
//! Reads the `initializer` tensors (ModelProto → GraphProto → TensorProto)
//! plus the tensors of `Constant` nodes (the tensor in the node's `value`
//! attribute, keyed by the node's output name). External data is rejected:
//! its sidecar file is not reachable from a byte buffer. The graph itself is
//! ignored.
//!
//! The reader walks protobuf wire format directly: a field is a varint tag
//! `(number << 3) | wire_type` followed by its payload. Every step below has a
//! specification over byte sequences that the executable code is proved to
//! follow exactly, including which error comes first.

use vstd::prelude::*;
use vstd::string::{StrSliceExecFns, StringExecFns, StringSliceAdditionalSpecFns};
use vstd::utf8::{decode_utf8, valid_utf8};

use crate::text::{decimal, push_char, push_numeral, str_eq};

verus! {

broadcast use vstd::string::group_string_axioms;

/// Why a buffer is not a readable ONNX weight file.
#[derive(PartialEq, Eq, Clone, Copy, Debug)]
pub enum OnnxError {
    NoGraph,
    NoWeights,
    ExternalData,
    MissingDataType,
    MalformedTag,
    MalformedLength,
    LengthOverflow,
    ExceedsBuffer,
    MalformedField,
    MalformedVarint,
    MalformedDimsField,
    MalformedPackedDims,
    PackedDimsOverflow,
    PackedDimsExceedsBuffer,
    MalformedDim,
    MalformedPackedInts,
}

/// The message reported for each error.
pub open spec fn error_text(e: OnnxError) -> Seq<char> {
    match e {
        OnnxError::NoGraph => "ModelProto has no graph field"@,
        OnnxError::NoWeights => "no weight tensors found (no initializers or Constant nodes)"@,
        OnnxError::ExternalData => "TensorProto uses external data, not supported by the byte reader"@,
        OnnxError::MissingDataType => "TensorProto missing data_type"@,
        OnnxError::MalformedTag => "malformed field tag"@,
        OnnxError::MalformedLength => "malformed field length"@,
        OnnxError::LengthOverflow => "field length overflow"@,
        OnnxError::ExceedsBuffer => "length-delimited field exceeds buffer"@,
        OnnxError::MalformedField => "malformed field"@,
        OnnxError::MalformedVarint => "malformed varint"@,
        OnnxError::MalformedDimsField => "malformed dims field"@,
        OnnxError::MalformedPackedDims => "malformed packed dims"@,
        OnnxError::PackedDimsOverflow => "packed dims overflow"@,
        OnnxError::PackedDimsExceedsBuffer => "packed dims exceeds buffer"@,
        OnnxError::MalformedDim => "malformed dim"@,
        OnnxError::MalformedPackedInts => "malformed varint in packed ints"@,
    }
}

impl OnnxError {
    /// The message of this error.
    pub fn message(&self) -> (s: &'static str)
        ensures
            s@ == error_text(*self),
    {
        match self {
            OnnxError::NoGraph => "ModelProto has no graph field",
            OnnxError::NoWeights => "no weight tensors found (no initializers or Constant nodes)",
            OnnxError::ExternalData => "TensorProto uses external data, not supported by the byte reader",
            OnnxError::MissingDataType => "TensorProto missing data_type",
            OnnxError::MalformedTag => "malformed field tag",
            OnnxError::MalformedLength => "malformed field length",
            OnnxError::LengthOverflow => "field length overflow",
            OnnxError::ExceedsBuffer => "length-delimited field exceeds buffer",
            OnnxError::MalformedField => "malformed field",
            OnnxError::MalformedVarint => "malformed varint",
            OnnxError::MalformedDimsField => "malformed dims field",
            OnnxError::MalformedPackedDims => "malformed packed dims",
            OnnxError::PackedDimsOverflow => "packed dims overflow",
            OnnxError::PackedDimsExceedsBuffer => "packed dims exceeds buffer",
            OnnxError::MalformedDim => "malformed dim",
            OnnxError::MalformedPackedInts => "malformed varint in packed ints",
        }
    }
}

// ---------------------------------------------------------------------------
// Varints
// ---------------------------------------------------------------------------

/// Continue decoding a base-128 varint at `pos`, `shift` bits in, with the
/// bits `acc` gathered so far: each byte contributes its low seven bits; a
/// clear high bit ends the varint; a tenth continuation byte is overlong.
pub open spec fn varint_from(b: Seq<u8>, pos: int, shift: u32, acc: u64) -> Option<(u64, int)>
    decreases 64 - shift,
{
    if pos < 0 || pos >= b.len() || shift >= 64 {
        None
    } else {
        let byte = b[pos];
        let acc2 = acc | (((byte & 0x7f) as u64) << shift);
        if byte & 0x80 == 0 {
            Some((acc2, pos + 1))
        } else if shift + 7 >= 64 {
            None
        } else {
            varint_from(b, pos + 1, (shift + 7) as u32, acc2)
        }
    }
}

/// The varint at `pos`: its value and the position after it.
pub open spec fn spec_varint(b: Seq<u8>, pos: int) -> Option<(u64, int)> {
    varint_from(b, pos, 0, 0)
}

proof fn lemma_varint_from_advances(b: Seq<u8>, pos: int, shift: u32, acc: u64)
    ensures
        varint_from(b, pos, shift, acc) matches Some((v, n)) ==> pos < n <= b.len(),
    decreases 64 - shift,
{
    if !(pos < 0 || pos >= b.len() || shift >= 64) {
        let byte = b[pos];
        let acc2 = acc | (((byte & 0x7f) as u64) << shift);
        if byte & 0x80 != 0 && shift + 7 < 64 {
            lemma_varint_from_advances(b, pos + 1, (shift + 7) as u32, acc2);
        }
    }
}

/// A decoded varint ends strictly after it starts and inside the buffer.
pub proof fn lemma_varint_advances(b: Seq<u8>, pos: int)
    ensures
        spec_varint(b, pos) matches Some((v, n)) ==> pos < n <= b.len(),
{
    lemma_varint_from_advances(b, pos, 0, 0);
}

/// The base-128 encoding of `v`: seven bits per byte, low bits first, the
/// high bit set on every byte but the last.
pub open spec fn encode_varint(v: u64) -> Seq<u8>
    decreases v,
{
    if v < 0x80 {
        seq![v as u8]
    } else {
        seq![(v % 0x80 + 0x80) as u8] + encode_varint(v / 0x80)
    }
}

proof fn lemma_encode_varint_len(v: u64)
    ensures
        encode_varint(v).len() >= 1,
    decreases v,
{
    if v >= 0x80 {
        lemma_encode_varint_len(v / 0x80);
    }
}

/// Decoding `encode_varint(v)` at `pos` with `shift` bits and `acc` gathered
/// so far adds `v`'s bits above `acc`.
proof fn lemma_varint_from_encoded(b: Seq<u8>, pos: int, shift: u32, acc: u64, v: u64)
    requires
        0 <= pos,
        pos + encode_varint(v).len() <= b.len(),
        b.subrange(pos, pos + encode_varint(v).len()) == encode_varint(v),
        shift < 64,
        acc >> shift == 0,
        (v << shift) >> shift == v,
    ensures
        varint_from(b, pos, shift, acc) == Some((acc | (v << shift), pos + encode_varint(v).len())),
    decreases v,
{
    let enc = encode_varint(v);
    assert(b[pos] == enc[0]);
    let byte = b[pos];
    if v < 0x80 {
        let x = v as u8;
        assert(byte == x);
        assert(x & 0x80 == 0 && (x & 0x7f) as u64 == v) by (bit_vector)
            requires
                v < 0x80,
                x == v as u8,
        ;
    } else {
        let lo = (v % 0x80 + 0x80) as u8;
        let w = v / 0x80;
        let s2 = (shift + 7) as u32;
        assert(byte == lo);
        assert(lo & 0x80 != 0 && (lo & 0x7f) as u64 == v & 0x7f && w == v >> 7) by (bit_vector)
            requires
                v >= 0x80,
                lo == (v % 0x80 + 0x80) as u8,
                w == v / 0x80,
        ;
        assert(shift + 7 < 64) by (bit_vector)
            requires
                shift < 64,
                v >= 0x80,
                (v << shift) >> shift == v,
        ;
        let acc2 = acc | ((v & 0x7f) << shift);
        assert(acc2 >> s2 == 0 && (w << s2) >> s2 == w && (acc2 | (w << s2)) == (acc | (v << shift)))
            by (bit_vector)
            requires
                shift + 7 < 64,
                s2 == shift + 7,
                acc >> shift == 0,
                (v << shift) >> shift == v,
                w == v >> 7,
                acc2 == acc | ((v & 0x7f) << shift),
        ;
        let rest = encode_varint(w);
        assert(enc == seq![lo] + rest);
        assert(b.subrange(pos + 1, pos + 1 + rest.len()) =~= rest) by {
            assert forall|i: int| 0 <= i < rest.len() implies b.subrange(pos + 1, pos + 1 + rest.len())[i]
                == rest[i] by {
                assert(b.subrange(pos, pos + enc.len())[i + 1] == enc[i + 1]);
            }
        }
        lemma_varint_from_encoded(b, pos + 1, s2, acc2, w);
    }
}

/// Decoding stops with `None` when the buffer ends inside an encoding, that
/// is while the continuation bit is still set.
proof fn lemma_varint_from_truncated(b: Seq<u8>, pos: int, shift: u32, acc: u64, v: u64)
    requires
        0 <= pos <= b.len(),
        b.len() < pos + encode_varint(v).len(),
        b.subrange(pos, b.len() as int) == encode_varint(v).take(b.len() - pos),
    ensures
        varint_from(b, pos, shift, acc) is None,
    decreases v,
{
    let enc = encode_varint(v);
    if pos < b.len() && shift < 64 {
        assert(b[pos] == b.subrange(pos, b.len() as int)[0]);
        if v >= 0x80 {
            let lo = (v % 0x80 + 0x80) as u8;
            let w = v / 0x80;
            assert(lo & 0x80 != 0) by (bit_vector)
                requires
                    lo == (v % 0x80 + 0x80) as u8,
            ;
            let rest = encode_varint(w);
            assert(enc == seq![lo] + rest);
            assert(b[pos] == lo);
            if shift + 7 < 64 {
                let byte = b[pos];
                let acc2 = acc | (((byte & 0x7f) as u64) << shift);
                assert(b.subrange(pos + 1, b.len() as int) =~= rest.take(b.len() - pos - 1)) by {
                    let tail = b.subrange(pos + 1, b.len() as int);
                    assert forall|i: int| 0 <= i < b.len() - pos - 1 implies #[trigger] tail[i]
                        == rest.take(b.len() - pos - 1)[i] by {
                        assert(b.subrange(pos, b.len() as int)[i + 1] == enc.take(b.len() - pos)[i + 1]);
                    }
                }
                lemma_varint_from_truncated(b, pos + 1, (shift + 7) as u32, acc2, w);
            }
        }
    }
}

/// Law: decoding gives back what the base-128 encoding wrote, wherever the
/// encoding stands in a buffer and whatever follows it; and a buffer that
/// ends inside an encoding decodes to nothing.
pub proof fn lemma_varint_roundtrip(prefix: Seq<u8>, v: u64, rest: Seq<u8>)
    ensures
        spec_varint(prefix + encode_varint(v) + rest, prefix.len() as int) == Some(
            (v, prefix.len() + encode_varint(v).len() as int),
        ),
        forall|j: int|
            0 <= j < encode_varint(v).len() ==> spec_varint(
                #[trigger] (prefix + encode_varint(v).take(j)),
                prefix.len() as int,
            ) is None,
{
    let enc = encode_varint(v);
    let b = prefix + enc + rest;
    let p = prefix.len() as int;
    assert(b.subrange(p, p + enc.len()) =~= enc);
    lemma_varint_at(b, p, v);
    assert forall|j: int| 0 <= j < enc.len() implies spec_varint(#[trigger] (prefix + enc.take(j)), p)
        is None by {
        let t = prefix + enc.take(j);
        assert(t.subrange(p, t.len() as int) =~= enc.take(j));
        lemma_varint_from_truncated(t, p, 0, 0, v);
    }
}

/// Decode a base-128 varint at `pos`; `None` when `pos` is out of bounds or
/// the varint runs past the buffer or past ten bytes.
pub fn varint(b: &[u8], pos: usize) -> (r: Option<(u64, usize)>)
    ensures
        match r {
            Some((v, n)) => spec_varint(b@, pos as int) == Some((v, n as int)),
            None => spec_varint(b@, pos as int) is None,
        },
{
    let mut value: u64 = 0;
    let mut shift: u32 = 0;
    let mut p = pos;
    loop
        invariant
            shift < 64,
            spec_varint(b@, pos as int) == varint_from(b@, p as int, shift, value),
        decreases 64 - shift,
    {
        if p >= b.len() {
            return None;
        }
        let byte = b[p];
        value = value | (((byte & 0x7f) as u64) << shift);
        if byte & 0x80 == 0 {
            return Some((value, p + 1));
        }
        if shift + 7 >= 64 {
            return None;
        }
        shift = shift + 7;
        p = p + 1;
    }
}

/// Where the payload of a field of wire type `wire` that starts at `pos`
/// ends; `None` when it is malformed. Unknown wire types have no payload.
pub open spec fn spec_skip(b: Seq<u8>, pos: int, wire: u64) -> Option<int> {
    if wire == 0 {
        match spec_varint(b, pos) {
            Some((_, p)) => Some(p),
            None => None,
        }
    } else if wire == 1 {
        if pos + 8 <= usize::MAX && pos + 8 <= b.len() {
            Some(pos + 8)
        } else {
            None
        }
    } else if wire == 2 {
        match spec_varint(b, pos) {
            Some((len, next)) => {
                let end = next + (len as usize);
                if end <= usize::MAX && end <= b.len() {
                    Some(end)
                } else {
                    None
                }
            },
            None => None,
        }
    } else if wire == 5 {
        if pos + 4 <= usize::MAX && pos + 4 <= b.len() {
            Some(pos + 4)
        } else {
            None
        }
    } else {
        Some(pos)
    }
}

/// Skip the payload of a field of the given wire type; `None` when malformed.
pub fn skip(msg: &[u8], pos: usize, wire: u64) -> (r: Option<usize>)
    ensures
        match r {
            Some(p) => spec_skip(msg@, pos as int, wire) == Some(p as int),
            None => spec_skip(msg@, pos as int, wire) is None,
        },
{
    if wire == 0 {
        match varint(msg, pos) {
            Some((_, p)) => Some(p),
            None => None,
        }
    } else if wire == 1 {
        match pos.checked_add(8) {
            Some(p) => if p <= msg.len() {
                Some(p)
            } else {
                None
            },
            None => None,
        }
    } else if wire == 2 {
        match varint(msg, pos) {
            Some((len, next)) => match next.checked_add(len as usize) {
                Some(p) => if p <= msg.len() {
                    Some(p)
                } else {
                    None
                },
                None => None,
            },
            None => None,
        }
    } else if wire == 5 {
        match pos.checked_add(4) {
            Some(p) => if p <= msg.len() {
                Some(p)
            } else {
                None
            },
            None => None,
        }
    } else {
        Some(pos)
    }
}

/// A field payload skipped from just after a tag at `start` ends after it
/// and inside the buffer.
proof fn lemma_skip_bounds(b: Seq<u8>, start: int, next: int, wire: u64)
    requires
        start < next <= b.len(),
    ensures
        spec_skip(b, next, wire) matches Some(p) ==> start < p <= b.len(),
{
    lemma_varint_advances(b, next);
}

// ---------------------------------------------------------------------------
// Field walks
// ---------------------------------------------------------------------------

/// The payloads of all length-delimited fields numbered `want` from `pos` on,
/// in order; the first malformed field (of any number) fails the walk.
pub open spec fn ld_fields_from(b: Seq<u8>, want: u64, pos: int) -> Result<Seq<Seq<u8>>, OnnxError>
    decreases b.len() - pos,
{
    if pos < 0 || pos >= b.len() {
        Ok(seq![])
    } else {
        match spec_varint(b, pos) {
            None => Err(OnnxError::MalformedTag),
            Some((tag, next)) => {
                if (tag >> 3) == want && (tag & 7) == 2 {
                    match spec_varint(b, next) {
                        None => Err(OnnxError::MalformedLength),
                        Some((len, start)) => {
                            let end = start + (len as usize);
                            if end > usize::MAX {
                                Err(OnnxError::LengthOverflow)
                            } else if end > b.len() {
                                Err(OnnxError::ExceedsBuffer)
                            } else if pos < end {
                                match ld_fields_from(b, want, end) {
                                    Ok(rest) => Ok(seq![b.subrange(start, end)] + rest),
                                    Err(e) => Err(e),
                                }
                            } else {
                                Err(OnnxError::MalformedField)
                            }
                        },
                    }
                } else {
                    match spec_skip(b, next, tag & 7) {
                        None => Err(OnnxError::MalformedField),
                        Some(p) => if pos < p <= b.len() {
                            ld_fields_from(b, want, p)
                        } else {
                            Err(OnnxError::MalformedField)
                        },
                    }
                }
            },
        }
    }
}

/// The payloads of all length-delimited fields numbered `want`.
pub open spec fn spec_ld_fields(b: Seq<u8>, want: u64) -> Result<Seq<Seq<u8>>, OnnxError> {
    ld_fields_from(b, want, 0)
}

/// The payload of the first length-delimited field numbered `want` (the whole
/// message is still walked, so a later malformed field fails it).
pub open spec fn spec_first_ld(b: Seq<u8>, want: u64) -> Result<Option<Seq<u8>>, OnnxError> {
    match spec_ld_fields(b, want) {
        Ok(fields) => Ok(if fields.len() > 0 {
            Some(fields[0])
        } else {
            None
        }),
        Err(e) => Err(e),
    }
}

/// The value of the first varint field numbered `want` from `pos` on; the walk
/// stops there, so only the fields before it must be well formed.
pub open spec fn first_varint_from(b: Seq<u8>, want: u64, pos: int) -> Result<Option<u64>, OnnxError>
    decreases b.len() - pos,
{
    if pos < 0 || pos >= b.len() {
        Ok(None)
    } else {
        match spec_varint(b, pos) {
            None => Err(OnnxError::MalformedTag),
            Some((tag, next)) => {
                if (tag >> 3) == want && (tag & 7) == 0 {
                    match spec_varint(b, next) {
                        None => Err(OnnxError::MalformedVarint),
                        Some((v, _)) => Ok(Some(v)),
                    }
                } else {
                    match spec_skip(b, next, tag & 7) {
                        None => Err(OnnxError::MalformedField),
                        Some(p) => if pos < p <= b.len() {
                            first_varint_from(b, want, p)
                        } else {
                            Err(OnnxError::MalformedField)
                        },
                    }
                }
            },
        }
    }
}

/// The value of the first varint field numbered `want`.
pub open spec fn spec_first_varint(b: Seq<u8>, want: u64) -> Result<Option<u64>, OnnxError> {
    first_varint_from(b, want, 0)
}

/// Text of a payload: its characters when it is valid UTF-8.
pub open spec fn utf8_text(p: Seq<u8>) -> Option<Seq<char>> {
    if valid_utf8(p) {
        Some(decode_utf8(p))
    } else {
        None
    }
}

/// The first length-delimited field numbered `want`, as text (`None` when it
/// is absent or not valid UTF-8).
pub open spec fn spec_first_string(b: Seq<u8>, want: u64) -> Result<Option<Seq<char>>, OnnxError> {
    match spec_first_ld(b, want) {
        Ok(Some(p)) => Ok(utf8_text(p)),
        Ok(None) => Ok(None),
        Err(e) => Err(e),
    }
}

/// All length-delimited (wire type 2) field payloads numbered `want`.
pub fn length_delimited_fields<'a>(msg: &'a [u8], want: u64) -> (r: Result<Vec<&'a [u8]>, OnnxError>)
    ensures
        match spec_ld_fields(msg@, want) {
            Ok(fields) => r is Ok && r->Ok_0.len() == fields.len() && forall|i: int|
                0 <= i < fields.len() ==> (#[trigger] r->Ok_0@[i])@ == fields[i],
            Err(e) => r == Err::<Vec<&'a [u8]>, OnnxError>(e),
        },
{
    let mut out: Vec<&'a [u8]> = Vec::new();
    let mut pos: usize = 0;
    while pos < msg.len()
        invariant
            pos <= msg.len(),
            match spec_ld_fields(msg@, want) {
                Ok(all) => match ld_fields_from(msg@, want, pos as int) {
                    Ok(rest) => all == out@.map_values(|s: &[u8]| s@) + rest,
                    Err(_) => false,
                },
                Err(e) => match ld_fields_from(msg@, want, pos as int) {
                    Ok(_) => false,
                    Err(e2) => e2 == e,
                },
            },
        decreases msg.len() - pos,
    {
        let (tag, next) = match varint(msg, pos) {
            Some(x) => x,
            None => return Err(OnnxError::MalformedTag),
        };
        proof {
            lemma_varint_advances(msg@, pos as int);
        }
        if (tag >> 3) == want && (tag & 7) == 2 {
            let (len, start) = match varint(msg, next) {
                Some(x) => x,
                None => return Err(OnnxError::MalformedLength),
            };
            proof {
                lemma_varint_advances(msg@, next as int);
            }
            let end = match start.checked_add(len as usize) {
                Some(e) => e,
                None => return Err(OnnxError::LengthOverflow),
            };
            if end > msg.len() {
                return Err(OnnxError::ExceedsBuffer);
            }
            let ghost old_out = out@.map_values(|s: &[u8]| s@);
            out.push(&msg[start..end]);
            proof {
                assert(out@.map_values(|s: &[u8]| s@) =~= old_out.push(msg@.subrange(start as int, end as int)));
                assert forall|x: Seq<Seq<u8>>| old_out + (seq![msg@.subrange(start as int, end as int)] + x)
                    == out@.map_values(|s: &[u8]| s@) + x by {
                    assert(old_out + (seq![msg@.subrange(start as int, end as int)] + x)
                        =~= out@.map_values(|s: &[u8]| s@) + x);
                }
            }
            pos = end;
        } else {
            proof {
                lemma_skip_bounds(msg@, pos as int, next as int, tag & 7);
            }
            pos = match skip(msg, next, tag & 7) {
                Some(p) => p,
                None => return Err(OnnxError::MalformedField),
            };
        }
    }
    proof {
        assert(out@.map_values(|s: &[u8]| s@) + seq![] =~= out@.map_values(|s: &[u8]| s@));
    }
    Ok(out)
}

/// First length-delimited (wire type 2) field payload numbered `want`.
pub fn first_length_delimited<'a>(msg: &'a [u8], want: u64) -> (r: Result<Option<&'a [u8]>, OnnxError>)
    ensures
        match spec_first_ld(msg@, want) {
            Ok(Some(p)) => r is Ok && r->Ok_0 is Some && r->Ok_0->Some_0@ == p,
            Ok(None) => r == Ok::<Option<&'a [u8]>, OnnxError>(None),
            Err(e) => r == Err::<Option<&'a [u8]>, OnnxError>(e),
        },
{
    let fields = length_delimited_fields(msg, want)?;
    if fields.len() > 0 {
        Ok(Some(fields[0]))
    } else {
        Ok(None)
    }
}

/// First varint (wire type 0) value numbered `want`.
pub fn first_varint(msg: &[u8], want: u64) -> (r: Result<Option<u64>, OnnxError>)
    ensures
        r == spec_first_varint(msg@, want),
{
    let mut pos: usize = 0;
    while pos < msg.len()
        invariant
            pos <= msg.len(),
            spec_first_varint(msg@, want) == first_varint_from(msg@, want, pos as int),
        decreases msg.len() - pos,
    {
        let (tag, next) = match varint(msg, pos) {
            Some(x) => x,
            None => return Err(OnnxError::MalformedTag),
        };
        proof {
            lemma_varint_advances(msg@, pos as int);
        }
        if (tag >> 3) == want && (tag & 7) == 0 {
            return match varint(msg, next) {
                Some((v, _)) => Ok(Some(v)),
                None => Err(OnnxError::MalformedVarint),
            };
        }
        proof {
            lemma_skip_bounds(msg@, pos as int, next as int, tag & 7);
        }
        pos = match skip(msg, next, tag & 7) {
            Some(p) => p,
            None => return Err(OnnxError::MalformedField),
        };
    }
    Ok(None)
}

/// `bytes` as text, when it is valid UTF-8: `std::str::from_utf8`, which
/// is documented to succeed exactly on valid UTF-8 and to view the same
/// bytes as a `str`. Trusted: the contract states exactly that, with vstd's
/// `valid_utf8` as the meaning of valid UTF-8.
#[verifier::external_body]
fn utf8_str<'a>(bytes: &'a [u8]) -> (r: Option<&'a str>)
    ensures
        r is Some <==> valid_utf8(bytes@),
        r matches Some(s) ==> s.spec_bytes() == bytes@,
{
    match std::str::from_utf8(bytes) {
        Ok(s) => Some(s),
        Err(_) => None,
    }
}

/// `bytes` as text, when it is valid UTF-8.
pub fn utf8_text_of<'a>(bytes: &'a [u8]) -> (r: Option<&'a str>)
    ensures
        match utf8_text(bytes@) {
            Some(t) => r is Some && r->Some_0@ == t,
            None => r is None,
        },
{
    let r = utf8_str(bytes);
    proof {
        if let Some(s) = r {
            vstd::utf8::encode_utf8_decode_utf8(s@);
        }
    }
    r
}

/// First string (length-delimited UTF-8) payload numbered `want`.
pub fn first_string<'a>(msg: &'a [u8], want: u64) -> (r: Result<Option<&'a str>, OnnxError>)
    ensures
        match spec_first_string(msg@, want) {
            Ok(Some(t)) => r is Ok && r->Ok_0 is Some && r->Ok_0->Some_0@ == t,
            Ok(None) => r == Ok::<Option<&'a str>, OnnxError>(None),
            Err(e) => r == Err::<Option<&'a str>, OnnxError>(e),
        },
{
    match first_length_delimited(msg, want)? {
        Some(p) => Ok(utf8_text_of(p)),
        None => Ok(None),
    }
}


// ---------------------------------------------------------------------------
// Tensors
// ---------------------------------------------------------------------------

/// One ONNX tensor. `data` holds the little-endian raw bytes as stored in
/// the file (f16 for `FLOAT16`, f32 for `FLOAT`, …).
#[derive(Debug)]
pub struct OnnxTensor {
    pub name: String,
    pub dims: Vec<i64>,
    pub dtype: i32,
    pub data: Vec<u8>,
}

/// The mathematical content of a tensor.
pub struct SpecTensor {
    pub name: Seq<char>,
    pub dims: Seq<i64>,
    pub dtype: i32,
    pub data: Seq<u8>,
}

impl View for OnnxTensor {
    type V = SpecTensor;

    open spec fn view(&self) -> SpecTensor {
        SpecTensor { name: self.name@, dims: self.dims@, dtype: self.dtype, data: self.data@ }
    }
}

/// `Ok(p + r)` for `Ok(r)`; errors pass through.
pub open spec fn prepend<A>(p: Seq<A>, r: Result<Seq<A>, OnnxError>) -> Result<Seq<A>, OnnxError> {
    match r {
        Ok(x) => Ok(p + x),
        Err(e) => Err(e),
    }
}

proof fn lemma_prepend_assoc<A>(p: Seq<A>, q: Seq<A>, r: Result<Seq<A>, OnnxError>)
    ensures
        prepend(p, prepend(q, r)) == prepend(p + q, r),
{
    if let Ok(x) = r {
        assert(p + (q + x) =~= (p + q) + x);
    }
}

proof fn lemma_prepend_empty<A>(r: Result<Seq<A>, OnnxError>)
    ensures
        prepend(Seq::<A>::empty(), r) == r,
{
    if let Ok(x) = r {
        assert(Seq::<A>::empty() + x =~= x);
    }
}

/// Byte `k` (little-endian) of `v`.
pub open spec fn le_byte(v: u64, k: int) -> u8 {
    ((v >> ((8 * k) as u64)) & 0xff) as u8
}

/// The first `min(width, 8)` little-endian bytes of `v`.
pub open spec fn le_prefix(v: u64, width: int) -> Seq<u8> {
    Seq::new(if width < 8 { width as nat } else { 8 }, |k: int| le_byte(v, k))
}

/// Varint-packed integers from `pos` on, re-encoded as `width`-byte
/// little-endian values.
pub open spec fn packed_ints_from(b: Seq<u8>, width: int, pos: int) -> Result<Seq<u8>, OnnxError>
    decreases b.len() - pos,
{
    if pos < 0 || pos >= b.len() {
        Ok(seq![])
    } else {
        match spec_varint(b, pos) {
            None => Err(OnnxError::MalformedPackedInts),
            Some((v, next)) => if pos < next <= b.len() {
                prepend(le_prefix(v, width), packed_ints_from(b, width, next))
            } else {
                Err(OnnxError::MalformedPackedInts)
            },
        }
    }
}

/// Re-encode varint-packed integers as little-endian fixed-width bytes.
pub fn packed_varints_to_bytes(msg: &[u8], width: usize) -> (r: Result<Vec<u8>, OnnxError>)
    ensures
        match packed_ints_from(msg@, width as int, 0) {
            Ok(bytes) => r is Ok && r->Ok_0@ == bytes,
            Err(e) => r == Err::<Vec<u8>, OnnxError>(e),
        },
{
    let n = if width < 8 { width } else { 8 };
    let mut out: Vec<u8> = Vec::new();
    let mut pos: usize = 0;
    proof {
        lemma_prepend_empty(packed_ints_from(msg@, width as int, 0));
    }
    while pos < msg.len()
        invariant
            pos <= msg.len(),
            n == (if width < 8 { width } else { 8 }),
            packed_ints_from(msg@, width as int, 0) == prepend(out@, packed_ints_from(msg@, width as int, pos as int)),
        decreases msg.len() - pos,
    {
        let (v, next) = match varint(msg, pos) {
            Some(x) => x,
            None => return Err(OnnxError::MalformedPackedInts),
        };
        proof {
            lemma_varint_advances(msg@, pos as int);
            lemma_prepend_assoc(out@, le_prefix(v, width as int), packed_ints_from(msg@, width as int, next as int));
        }
        let ghost before = out@;
        let mut k: usize = 0;
        while k < n
            invariant
                n <= 8,
                n == (if width < 8 { width } else { 8 }),
                k <= n,
                out@ == before + le_prefix(v, width as int).take(k as int),
            decreases n - k,
        {
            out.push(((v >> (8 * k) as u64) & 0xff) as u8);
            k += 1;
            proof {
                assert(out@ =~= before + le_prefix(v, width as int).take(k as int));
            }
        }
        proof {
            assert(le_prefix(v, width as int).take(n as int) =~= le_prefix(v, width as int));
        }
        pos = next;
    }
    proof {
        assert(out@ + seq![] =~= out@);
    }
    Ok(out)
}

/// Dims packed into one length-delimited payload, read as varints from `p`
/// while `p < end` (a varint may run past `end`; the walk then stops).
pub open spec fn packed_dims_from(b: Seq<u8>, p: int, end: int) -> Result<Seq<i64>, OnnxError>
    decreases end - p,
{
    if p >= end {
        Ok(seq![])
    } else {
        match spec_varint(b, p) {
            None => Err(OnnxError::MalformedDim),
            Some((v, np)) => if np < end && p < np {
                prepend(seq![v as i64], packed_dims_from(b, np, end))
            } else {
                Ok(seq![v as i64])
            },
        }
    }
}

/// The tensor dims (field 1, packed or one varint per field) from `pos` on.
pub open spec fn dims_from(b: Seq<u8>, pos: int) -> Result<Seq<i64>, OnnxError>
    decreases b.len() - pos,
{
    if pos < 0 || pos >= b.len() {
        Ok(seq![])
    } else {
        match spec_varint(b, pos) {
            None => Err(OnnxError::MalformedDimsField),
            Some((tag, next)) => {
                let (num, wire) = (tag >> 3, tag & 7);
                if num == 1 && wire == 2 {
                    match spec_varint(b, next) {
                        None => Err(OnnxError::MalformedPackedDims),
                        Some((len, start)) => {
                            let end = start + (len as usize);
                            if end > usize::MAX {
                                Err(OnnxError::PackedDimsOverflow)
                            } else if end > b.len() {
                                Err(OnnxError::PackedDimsExceedsBuffer)
                            } else if pos < end {
                                match packed_dims_from(b, start, end) {
                                    Ok(ds) => prepend(ds, dims_from(b, end)),
                                    Err(e) => Err(e),
                                }
                            } else {
                                Err(OnnxError::MalformedField)
                            }
                        },
                    }
                } else if num == 1 && wire == 0 {
                    match spec_varint(b, next) {
                        None => Err(OnnxError::MalformedDim),
                        Some((v, _)) => match spec_skip(b, next, wire) {
                            None => Err(OnnxError::MalformedField),
                            Some(p) => if pos < p <= b.len() {
                                prepend(seq![v as i64], dims_from(b, p))
                            } else {
                                Err(OnnxError::MalformedField)
                            },
                        },
                    }
                } else {
                    match spec_skip(b, next, wire) {
                        None => Err(OnnxError::MalformedField),
                        Some(p) => if pos < p <= b.len() {
                            dims_from(b, p)
                        } else {
                            Err(OnnxError::MalformedField)
                        },
                    }
                }
            },
        }
    }
}

/// The packed dims from `p`, followed by the dims of the rest of the message.
pub open spec fn packed_then(b: Seq<u8>, p: int, end: int) -> Result<Seq<i64>, OnnxError> {
    match packed_dims_from(b, p, end) {
        Ok(ds) => prepend(ds, dims_from(b, end)),
        Err(e) => Err(e),
    }
}

/// Read the dims of a TensorProto.
pub fn read_dims(msg: &[u8]) -> (r: Result<Vec<i64>, OnnxError>)
    ensures
        match dims_from(msg@, 0) {
            Ok(ds) => r is Ok && r->Ok_0@ == ds,
            Err(e) => r == Err::<Vec<i64>, OnnxError>(e),
        },
{
    let mut dims: Vec<i64> = Vec::new();
    let mut pos: usize = 0;
    proof {
        lemma_prepend_empty(dims_from(msg@, 0));
    }
    while pos < msg.len()
        invariant
            pos <= msg.len(),
            dims_from(msg@, 0) == prepend(dims@, dims_from(msg@, pos as int)),
        decreases msg.len() - pos,
    {
        let (tag, next) = match varint(msg, pos) {
            Some(x) => x,
            None => return Err(OnnxError::MalformedDimsField),
        };
        proof {
            lemma_varint_advances(msg@, pos as int);
        }
        let num = tag >> 3;
        let wire = tag & 7;
        if num == 1 && wire == 2 {
            let (len, start) = match varint(msg, next) {
                Some(x) => x,
                None => return Err(OnnxError::MalformedPackedDims),
            };
            proof {
                lemma_varint_advances(msg@, next as int);
            }
            let end = match start.checked_add(len as usize) {
                Some(e) => e,
                None => return Err(OnnxError::PackedDimsOverflow),
            };
            if end > msg.len() {
                return Err(OnnxError::PackedDimsExceedsBuffer);
            }
            let mut p = start;
            proof {
                assert(dims_from(msg@, pos as int) == packed_then(msg@, start as int, end as int));
            }
            while p < end
                invariant
                    end <= msg.len(),
                    p <= msg.len(),
                    dims_from(msg@, 0) == prepend(dims@, packed_then(msg@, p as int, end as int)),
                decreases msg.len() - p,
            {
                let (v, np) = match varint(msg, p) {
                    Some(x) => x,
                    None => return Err(OnnxError::MalformedDim),
                };
                proof {
                    lemma_varint_advances(msg@, p as int);
                    let rest = if np < end {
                        packed_then(msg@, np as int, end as int)
                    } else {
                        dims_from(msg@, end as int)
                    };
                    if np >= end {
                        lemma_prepend_empty(dims_from(msg@, end as int));
                    }
                    if np < end {
                        match packed_dims_from(msg@, np as int, end as int) {
                            Ok(ds) => lemma_prepend_assoc(seq![v as i64], ds, dims_from(msg@, end as int)),
                            Err(_) => {},
                        }
                    }
                    assert(packed_then(msg@, p as int, end as int) == prepend(seq![v as i64], rest));
                    lemma_prepend_assoc(dims@, seq![v as i64], rest);
                }
                let ghost old_dims = dims@;
                dims.push(v as i64);
                proof {
                    assert(dims@ =~= old_dims + seq![v as i64]);
                }
                p = np;
            }
            proof {
                assert(packed_then(msg@, p as int, end as int) == dims_from(msg@, end as int)) by {
                    lemma_prepend_empty(dims_from(msg@, end as int));
                }
            }
            pos = end;
        } else if num == 1 && wire == 0 {
            let (v, _) = match varint(msg, next) {
                Some(x) => x,
                None => return Err(OnnxError::MalformedDim),
            };
            proof {
                lemma_skip_bounds(msg@, pos as int, next as int, wire);
            }
            let p = match skip(msg, next, wire) {
                Some(p) => p,
                None => return Err(OnnxError::MalformedField),
            };
            proof {
                lemma_prepend_assoc(dims@, seq![v as i64], dims_from(msg@, p as int));
            }
            let ghost old_dims = dims@;
            dims.push(v as i64);
            proof {
                assert(dims@ =~= old_dims + seq![v as i64]);
            }
            pos = p;
        } else {
            proof {
                lemma_skip_bounds(msg@, pos as int, next as int, wire);
            }
            pos = match skip(msg, next, wire) {
                Some(p) => p,
                None => return Err(OnnxError::MalformedField),
            };
        }
    }
    proof {
        assert(dims@ + seq![] =~= dims@);
    }
    Ok(dims)
}

// ---------------------------------------------------------------------------
// Packed and repeated dims
// ---------------------------------------------------------------------------

/// Varints written back to back: the payload of a packed field.
pub open spec fn varints(d: Seq<u64>) -> Seq<u8>
    decreases d.len(),
{
    if d.len() == 0 {
        seq![]
    } else {
        encode_varint(d[0]) + varints(d.drop_first())
    }
}

/// The dims written one varint field each (field 1, wire type 0).
pub open spec fn repeated_dims(d: Seq<u64>) -> Seq<u8>
    decreases d.len(),
{
    if d.len() == 0 {
        seq![]
    } else {
        seq![0x08u8] + encode_varint(d[0]) + repeated_dims(d.drop_first())
    }
}

/// The dims written as one packed field (field 1, wire type 2).
pub open spec fn packed_dims(d: Seq<u64>) -> Seq<u8> {
    seq![0x0au8] + encode_varint(varints(d).len() as u64) + varints(d)
}

/// The dims as the reader returns them.
pub open spec fn dims_i64(d: Seq<u64>) -> Seq<i64> {
    d.map_values(|v: u64| v as i64)
}

/// A part of a window laid into a buffer lies at its offset in the buffer.
proof fn lemma_sub_window(b: Seq<u8>, pos: int, whole: Seq<u8>, off: int, part: Seq<u8>)
    requires
        0 <= pos,
        pos + whole.len() <= b.len(),
        b.subrange(pos, pos + whole.len()) == whole,
        0 <= off,
        off + part.len() <= whole.len(),
        whole.subrange(off, off + part.len()) == part,
    ensures
        b.subrange(pos + off, pos + off + part.len()) == part,
{
    let w = b.subrange(pos + off, pos + off + part.len());
    assert forall|i: int| 0 <= i < part.len() implies #[trigger] w[i] == part[i] by {
        assert(b.subrange(pos, pos + whole.len())[off + i] == whole[off + i]);
        assert(whole.subrange(off, off + part.len())[i] == part[i]);
    }
    assert(w =~= part);
}

/// The varint whose encoding is laid at `pos`.
proof fn lemma_varint_at(b: Seq<u8>, pos: int, v: u64)
    requires
        0 <= pos,
        pos + encode_varint(v).len() <= b.len(),
        b.subrange(pos, pos + encode_varint(v).len()) == encode_varint(v),
    ensures
        spec_varint(b, pos) == Some((v, pos + encode_varint(v).len() as int)),
{
    assert(0u64 >> 0u32 == 0 && (v << 0u32) >> 0u32 == v && (0u64 | (v << 0u32)) == v) by (bit_vector);
    lemma_varint_from_encoded(b, pos, 0, 0, v);
}

proof fn lemma_varints_len(d: Seq<u64>)
    ensures
        varints(d).len() >= d.len(),
    decreases d.len(),
{
    if d.len() > 0 {
        lemma_encode_varint_len(d[0]);
        lemma_varints_len(d.drop_first());
    }
}

/// A packed payload laid at `p` reads back as its dims.
proof fn lemma_packed_payload(b: Seq<u8>, p: int, end: int, d: Seq<u64>)
    requires
        0 <= p,
        end == p + varints(d).len(),
        end <= b.len(),
        b.subrange(p, end) == varints(d),
    ensures
        packed_dims_from(b, p, end) == Ok::<Seq<i64>, OnnxError>(dims_i64(d)),
    decreases d.len(),
{
    if d.len() == 0 {
        assert(dims_i64(d) =~= seq![]);
    } else {
        let e = encode_varint(d[0]);
        let t = varints(d.drop_first());
        lemma_encode_varint_len(d[0]);
        let whole = varints(d);
        assert(whole == e + t);
        assert(whole.subrange(0, e.len() as int) =~= e);
        lemma_sub_window(b, p, whole, 0, e);
        lemma_varint_at(b, p, d[0]);
        let np = p + e.len();
        if np < end {
            assert(whole.subrange(e.len() as int, (e.len() + t.len()) as int) =~= t);
            lemma_sub_window(b, p, whole, e.len() as int, t);
            lemma_packed_payload(b, np, end, d.drop_first());
            assert(seq![d[0] as i64] + dims_i64(d.drop_first()) =~= dims_i64(d));
        } else {
            lemma_varints_len(d.drop_first());
            assert(d.drop_first().len() == 0);
            assert(seq![d[0] as i64] =~= dims_i64(d));
        }
    }
}

/// Repeated dims fields laid at `pos` read as their dims, then whatever
/// follows them.
proof fn lemma_dims_repeated(b: Seq<u8>, pos: int, d: Seq<u64>)
    requires
        0 <= pos,
        pos + repeated_dims(d).len() <= b.len(),
        b.len() <= usize::MAX,
        b.subrange(pos, pos + repeated_dims(d).len()) == repeated_dims(d),
    ensures
        dims_from(b, pos) == prepend(dims_i64(d), dims_from(b, pos + repeated_dims(d).len())),
    decreases d.len(),
{
    if d.len() == 0 {
        assert(dims_i64(d) =~= seq![]);
        lemma_prepend_empty(dims_from(b, pos));
    } else {
        let whole = repeated_dims(d);
        let e = encode_varint(d[0]);
        let t = repeated_dims(d.drop_first());
        lemma_encode_varint_len(d[0]);
        assert(whole == seq![0x08u8] + e + t);
        assert(encode_varint(8) == seq![8u8]);
        assert(whole.subrange(0, 1) =~= encode_varint(8));
        lemma_sub_window(b, pos, whole, 0, encode_varint(8));
        lemma_varint_at(b, pos, 8);
        assert((8u64 >> 3u64) == 1 && (8u64 & 7u64) == 0) by (bit_vector);
        assert(whole.subrange(1, 1 + e.len() as int) =~= e);
        lemma_sub_window(b, pos, whole, 1, e);
        lemma_varint_at(b, pos + 1, d[0]);
        let q = pos + 1 + e.len();
        assert(whole.subrange(1 + e.len() as int, 1 + e.len() as int + t.len() as int) =~= t);
        lemma_sub_window(b, pos, whole, 1 + e.len() as int, t);
        lemma_dims_repeated(b, q, d.drop_first());
        assert(dims_from(b, pos) == prepend(seq![d[0] as i64], dims_from(b, q)));
        lemma_prepend_assoc(seq![d[0] as i64], dims_i64(d.drop_first()), dims_from(b, q + t.len()));
        assert(seq![d[0] as i64] + dims_i64(d.drop_first()) =~= dims_i64(d));
    }
}

/// A packed dims field laid at `pos` reads as its dims, then whatever
/// follows it.
proof fn lemma_dims_packed(b: Seq<u8>, pos: int, d: Seq<u64>)
    requires
        0 <= pos,
        pos + packed_dims(d).len() <= b.len(),
        b.len() <= usize::MAX,
        b.subrange(pos, pos + packed_dims(d).len()) == packed_dims(d),
    ensures
        dims_from(b, pos) == prepend(dims_i64(d), dims_from(b, pos + packed_dims(d).len())),
{
    let whole = packed_dims(d);
    let payload = varints(d);
    let n = payload.len();
    let le = encode_varint(n as u64);
    lemma_encode_varint_len(n as u64);
    assert(encode_varint(10) == seq![0x0au8]);
    assert(whole.subrange(0, 1) =~= encode_varint(10));
    lemma_sub_window(b, pos, whole, 0, encode_varint(10));
    lemma_varint_at(b, pos, 10);
    assert((10u64 >> 3u64) == 1 && (10u64 & 7u64) == 2) by (bit_vector);
    assert(whole.subrange(1, 1 + le.len() as int) =~= le);
    lemma_sub_window(b, pos, whole, 1, le);
    lemma_varint_at(b, pos + 1, n as u64);
    let start = pos + 1 + le.len();
    assert(((n as u64) as usize) as int == n);
    let end = start + n;
    assert(whole.subrange(1 + le.len() as int, 1 + le.len() as int + n as int) =~= payload);
    lemma_sub_window(b, pos, whole, 1 + le.len() as int, payload);
    lemma_packed_payload(b, start, end, d);
}

/// What follows a prefix reads the same with or without it (when it reads
/// without error): varints.
proof fn lemma_varint_from_shift(x: Seq<u8>, r: Seq<u8>, p: int, shift: u32, acc: u64)
    requires
        0 <= p,
    ensures
        varint_from(x + r, x.len() + p, shift, acc) == match varint_from(r, p, shift, acc) {
            Some((v, n)) => Some((v, n + x.len())),
            None => None,
        },
    decreases 64 - shift,
{
    if p < r.len() && shift < 64 {
        assert((x + r)[x.len() + p] == r[p]);
        let byte = r[p];
        let acc2 = acc | (((byte & 0x7f) as u64) << shift);
        if byte & 0x80 != 0 && shift + 7 < 64 {
            lemma_varint_from_shift(x, r, p + 1, (shift + 7) as u32, acc2);
        }
    }
}

/// The same for the end of a skipped payload.
proof fn lemma_skip_shift(x: Seq<u8>, r: Seq<u8>, p: int, wire: u64)
    requires
        0 <= p,
        x.len() + r.len() <= usize::MAX,
    ensures
        spec_skip(r, p, wire) matches Some(q) ==> spec_skip(x + r, x.len() + p, wire) == Some(q + x.len()),
{
    lemma_varint_from_shift(x, r, p, 0, 0);
}

/// The same for a packed dims payload.
proof fn lemma_packed_shift(x: Seq<u8>, r: Seq<u8>, p: int, end: int)
    requires
        0 <= p,
    ensures
        packed_dims_from(x + r, x.len() + p, x.len() + end) == packed_dims_from(r, p, end),
    decreases end - p,
{
    if p < end {
        lemma_varint_from_shift(x, r, p, 0, 0);
        if let Some((v, np)) = spec_varint(r, p) {
            if np < end && p < np {
                lemma_packed_shift(x, r, np, end);
            }
        }
    }
}

/// The same for the dims of a message.
proof fn lemma_dims_shift(x: Seq<u8>, r: Seq<u8>, p: int)
    requires
        0 <= p,
        x.len() + r.len() <= usize::MAX,
        dims_from(r, p) is Ok,
    ensures
        dims_from(x + r, x.len() + p) == dims_from(r, p),
    decreases r.len() - p,
{
    let b = x + r;
    let o = x.len() as int;
    if p < r.len() {
        lemma_varint_from_shift(x, r, p, 0, 0);
        lemma_varint_advances(r, p);
        let (tag, next) = spec_varint(r, p)->0;
        let (num, wire) = (tag >> 3, tag & 7);
        lemma_varint_from_shift(x, r, next, 0, 0);
        lemma_varint_advances(r, next);
        if num == 1 && wire == 2 {
            let (len, start) = spec_varint(r, next)->0;
            let end = start + (len as usize);
            lemma_packed_shift(x, r, start, end);
            lemma_dims_shift(x, r, end);
            assert(b.len() == o + r.len());
        } else if num == 1 && wire == 0 {
            lemma_skip_shift(x, r, next, wire);
            let q = spec_skip(r, next, wire)->0;
            lemma_dims_shift(x, r, q);
        } else {
            lemma_skip_shift(x, r, next, wire);
            let q = spec_skip(r, next, wire)->0;
            lemma_dims_shift(x, r, q);
        }
    }
}

/// Law: dims given as one packed field and dims given as one varint field
/// each read the same, followed by the dims of the rest of the message (on
/// any rest that reads without error).
pub proof fn lemma_packed_and_repeated_dims_agree(d: Seq<u64>, rest: Seq<u8>)
    requires
        packed_dims(d).len() + rest.len() <= usize::MAX,
        repeated_dims(d).len() + rest.len() <= usize::MAX,
        dims_from(rest, 0) is Ok,
    ensures
        dims_from(packed_dims(d) + rest, 0) == prepend(dims_i64(d), dims_from(rest, 0)),
        dims_from(repeated_dims(d) + rest, 0) == prepend(dims_i64(d), dims_from(rest, 0)),
{
    let pk = packed_dims(d);
    let rp = repeated_dims(d);
    assert((pk + rest).subrange(0, pk.len() as int) =~= pk);
    lemma_dims_packed(pk + rest, 0, d);
    lemma_dims_shift(pk, rest, 0);
    assert((rp + rest).subrange(0, rp.len() as int) =~= rp);
    lemma_dims_repeated(rp + rest, 0, d);
    lemma_dims_shift(rp, rest, 0);
}



/// The payload of the tensor's data: `raw_data` (field 9), else the packed
/// float32 (4) or double (10) arrays as stored, else the varint-packed int32
/// (5), int64 (7) or uint64 (11) arrays re-encoded little-endian; empty when
/// none is present.
pub open spec fn spec_tensor_data(m: Seq<u8>) -> Result<Seq<u8>, OnnxError> {
    match spec_first_ld(m, 9) {
        Err(e) => Err(e),
        Ok(Some(raw)) => Ok(raw),
        Ok(None) => match spec_first_ld(m, 4) {
            Err(e) => Err(e),
            Ok(Some(f)) => Ok(f),
            Ok(None) => match spec_first_ld(m, 10) {
                Err(e) => Err(e),
                Ok(Some(d)) => Ok(d),
                Ok(None) => match spec_first_ld(m, 5) {
                    Err(e) => Err(e),
                    Ok(Some(i)) => packed_ints_from(i, 4, 0),
                    Ok(None) => match spec_first_ld(m, 7) {
                        Err(e) => Err(e),
                        Ok(Some(i)) => packed_ints_from(i, 8, 0),
                        Ok(None) => match spec_first_ld(m, 11) {
                            Err(e) => Err(e),
                            Ok(Some(u)) => packed_ints_from(u, 8, 0),
                            Ok(None) => Ok(seq![]),
                        },
                    },
                },
            },
        },
    }
}

/// A length-delimited field: the tag `num << 3 | 2`, the payload's length
/// and the payload.
pub open spec fn ld_field(num: u64, payload: Seq<u8>) -> Seq<u8> {
    encode_varint((num * 8 + 2) as u64) + encode_varint(payload.len() as u64) + payload
}

/// One length-delimited field laid at `pos`: the walk over the fields
/// numbered `want` takes its payload when its number is `want`, and steps
/// over it otherwise.
proof fn lemma_ld_field_at(b: Seq<u8>, pos: int, num: u64, payload: Seq<u8>, want: u64)
    requires
        0 <= pos,
        pos + ld_field(num, payload).len() <= b.len(),
        b.len() <= usize::MAX,
        b.subrange(pos, pos + ld_field(num, payload).len()) == ld_field(num, payload),
        num < 0x1000_0000_0000_0000,
    ensures
        ld_fields_from(b, want, pos) == if num == want {
            prepend(seq![payload], ld_fields_from(b, want, pos + ld_field(num, payload).len()))
        } else {
            ld_fields_from(b, want, pos + ld_field(num, payload).len())
        },
{
    let whole = ld_field(num, payload);
    let tag = (num * 8 + 2) as u64;
    let et = encode_varint(tag);
    let n = payload.len();
    let el = encode_varint(n as u64);
    lemma_encode_varint_len(tag);
    assert(whole.subrange(0, et.len() as int) =~= et);
    lemma_sub_window(b, pos, whole, 0, et);
    lemma_varint_at(b, pos, tag);
    assert(tag >> 3 == num && tag & 7 == 2) by (bit_vector)
        requires
            num < 0x1000_0000_0000_0000,
            tag == num * 8 + 2,
    ;
    let next = pos + et.len();
    assert(whole.subrange(et.len() as int, (et.len() + el.len()) as int) =~= el);
    lemma_sub_window(b, pos, whole, et.len() as int, el);
    lemma_varint_at(b, next, n as u64);
    let start = next + el.len();
    assert(((n as u64) as usize) as int == n);
    let end = start + n;
    assert(whole.subrange((et.len() + el.len()) as int, whole.len() as int) =~= payload);
    lemma_sub_window(b, pos, whole, (et.len() + el.len()) as int, payload);
    assert(b.subrange(start, end) == payload);
    assert(end == pos + whole.len());
}

/// Law: a tensor payload written as the only field of a TensorProto, as
/// `raw_data` (field 9), `float_data` (field 4) or `double_data` (field 10),
/// reads back byte for byte, whatever the bytes.
pub proof fn lemma_tensor_payload_read_back(field: u64, payload: Seq<u8>)
    requires
        field == 9 || field == 4 || field == 10,
        ld_field(field, payload).len() <= usize::MAX,
    ensures
        spec_tensor_data(ld_field(field, payload)) == Ok::<Seq<u8>, OnnxError>(payload),
{
    let m = ld_field(field, payload);
    assert(m.subrange(0, m.len() as int) =~= m);
    lemma_ld_field_at(m, 0, field, payload, 9);
    lemma_ld_field_at(m, 0, field, payload, 4);
    lemma_ld_field_at(m, 0, field, payload, 10);
    assert(ld_fields_from(m, 9, m.len() as int) == Ok::<Seq<Seq<u8>>, OnnxError>(seq![]));
    assert(ld_fields_from(m, 4, m.len() as int) == Ok::<Seq<Seq<u8>>, OnnxError>(seq![]));
    assert(ld_fields_from(m, 10, m.len() as int) == Ok::<Seq<Seq<u8>>, OnnxError>(seq![]));
    assert(seq![payload] + seq![] =~= seq![payload]);
}

/// The values re-encoded as `width`-byte little-endian integers, one after
/// another.
pub open spec fn le_values(vals: Seq<u64>, width: int) -> Seq<u8>
    decreases vals.len(),
{
    if vals.len() == 0 {
        seq![]
    } else {
        le_prefix(vals[0], width) + le_values(vals.drop_first(), width)
    }
}

/// Varints laid from `pos` to the end of the buffer read back as their
/// values, re-encoded.
proof fn lemma_packed_ints_read_back(b: Seq<u8>, pos: int, width: int, vals: Seq<u64>)
    requires
        0 <= pos <= b.len(),
        b.subrange(pos, b.len() as int) == varints(vals),
    ensures
        packed_ints_from(b, width, pos) == Ok::<Seq<u8>, OnnxError>(le_values(vals, width)),
    decreases vals.len(),
{
    if vals.len() == 0 {
        assert(b.subrange(pos, b.len() as int).len() == 0);
    } else {
        let whole = varints(vals);
        let e = encode_varint(vals[0]);
        let t = varints(vals.drop_first());
        lemma_encode_varint_len(vals[0]);
        assert(whole == e + t);
        assert(whole.subrange(0, e.len() as int) =~= e);
        lemma_sub_window(b, pos, whole, 0, e);
        lemma_varint_at(b, pos, vals[0]);
        let next = pos + e.len();
        assert(b.subrange(next, b.len() as int) =~= t) by {
            assert forall|k: int| 0 <= k < t.len() implies #[trigger] b.subrange(next, b.len() as int)[k] == t[k] by {
                assert(b.subrange(pos, b.len() as int)[e.len() + k] == whole[e.len() + k]);
            }
        }
        lemma_packed_ints_read_back(b, next, width, vals.drop_first());
    }
}

/// Byte `j` of value `i` sits at `i * width + j`.
proof fn lemma_le_values_index(vals: Seq<u64>, width: int, i: int, j: int)
    requires
        1 <= width <= 8,
        0 <= i < vals.len(),
        0 <= j < width,
    ensures
        le_values(vals, width).len() == vals.len() * width,
        le_values(vals, width)[i * width + j] == le_byte(vals[i], j),
    decreases vals.len(),
{
    lemma_le_values_len(vals, width);
    let a = le_prefix(vals[0], width);
    let rest = le_values(vals.drop_first(), width);
    assert(le_values(vals, width) == a + rest);
    assert(a.len() == width);
    if i > 0 {
        lemma_le_values_index(vals.drop_first(), width, i - 1, j);
        let k = (i - 1) * width + j;
        assert(i * width + j == width + k) by (nonlinear_arith)
            requires
                k == (i - 1) * width + j,
        ;
        assert(0 <= k < (vals.len() - 1) * width) by (nonlinear_arith)
            requires
                k == (i - 1) * width + j,
                1 <= i < vals.len(),
                0 <= j < width,
        ;
        assert((a + rest)[width + k] == rest[k]);
        assert(vals.drop_first()[i - 1] == vals[i]);
    } else {
        assert((a + rest)[j] == a[j]);
    }
}

proof fn lemma_le_values_len(vals: Seq<u64>, width: int)
    requires
        1 <= width <= 8,
    ensures
        le_values(vals, width).len() == vals.len() * width,
    decreases vals.len(),
{
    if vals.len() > 0 {
        lemma_le_values_len(vals.drop_first(), width);
        assert(vals.len() * width == width + (vals.len() - 1) * width) by (nonlinear_arith);
    } else {
        assert(0 * width == 0) by (nonlinear_arith);
    }
}

/// Law: integers written as the only field of a TensorProto, varint-packed
/// as `int32_data` (field 5), `int64_data` (field 7) or `uint64_data`
/// (field 11), read back as their little-endian bytes: four per value for
/// `int32_data`, eight otherwise, value after value.
pub proof fn lemma_tensor_int_payload_read_back(field: u64, vals: Seq<u64>)
    requires
        field == 5 || field == 7 || field == 11,
        ld_field(field, varints(vals)).len() <= usize::MAX,
    ensures
        ({
            let width: int = if field == 5 { 4 } else { 8 };
            &&& spec_tensor_data(ld_field(field, varints(vals))) matches Ok(d)
            &&& d.len() == vals.len() * width
            &&& forall|i: int, j: int|
                0 <= i < vals.len() && 0 <= j < width ==> d[i * width + j] == le_byte(vals[i], j)
        }),
{
    let payload = varints(vals);
    let m = ld_field(field, payload);
    let width: int = if field == 5 { 4 } else { 8 };
    assert(m.subrange(0, m.len() as int) =~= m);
    lemma_ld_field_at(m, 0, field, payload, 9);
    lemma_ld_field_at(m, 0, field, payload, 4);
    lemma_ld_field_at(m, 0, field, payload, 10);
    lemma_ld_field_at(m, 0, field, payload, 5);
    lemma_ld_field_at(m, 0, field, payload, 7);
    lemma_ld_field_at(m, 0, field, payload, 11);
    assert(seq![payload] + seq![] =~= seq![payload]);
    assert(payload.subrange(0, payload.len() as int) =~= payload);
    lemma_packed_ints_read_back(payload, 0, width, vals);
    lemma_le_values_len(vals, width);
    assert forall|i: int, j: int| 0 <= i < vals.len() && 0 <= j < width implies le_values(vals, width)[i
        * width + j] == le_byte(vals[i], j) by {
        lemma_le_values_index(vals, width, i, j);
    }
}

/// Law: `raw_data` (field 9) is the payload whenever it is present: after a
/// typed array field (4, 10, 5, 7 or 11) or before it, the raw bytes are
/// what the tensor holds.
pub proof fn lemma_tensor_raw_data_wins(field: u64, typed: Seq<u8>, raw: Seq<u8>)
    requires
        field == 4 || field == 10 || field == 5 || field == 7 || field == 11,
        ld_field(field, typed).len() + ld_field(9, raw).len() <= usize::MAX,
    ensures
        spec_tensor_data(ld_field(field, typed) + ld_field(9, raw)) == Ok::<Seq<u8>, OnnxError>(raw),
        spec_tensor_data(ld_field(9, raw) + ld_field(field, typed)) == Ok::<Seq<u8>, OnnxError>(raw),
{
    let a = ld_field(field, typed);
    let b = ld_field(9, raw);
    let m1 = a + b;
    assert(m1.subrange(0, a.len() as int) =~= a);
    assert(m1.subrange(a.len() as int, m1.len() as int) =~= b);
    lemma_ld_field_at(m1, 0, field, typed, 9);
    lemma_ld_field_at(m1, a.len() as int, 9, raw, 9);
    let m2 = b + a;
    assert(m2.subrange(0, b.len() as int) =~= b);
    assert(m2.subrange(b.len() as int, m2.len() as int) =~= a);
    lemma_ld_field_at(m2, 0, 9, raw, 9);
    lemma_ld_field_at(m2, b.len() as int, field, typed, 9);
    assert(seq![raw] + seq![] =~= seq![raw]);
}

/// A TensorProto: rejected when `data_location` (14) is EXTERNAL (1); the
/// name (8, empty when absent or not UTF-8), the data type (2, required,
/// truncated to `i32`), the dims and the data.
pub open spec fn spec_parse_tensor(m: Seq<u8>) -> Result<SpecTensor, OnnxError> {
    match spec_first_varint(m, 14) {
        Err(e) => Err(e),
        Ok(loc) => if loc == Some(1u64) {
            Err(OnnxError::ExternalData)
        } else {
            match spec_first_string(m, 8) {
                Err(e) => Err(e),
                Ok(name) => match spec_first_varint(m, 2) {
                    Err(e) => Err(e),
                    Ok(None) => Err(OnnxError::MissingDataType),
                    Ok(Some(dt)) => match dims_from(m, 0) {
                        Err(e) => Err(e),
                        Ok(dims) => match spec_tensor_data(m) {
                            Err(e) => Err(e),
                            Ok(data) => Ok(
                                SpecTensor {
                                    name: match name {
                                        Some(n) => n,
                                        None => seq![],
                                    },
                                    dims,
                                    dtype: dt as i32,
                                    data,
                                },
                            ),
                        },
                    },
                },
            }
        },
    }
}

fn tensor_data(msg: &[u8]) -> (r: Result<Vec<u8>, OnnxError>)
    ensures
        match spec_tensor_data(msg@) {
            Ok(d) => r is Ok && r->Ok_0@ == d,
            Err(e) => r == Err::<Vec<u8>, OnnxError>(e),
        },
{
    if let Some(raw) = first_length_delimited(msg, 9)? {
        return Ok(vstd::slice::slice_to_vec(raw));
    }
    if let Some(f) = first_length_delimited(msg, 4)? {
        return Ok(vstd::slice::slice_to_vec(f));
    }
    if let Some(d) = first_length_delimited(msg, 10)? {
        return Ok(vstd::slice::slice_to_vec(d));
    }
    if let Some(i) = first_length_delimited(msg, 5)? {
        return packed_varints_to_bytes(i, 4);
    }
    if let Some(i) = first_length_delimited(msg, 7)? {
        return packed_varints_to_bytes(i, 8);
    }
    if let Some(u) = first_length_delimited(msg, 11)? {
        return packed_varints_to_bytes(u, 8);
    }
    Ok(Vec::new())
}

/// Parse one TensorProto (see [`spec_parse_tensor`]).
pub fn parse_tensor(msg: &[u8]) -> (r: Result<OnnxTensor, OnnxError>)
    ensures
        match spec_parse_tensor(msg@) {
            Ok(t) => r is Ok && r->Ok_0@ == t,
            Err(e) => r is Err && r->Err_0 == e,
        },
{
    if first_varint(msg, 14)? == Some(1u64) {
        return Err(OnnxError::ExternalData);
    }
    let name = match first_string(msg, 8)? {
        Some(s) => s.to_owned(),
        None => String::new(),
    };
    let dtype = match first_varint(msg, 2)? {
        Some(d) => d as i32,
        None => return Err(OnnxError::MissingDataType),
    };
    let dims = read_dims(msg)?;
    let data = tensor_data(msg)?;
    Ok(OnnxTensor { name, dims, dtype, data })
}



// ---------------------------------------------------------------------------
// Model
// ---------------------------------------------------------------------------

proof fn lemma_skip_step<A>(s: Seq<A>, i: int)
    requires
        0 <= i < s.len(),
    ensures
        s.skip(i).len() > 0,
        s.skip(i)[0] == s[i],
        s.skip(i).drop_first() == s.skip(i + 1),
{
    assert(s.skip(i).drop_first() =~= s.skip(i + 1));
}

/// The initializers, in order, without the unnamed ones (unreachable from
/// the graph); the first malformed one fails the read.
pub open spec fn spec_inits(inits: Seq<Seq<u8>>) -> Result<Seq<SpecTensor>, OnnxError>
    decreases inits.len(),
{
    if inits.len() == 0 {
        Ok(seq![])
    } else {
        match spec_parse_tensor(inits[0]) {
            Err(e) => Err(e),
            Ok(t) => prepend(
                if t.name.len() == 0 {
                    seq![]
                } else {
                    seq![t]
                },
                spec_inits(inits.drop_first()),
            ),
        }
    }
}

/// A tensor renamed to the node's output name, when it has one.
pub open spec fn renamed(t: SpecTensor, out_name: Option<Seq<char>>) -> SpecTensor {
    match out_name {
        Some(n) => SpecTensor { name: n, ..t },
        None => t,
    }
}

/// The tensor of one attribute of a `Constant` node: present when the
/// attribute is named `value`, has type TENSOR (20 = 4) and carries a tensor
/// (field 5).
pub open spec fn spec_attr(attr: Seq<u8>, out_name: Option<Seq<char>>) -> Result<Option<SpecTensor>, OnnxError> {
    match spec_first_string(attr, 1) {
        Err(e) => Err(e),
        Ok(n) => if n != Some("value"@) {
            Ok(None)
        } else {
            match spec_first_varint(attr, 20) {
                Err(e) => Err(e),
                Ok(ty) => if ty != Some(4u64) {
                    Ok(None)
                } else {
                    match spec_first_ld(attr, 5) {
                        Err(e) => Err(e),
                        Ok(None) => Ok(None),
                        Ok(Some(tb)) => match spec_parse_tensor(tb) {
                            Err(e) => Err(e),
                            Ok(t) => Ok(Some(renamed(t, out_name))),
                        },
                    }
                },
            }
        },
    }
}

/// The tensors of a `Constant` node's attributes, in order.
pub open spec fn spec_attrs(attrs: Seq<Seq<u8>>, out_name: Option<Seq<char>>) -> Result<Seq<SpecTensor>, OnnxError>
    decreases attrs.len(),
{
    if attrs.len() == 0 {
        Ok(seq![])
    } else {
        match spec_attr(attrs[0], out_name) {
            Err(e) => Err(e),
            Ok(o) => prepend(
                match o {
                    Some(t) => seq![t],
                    None => seq![],
                },
                spec_attrs(attrs.drop_first(), out_name),
            ),
        }
    }
}

/// The node's first output name, when it is valid UTF-8.
pub open spec fn spec_out_name(outs: Seq<Seq<u8>>) -> Option<Seq<char>> {
    if outs.len() > 0 {
        utf8_text(outs[0])
    } else {
        None
    }
}

/// The weight tensors of one node: none unless its op_type (4) is
/// `Constant`; then the tensors of its attributes (5), keyed by the node's
/// output name (2).
pub open spec fn spec_node(node: Seq<u8>) -> Result<Seq<SpecTensor>, OnnxError> {
    match spec_first_string(node, 4) {
        Err(e) => Err(e),
        Ok(op) => if op != Some("Constant"@) {
            Ok(seq![])
        } else {
            match spec_ld_fields(node, 2) {
                Err(e) => Err(e),
                Ok(outs) => match spec_ld_fields(node, 5) {
                    Err(e) => Err(e),
                    Ok(attrs) => spec_attrs(attrs, spec_out_name(outs)),
                },
            }
        },
    }
}

/// The weight tensors of all nodes, in order.
pub open spec fn spec_nodes(nodes: Seq<Seq<u8>>) -> Result<Seq<SpecTensor>, OnnxError>
    decreases nodes.len(),
{
    if nodes.len() == 0 {
        Ok(seq![])
    } else {
        match spec_node(nodes[0]) {
            Err(e) => Err(e),
            Ok(ts) => prepend(ts, spec_nodes(nodes.drop_first())),
        }
    }
}

/// All weight tensors of a model: the graph (field 7) must be present; its
/// named initializers (5) come first, then the `Constant` node tensors (1);
/// finding none at all is an error.
pub open spec fn spec_read_initializers(bytes: Seq<u8>) -> Result<Seq<SpecTensor>, OnnxError> {
    match spec_first_ld(bytes, 7) {
        Err(e) => Err(e),
        Ok(None) => Err(OnnxError::NoGraph),
        Ok(Some(g)) => match spec_ld_fields(g, 5) {
            Err(e) => Err(e),
            Ok(inits) => match spec_inits(inits) {
                Err(e) => Err(e),
                Ok(a) => match spec_ld_fields(g, 1) {
                    Err(e) => Err(e),
                    Ok(nodes) => match spec_nodes(nodes) {
                        Err(e) => Err(e),
                        Ok(b) => if a.len() + b.len() == 0 {
                            Err(OnnxError::NoWeights)
                        } else {
                            Ok(a + b)
                        },
                    },
                },
            },
        },
    }
}

/// The tensors of a vector, by value.
pub open spec fn tensors_view(v: Seq<OnnxTensor>) -> Seq<SpecTensor> {
    v.map_values(|t: OnnxTensor| t@)
}

proof fn lemma_tensors_view_push(v: Seq<OnnxTensor>, t: OnnxTensor)
    ensures
        tensors_view(v.push(t)) == tensors_view(v) + seq![t@],
{
    assert(tensors_view(v.push(t)) =~= tensors_view(v) + seq![t@]);
}

fn read_attr(attr: &[u8], out_name: &Option<String>) -> (r: Result<Option<OnnxTensor>, OnnxError>)
    ensures
        match spec_attr(attr@, match out_name { Some(n) => Some(n@), None => None }) {
            Ok(Some(t)) => r is Ok && r->Ok_0 is Some && r->Ok_0->Some_0@ == t,
            Ok(None) => r is Ok && r->Ok_0 is None,
            Err(e) => r is Err && r->Err_0 == e,
        },
{
    let is_value = match first_string(attr, 1)? {
        Some(n) => str_eq(n, "value"),
        None => false,
    };
    proof {
        reveal_strlit("value");
    }
    if !is_value {
        return Ok(None);
    }
    if first_varint(attr, 20)? != Some(4u64) {
        return Ok(None);
    }
    match first_length_delimited(attr, 5)? {
        Some(t) => {
            let mut tensor = parse_tensor(t)?;
            match out_name {
                Some(n) => {
                    tensor.name = n.clone();
                },
                None => {},
            }
            Ok(Some(tensor))
        },
        None => Ok(None),
    }
}

fn read_node(node: &[u8]) -> (r: Result<Vec<OnnxTensor>, OnnxError>)
    ensures
        match spec_node(node@) {
            Ok(ts) => r is Ok && tensors_view(r->Ok_0@) == ts,
            Err(e) => r is Err && r->Err_0 == e,
        },
{
    let is_constant = match first_string(node, 4)? {
        Some(op) => str_eq(op, "Constant"),
        None => false,
    };
    proof {
        reveal_strlit("Constant");
    }
    let mut out: Vec<OnnxTensor> = Vec::new();
    if !is_constant {
        proof {
            assert(tensors_view(out@) =~= seq![]);
        }
        return Ok(out);
    }
    let outs = length_delimited_fields(node, 2)?;
    let ghost outs_v = spec_ld_fields(node@, 2)->Ok_0;
    let out_name: Option<String> = if outs.len() > 0 {
        match utf8_text_of(outs[0]) {
            Some(s) => Some(s.to_owned()),
            None => None,
        }
    } else {
        None
    };
    let ghost name_v = spec_out_name(outs_v);
    assert(name_v == match out_name { Some(n) => Some(n@), None => None });
    let attrs = length_delimited_fields(node, 5)?;
    let ghost attrs_v = spec_ld_fields(node@, 5)->Ok_0;
    proof {
        assert(attrs_v.skip(0) =~= attrs_v);
        assert(tensors_view(out@) =~= seq![]);
        lemma_prepend_empty(spec_attrs(attrs_v, name_v));
    }
    let mut i: usize = 0;
    while i < attrs.len()
        invariant
            attrs.len() == attrs_v.len(),
            forall|k: int| 0 <= k < attrs_v.len() ==> (#[trigger] attrs@[k])@ == attrs_v[k],
            name_v == match out_name { Some(n) => Some(n@), None => None },
            spec_node(node@) == spec_attrs(attrs_v, name_v),
            i <= attrs.len(),
            spec_attrs(attrs_v, name_v) == prepend(tensors_view(out@), spec_attrs(attrs_v.skip(i as int), name_v)),
        decreases attrs.len() - i,
    {
        proof {
            lemma_skip_step(attrs_v, i as int);
        }
        let found = match read_attr(attrs[i], &out_name) {
            Ok(f) => f,
            Err(e) => {
                proof {
                    assert(spec_attrs(attrs_v.skip(i as int), name_v) == Err::<Seq<SpecTensor>, OnnxError>(e));
                }
                return Err(e);
            },
        };
        match found {
            Some(t) => {
                proof {
                    lemma_prepend_assoc(tensors_view(out@), seq![t@], spec_attrs(attrs_v.skip(i + 1), name_v));
                    lemma_tensors_view_push(out@, t);
                }
                out.push(t);
            },
            None => {
                proof {
                    lemma_prepend_empty(spec_attrs(attrs_v.skip(i + 1), name_v));
                }
            },
        }
        i += 1;
    }
    proof {
        assert(attrs_v.skip(attrs_v.len() as int) =~= seq![]);
        assert(tensors_view(out@) + seq![] =~= tensors_view(out@));
    }
    Ok(out)
}

/// Read all weight tensors (initializers and `Constant` node values) of an
/// ONNX model file (see [`spec_read_initializers`]); the error is the
/// failure's message.
pub fn read_initializers(bytes: &[u8]) -> (r: Result<Vec<OnnxTensor>, String>)
    ensures
        match spec_read_initializers(bytes@) {
            Ok(ts) => r is Ok && tensors_view(r->Ok_0@) == ts,
            Err(e) => r is Err && r->Err_0@ == error_text(e),
        },
{
    match read_model(bytes) {
        Ok(ts) => Ok(ts),
        Err(e) => Err(e.message().to_owned()),
    }
}

/// [`read_initializers`] with the error as its kind.
pub fn read_model(bytes: &[u8]) -> (r: Result<Vec<OnnxTensor>, OnnxError>)
    ensures
        match spec_read_initializers(bytes@) {
            Ok(ts) => r is Ok && tensors_view(r->Ok_0@) == ts,
            Err(e) => r is Err && r->Err_0 == e,
        },
{
    let graph = match first_length_delimited(bytes, 7)? {
        Some(g) => g,
        None => return Err(OnnxError::NoGraph),
    };
    let mut out: Vec<OnnxTensor> = Vec::new();
    let inits = length_delimited_fields(graph, 5)?;
    let ghost inits_v = spec_ld_fields(graph@, 5)->Ok_0;
    proof {
        assert(inits_v.skip(0) =~= inits_v);
        assert(tensors_view(out@) =~= seq![]);
        lemma_prepend_empty(spec_inits(inits_v));
    }
    let mut i: usize = 0;
    while i < inits.len()
        invariant
            inits.len() == inits_v.len(),
            forall|k: int| 0 <= k < inits_v.len() ==> (#[trigger] inits@[k])@ == inits_v[k],
            i <= inits.len(),
            forall|e: OnnxError| spec_inits(inits_v) == Err::<Seq<SpecTensor>, OnnxError>(e)
                ==> #[trigger] spec_read_initializers(bytes@) == Err::<Seq<SpecTensor>, OnnxError>(e),
            spec_inits(inits_v) == prepend(tensors_view(out@), spec_inits(inits_v.skip(i as int))),
        decreases inits.len() - i,
    {
        proof {
            lemma_skip_step(inits_v, i as int);
        }
        let t = match parse_tensor(inits[i]) {
            Ok(t) => t,
            Err(e) => {
                proof {
                    assert(spec_inits(inits_v.skip(i as int)) == Err::<Seq<SpecTensor>, OnnxError>(e));
                }
                return Err(e);
            },
        };
        if t.name.as_str().is_empty() {
            proof {
                lemma_prepend_empty(spec_inits(inits_v.skip(i + 1)));
            }
        } else {
            proof {
                lemma_prepend_assoc(tensors_view(out@), seq![t@], spec_inits(inits_v.skip(i + 1)));
                lemma_tensors_view_push(out@, t);
            }
            out.push(t);
        }
        i += 1;
    }
    proof {
        assert(inits_v.skip(inits_v.len() as int) =~= seq![]);
        assert(tensors_view(out@) + seq![] =~= tensors_view(out@));
    }
    let ghost a = tensors_view(out@);
    let nodes = length_delimited_fields(graph, 1)?;
    let ghost nodes_v = spec_ld_fields(graph@, 1)->Ok_0;
    proof {
        assert(nodes_v.skip(0) =~= nodes_v);
        lemma_prepend_empty(spec_nodes(nodes_v));
    }
    let mut j: usize = 0;
    while j < nodes.len()
        invariant
            nodes.len() == nodes_v.len(),
            forall|k: int| 0 <= k < nodes_v.len() ==> (#[trigger] nodes@[k])@ == nodes_v[k],
            j <= nodes.len(),
            forall|e: OnnxError| spec_nodes(nodes_v) == Err::<Seq<SpecTensor>, OnnxError>(e)
                ==> #[trigger] spec_read_initializers(bytes@) == Err::<Seq<SpecTensor>, OnnxError>(e),
            tensors_view(out@).len() >= a.len(),
            tensors_view(out@).take(a.len() as int) == a,
            spec_nodes(nodes_v) == prepend(tensors_view(out@).skip(a.len() as int), spec_nodes(nodes_v.skip(j as int))),
        decreases nodes.len() - j,
    {
        proof {
            lemma_skip_step(nodes_v, j as int);
        }
        let mut ts = match read_node(nodes[j]) {
            Ok(ts) => ts,
            Err(e) => {
                proof {
                    assert(spec_nodes(nodes_v.skip(j as int)) == Err::<Seq<SpecTensor>, OnnxError>(e));
                }
                return Err(e);
            },
        };
        let ghost before = out@;
        let ghost tsv = tensors_view(ts@);
        out.append(&mut ts);
        proof {
            assert(tensors_view(out@) =~= tensors_view(before) + tsv);
            assert(tensors_view(out@).skip(a.len() as int) =~= tensors_view(before).skip(a.len() as int) + tsv);
            assert(tensors_view(out@).take(a.len() as int) =~= tensors_view(before).take(a.len() as int));
            lemma_prepend_assoc(tensors_view(before).skip(a.len() as int), tsv, spec_nodes(nodes_v.skip(j + 1)));
        }
        j += 1;
    }
    proof {
        assert(nodes_v.skip(nodes_v.len() as int) =~= seq![]);
        assert(tensors_view(out@) =~= a + tensors_view(out@).skip(a.len() as int));
        assert(tensors_view(out@).skip(a.len() as int) + seq![] =~= tensors_view(out@).skip(a.len() as int));
    }
    if out.len() == 0 {
        return Err(OnnxError::NoWeights);
    }
    Ok(out)
}

// ---------------------------------------------------------------------------
// Element layout of a weight tensor
// ---------------------------------------------------------------------------

/// Bytes per element of the ONNX data types the weight conversion reads:
/// FLOAT (1) and INT32 (6) 4, FLOAT16 (10) 2, DOUBLE (11) and INT64 (7) 8.
pub open spec fn dtype_width(dtype: i32) -> Option<nat> {
    if dtype == 1 || dtype == 6 {
        Some(4)
    } else if dtype == 10 {
        Some(2)
    } else if dtype == 11 || dtype == 7 {
        Some(8)
    } else {
        None
    }
}

/// Product of the dims, each taken as `usize`.
pub open spec fn dims_count(dims: Seq<i64>) -> int
    decreases dims.len(),
{
    if dims.len() == 0 {
        1
    } else {
        dims_count(dims.drop_last()) * (dims.last() as usize)
    }
}

/// The decimal text of a signed integer.
pub open spec fn signed_text(x: int) -> Seq<char> {
    if x < 0 {
        "-"@ + decimal((-x) as nat)
    } else {
        decimal(x as nat)
    }
}

/// The element width and count of a weight tensor's data: its data type must
/// be one the conversion reads, and its data must hold as many whole
/// elements as its dims multiply to.
pub open spec fn spec_element_layout(t: SpecTensor) -> Result<(nat, int), Seq<char>> {
    match dtype_width(t.dtype) {
        None => Err("unsupported ONNX dtype "@ + signed_text(t.dtype as int) + " for "@ + t.name),
        Some(wd) => if t.data.len() / wd == dims_count(t.dims) {
            Ok((wd, dims_count(t.dims)))
        } else {
            Err("data length mismatch for "@ + t.name)
        },
    }
}

/// The element width (bytes) and element count of a weight tensor, or why
/// its data cannot be read as elements.
pub fn element_layout(t: &OnnxTensor) -> (r: Result<(usize, usize), String>)
    requires
        forall|k: int| 0 <= k <= t.dims.len() ==> dims_count(#[trigger] t.dims@.take(k)) <= usize::MAX,
    ensures
        match spec_element_layout(t@) {
            Ok((wd, n)) => r matches Ok((w, c)) && w == wd && c == n,
            Err(m) => r matches Err(e) && e@ == m,
        },
{
    let mut n: usize = 1;
    let mut i: usize = 0;
    proof {
        assert(t.dims@.take(0) =~= Seq::<i64>::empty());
    }
    while i < t.dims.len()
        invariant
            i <= t.dims.len(),
            forall|k: int| 0 <= k <= t.dims.len() ==> dims_count(#[trigger] t.dims@.take(k)) <= usize::MAX,
            n == dims_count(t.dims@.take(i as int)),
        decreases t.dims.len() - i,
    {
        let d = t.dims[i] as usize;
        proof {
            assert(t.dims@.take(i + 1).drop_last() =~= t.dims@.take(i as int));
            assert(dims_count(t.dims@.take(i + 1)) <= usize::MAX);
        }
        n = n * d;
        i += 1;
    }
    proof {
        assert(t.dims@.take(t.dims.len() as int) =~= t.dims@);
    }
    let width: usize = if t.dtype == 1 || t.dtype == 6 {
        4
    } else if t.dtype == 10 {
        2
    } else if t.dtype == 11 || t.dtype == 7 {
        8
    } else {
        let mut m = String::from_str("unsupported ONNX dtype ");
        if t.dtype < 0 {
            push_char(&mut m, '-');
            push_numeral(&mut m, (0 - (t.dtype as i64)) as u64, 10);
        } else {
            push_numeral(&mut m, t.dtype as u64, 10);
        }
        m.append(" for ");
        m.append(t.name.as_str());
        proof {
            reveal_strlit("-");
            assert(m@ =~= "unsupported ONNX dtype "@ + signed_text(t.dtype as int) + " for "@ + t.name@);
        }
        return Err(m);
    };
    if t.data.len() / width != n {
        let mut m = String::from_str("data length mismatch for ");
        m.append(t.name.as_str());
        return Err(m);
    }
    Ok((width, n))
}

} // verus!
