//! The typed attribute-record decoder.
//!
//! A record is a length-prefixed UTF-16 filename, a four-byte attribute
//! tag, and a payload whose layout the tag decides.  Every tag first
//! asserts a four-byte primitive type code (`bool`, `long`, `shor`,
//! `blob`, `type`, `comp`, `dutc`, `ustr`) and then reads its value.  The
//! dispatch is a closed table: a tag outside it is `UnknownStructureType`.
//!
//! Tags and type codes are handled as their four bytes packed big-endian
//! into a `u32`; the constants below name each one.

use crate::cursor::{
    spec_blob, spec_buf, spec_expect4, spec_i16, spec_i32, spec_i64, spec_skip, spec_u16, spec_u32,
    spec_u8, spec_utf16, Cursor,
};
use crate::{BadDataReason, Error};
use vstd::prelude::*;

verus! {

/// Tag `BKGD`.
pub const TAG_BKGD: u32 = 0x424B4744;

/// Tag `ICVO`.
pub const TAG_ICVO_CAPS: u32 = 0x4943564F;

/// Tag `Iloc`.
pub const TAG_ILOC: u32 = 0x496C6F63;

/// Tag `LSVO`.
pub const TAG_LSVO_CAPS: u32 = 0x4C53564F;

/// Tag `bwsp`.
pub const TAG_BWSP: u32 = 0x62777370;

/// Tag `cmmt`.
pub const TAG_CMMT: u32 = 0x636D6D74;

/// Tag `dilc`.
pub const TAG_DILC: u32 = 0x64696C63;

/// Tag `dscl`.
pub const TAG_DSCL: u32 = 0x6473636C;

/// Tag `extn`.
pub const TAG_EXTN: u32 = 0x6578746E;

/// Tag `fwi0`.
pub const TAG_FWI0: u32 = 0x66776930;

/// Tag `fwsw`.
pub const TAG_FWSW: u32 = 0x66777377;

/// Tag `fwvh`.
pub const TAG_FWVH: u32 = 0x66777668;

/// Tag `GRP0`.
pub const TAG_GRP0: u32 = 0x47525030;

/// Tag `icgo`.
pub const TAG_ICGO: u32 = 0x6963676F;

/// Tag `icsp`.
pub const TAG_ICSP: u32 = 0x69637370;

/// Tag `icvo`.
pub const TAG_ICVO: u32 = 0x6963766F;

/// Tag `icvp`.
pub const TAG_ICVP: u32 = 0x69637670;

/// Tag `icvt`.
pub const TAG_ICVT: u32 = 0x69637674;

/// Tag `info`.
pub const TAG_INFO: u32 = 0x696E666F;

/// Tag `logS`.
pub const TAG_LOGS: u32 = 0x6C6F6753;

/// Tag `lg1S`.
pub const TAG_LG1S: u32 = 0x6C673153;

/// Tag `lssp`.
pub const TAG_LSSP: u32 = 0x6C737370;

/// Tag `lsvo`.
pub const TAG_LSVO: u32 = 0x6C73766F;

/// Tag `lsvt`.
pub const TAG_LSVT: u32 = 0x6C737674;

/// Tag `lsvp`.
pub const TAG_LSVP: u32 = 0x6C737670;

/// Tag `lsvP`.
pub const TAG_LSVP_CAP: u32 = 0x6C737650;

/// Tag `modD`.
pub const TAG_MODD: u32 = 0x6D6F6444;

/// Tag `moDD`.
pub const TAG_MODD_CAPS: u32 = 0x6D6F4444;

/// Tag `phyS`.
pub const TAG_PHYS: u32 = 0x70687953;

/// Tag `ph1S`.
pub const TAG_PH1S: u32 = 0x70683153;

/// Tag `pict`.
pub const TAG_PICT: u32 = 0x70696374;

/// Tag `ptbL`.
pub const TAG_PTBL: u32 = 0x7074624C;

/// Tag `ptbN`.
pub const TAG_PTBN: u32 = 0x7074624E;

/// Tag `vSrn`.
pub const TAG_VSRN: u32 = 0x7653726E;

/// Tag `vstl`.
pub const TAG_VSTL: u32 = 0x7673746C;

/// Type code `bool`.
pub const TYPE_BOOL: u32 = 0x626F6F6C;

/// Type code `long`.
pub const TYPE_LONG: u32 = 0x6C6F6E67;

/// Type code `shor`.
pub const TYPE_SHOR: u32 = 0x73686F72;

/// Type code `blob`.
pub const TYPE_BLOB: u32 = 0x626C6F62;

/// Type code `type`.
pub const TYPE_TYPE: u32 = 0x74797065;

/// Type code `comp`.
pub const TYPE_COMP: u32 = 0x636F6D70;

/// Type code `dutc`.
pub const TYPE_DUTC: u32 = 0x64757463;

/// Type code `ustr`.
pub const TYPE_USTR: u32 = 0x75737472;

/// Background sub-tag `DefB`.
pub const SUB_DEFB: u32 = 0x44656642;

/// Background sub-tag `ClrB`.
pub const SUB_CLRB: u32 = 0x436C7242;

/// Background sub-tag `PctB`.
pub const SUB_PCTB: u32 = 0x50637442;

/// View-style code `icnv`.
pub const STYLE_ICNV: u32 = 0x69636E76;

/// View-style code `clmv`.
pub const STYLE_CLMV: u32 = 0x636C6D76;

/// View-style code `Nlsv`.
pub const STYLE_NLSV: u32 = 0x4E6C7376;

/// View-style code `Flwv`.
pub const STYLE_FLWV: u32 = 0x466C7776;

/// Seconds from the Mac epoch (1904-01-01) to the Unix epoch (1970-01-01).
/// A `dutc` raw tick count plus this offset is seconds since the Unix
/// epoch.
pub const MAC_EPOCH_OFFSET: i64 = 2082844800;

/// A directory background, from a `BKGD` record.
#[derive(Debug, Clone, Copy, PartialEq, Eq, Structural)]
pub enum BackgroundType {
    /// Sub-tag `DefB`: the default background.
    Default,
    /// Sub-tag `ClrB`: a solid colour, as 16-bit red, green and blue.
    SolidColor(u16, u16, u16),
    /// Sub-tag `PctB`: a background picture; the payload is the length of
    /// the picture-property blob stored under the `pict` tag.
    Picture(u32),
}

/// How a directory is shown in the Finder, from a `vstl` record.
#[derive(Debug, Clone, Copy, PartialEq, Eq, Structural)]
pub enum StyleType {
    /// Code `icnv`.
    Icon,
    /// Code `clmv`.
    ColumnBrowser,
    /// Code `Nlsv`.
    List,
    /// Code `Flwv`.
    CoverFlow,
}

/// A decoded attribute value.
#[derive(Debug, PartialEq, Eq)]
pub enum RecordValue {
    /// A `BKGD` background descriptor.
    Background(BackgroundType),
    /// A `vstl` Finder view style.
    Style(StyleType),
    /// A one-byte boolean.
    Bool(bool),
    /// An opaque byte blob, copied out of the buffer.
    Blob(Vec<u8>),
    /// A decoded UTF-16 string.
    String(String),
    /// A 16-bit signed integer.
    I16(i16),
    /// A 32-bit signed integer.
    I32(i32),
    /// A 64-bit signed integer.
    I64(i64),
    /// A 32-bit unsigned integer.
    U32(u32),
    /// A timestamp, as whole seconds since the Unix epoch: the raw `dutc`
    /// Mac-epoch tick count plus `MAC_EPOCH_OFFSET`, wrapping in `i64`.
    DateTime(i64),
}

/// The mathematical shape of a `RecordValue`: blobs as byte sequences,
/// strings as character sequences.
pub enum ValueModel {
    Background(BackgroundType),
    Style(StyleType),
    Bool(bool),
    Blob(Seq<u8>),
    String(Seq<char>),
    I16(i16),
    I32(i32),
    I64(i64),
    U32(u32),
    DateTime(i64),
}

impl View for RecordValue {
    type V = ValueModel;

    open spec fn view(&self) -> ValueModel {
        match self {
            RecordValue::Background(b) => ValueModel::Background(*b),
            RecordValue::Style(s) => ValueModel::Style(*s),
            RecordValue::Bool(b) => ValueModel::Bool(*b),
            RecordValue::Blob(v) => ValueModel::Blob(v@),
            RecordValue::String(s) => ValueModel::String(s@),
            RecordValue::I16(v) => ValueModel::I16(*v),
            RecordValue::I32(v) => ValueModel::I32(*v),
            RecordValue::I64(v) => ValueModel::I64(*v),
            RecordValue::U32(v) => ValueModel::U32(*v),
            RecordValue::DateTime(v) => ValueModel::DateTime(*v),
        }
    }
}

impl DeepView for RecordValue {
    type V = ValueModel;

    open spec fn deep_view(&self) -> ValueModel {
        self.view()
    }
}

/// One (filename, attribute tag, value) triple from the directory B-tree.
#[derive(Debug, PartialEq, Eq)]
pub struct Record {
    /// The file or directory name the attribute belongs to.
    pub name: String,
    /// The four attribute-tag bytes, packed big-endian.
    pub tag: u32,
    /// The decoded payload.
    pub value: RecordValue,
}

/// The mathematical shape of a `Record`.
pub struct RecordModel {
    pub name: Seq<char>,
    pub tag: u32,
    pub value: ValueModel,
}

impl View for Record {
    type V = RecordModel;

    open spec fn view(&self) -> RecordModel {
        RecordModel { name: self.name@, tag: self.tag, value: self.value@ }
    }
}

impl DeepView for Record {
    type V = RecordModel;

    open spec fn deep_view(&self) -> RecordModel {
        self.view()
    }
}

/// A payload that asserts a type code and then reads one byte as a
/// boolean: tags `ICVO`, `LSVO`, `dscl`.
pub open spec fn spec_bool_value(d: Seq<u8>, end: int, pos: int, tag: u32) -> Result<
    (ValueModel, int),
    Error,
> {
    match spec_expect4(d, end, pos, TYPE_BOOL, BadDataReason::TypeCode(tag)) {
        Ok(p) => match spec_u8(d, end, p) {
            Ok((b, p2)) => Ok((ValueModel::Bool(b == 1), p2)),
            Err(e) => Err(e),
        },
        Err(e) => Err(e),
    }
}

/// A `long` payload: a 32-bit signed integer; tags `fwsw`, `vSrn`.
pub open spec fn spec_long_value(d: Seq<u8>, end: int, pos: int, tag: u32) -> Result<
    (ValueModel, int),
    Error,
> {
    match spec_expect4(d, end, pos, TYPE_LONG, BadDataReason::TypeCode(tag)) {
        Ok(p) => match spec_i32(d, end, p) {
            Ok((v, p2)) => Ok((ValueModel::I32(v), p2)),
            Err(e) => Err(e),
        },
        Err(e) => Err(e),
    }
}

/// A `shor` payload: two padding bytes, then a 16-bit signed integer;
/// tags `fwvh`, `icvt`, `lsvt`.
pub open spec fn spec_shor_value(d: Seq<u8>, end: int, pos: int, tag: u32) -> Result<
    (ValueModel, int),
    Error,
> {
    match spec_expect4(d, end, pos, TYPE_SHOR, BadDataReason::TypeCode(tag)) {
        Ok(p) => match spec_skip(end, p, 2) {
            Ok(p2) => match spec_i16(d, end, p2) {
                Ok((v, p3)) => Ok((ValueModel::I16(v), p3)),
                Err(e) => Err(e),
            },
            Err(e) => Err(e),
        },
        Err(e) => Err(e),
    }
}

/// A `ustr` payload: a length-prefixed UTF-16 string; tags `cmmt`,
/// `extn`, `GRP0`, `ptbL`, `ptbN`.
pub open spec fn spec_ustr_value(d: Seq<u8>, end: int, pos: int, tag: u32) -> Result<
    (ValueModel, int),
    Error,
> {
    match spec_expect4(d, end, pos, TYPE_USTR, BadDataReason::TypeCode(tag)) {
        Ok(p) => match spec_utf16(d, end, p) {
            Ok((s, p2)) => Ok((ValueModel::String(s), p2)),
            Err(e) => Err(e),
        },
        Err(e) => Err(e),
    }
}

/// A `comp` payload: a 64-bit signed integer; tags `logS`, `lg1S`,
/// `phyS`, `ph1S`.
pub open spec fn spec_comp_value(d: Seq<u8>, end: int, pos: int, tag: u32) -> Result<
    (ValueModel, int),
    Error,
> {
    match spec_expect4(d, end, pos, TYPE_COMP, BadDataReason::TypeCode(tag)) {
        Ok(p) => match spec_i64(d, end, p) {
            Ok((v, p2)) => Ok((ValueModel::I64(v), p2)),
            Err(e) => Err(e),
        },
        Err(e) => Err(e),
    }
}

/// A `dutc` payload: a 64-bit Mac-epoch tick count, shifted to seconds
/// since the Unix epoch; tags `modD`, `moDD`.
pub open spec fn spec_dutc_value(d: Seq<u8>, end: int, pos: int, tag: u32) -> Result<
    (ValueModel, int),
    Error,
> {
    match spec_expect4(d, end, pos, TYPE_DUTC, BadDataReason::TypeCode(tag)) {
        Ok(p) => match spec_i64(d, end, p) {
            Ok((raw, p2)) => Ok(
                (
                    ValueModel::DateTime(
                        vstd::wrapping::i64_specs::wrapping_add(raw, MAC_EPOCH_OFFSET),
                    ),
                    p2,
                ),
            ),
            Err(e) => Err(e),
        },
        Err(e) => Err(e),
    }
}

/// A fixed-length blob: the length prefix must equal `n`; tags `Iloc`,
/// `dilc`, `fwi0`, `icgo`, `icsp`, `lssp`, `lsvo`.
pub open spec fn spec_fixed_blob_value(d: Seq<u8>, end: int, pos: int, tag: u32, n: u32) -> Result<
    (ValueModel, int),
    Error,
> {
    match spec_expect4(d, end, pos, TYPE_BLOB, BadDataReason::TypeCode(tag)) {
        Ok(p) => match spec_expect4(d, end, p, n, BadDataReason::BlobLength(tag)) {
            Ok(p2) => match spec_buf(d, end, p2, n as int) {
                Ok((b, p3)) => Ok((ValueModel::Blob(b), p3)),
                Err(e) => Err(e),
            },
            Err(e) => Err(e),
        },
        Err(e) => Err(e),
    }
}

/// A blob that must have one of two lengths; tags `icvo` (18 or 26) and
/// `info` (40 or 48).
pub open spec fn spec_sized_blob_value(
    d: Seq<u8>,
    end: int,
    pos: int,
    tag: u32,
    a: u32,
    b: u32,
) -> Result<(ValueModel, int), Error> {
    match spec_expect4(d, end, pos, TYPE_BLOB, BadDataReason::TypeCode(tag)) {
        Ok(p) => match spec_blob(d, end, p) {
            Ok((blob, p2)) => if blob.len() == a || blob.len() == b {
                Ok((ValueModel::Blob(blob), p2))
            } else {
                Err(Error::BadData(BadDataReason::BlobLength(tag)))
            },
            Err(e) => Err(e),
        },
        Err(e) => Err(e),
    }
}

/// A variable-length blob, kept opaque; tags `bwsp`, `icvp`, `lsvp`,
/// `lsvP`, `pict`.
pub open spec fn spec_var_blob_value(d: Seq<u8>, end: int, pos: int, tag: u32) -> Result<
    (ValueModel, int),
    Error,
> {
    match spec_expect4(d, end, pos, TYPE_BLOB, BadDataReason::TypeCode(tag)) {
        Ok(p) => match spec_blob(d, end, p) {
            Ok((blob, p2)) => Ok((ValueModel::Blob(blob), p2)),
            Err(e) => Err(e),
        },
        Err(e) => Err(e),
    }
}

/// A `BKGD` payload: a nested sub-tag picks the background variant.
pub open spec fn spec_bkgd_value(d: Seq<u8>, end: int, pos: int) -> Result<
    (ValueModel, int),
    Error,
> {
    match spec_expect4(d, end, pos, TYPE_BLOB, BadDataReason::TypeCode(TAG_BKGD)) {
        Ok(p) => match spec_u32(d, end, p) {
            Ok((sub, p2)) => if sub == SUB_DEFB {
                match spec_skip(end, p2, 8) {
                    Ok(p3) => Ok((ValueModel::Background(BackgroundType::Default), p3)),
                    Err(e) => Err(e),
                }
            } else if sub == SUB_CLRB {
                match spec_u16(d, end, p2) {
                    Ok((r, p3)) => match spec_u16(d, end, p3) {
                        Ok((g, p4)) => match spec_u16(d, end, p4) {
                            Ok((b, p5)) => match spec_skip(end, p5, 2) {
                                Ok(p6) => Ok(
                                    (
                                        ValueModel::Background(BackgroundType::SolidColor(r, g, b)),
                                        p6,
                                    ),
                                ),
                                Err(e) => Err(e),
                            },
                            Err(e) => Err(e),
                        },
                        Err(e) => Err(e),
                    },
                    Err(e) => Err(e),
                }
            } else if sub == SUB_PCTB {
                match spec_u32(d, end, p2) {
                    Ok((len, p3)) => match spec_skip(end, p3, 4) {
                        Ok(p4) => Ok((ValueModel::Background(BackgroundType::Picture(len)), p4)),
                        Err(e) => Err(e),
                    },
                    Err(e) => Err(e),
                }
            } else {
                Err(Error::UnknownStructureType(sub))
            },
            Err(e) => Err(e),
        },
        Err(e) => Err(e),
    }
}

/// A `vstl` payload: a nested four-byte code picks the view style.
pub open spec fn spec_vstl_value(d: Seq<u8>, end: int, pos: int) -> Result<
    (ValueModel, int),
    Error,
> {
    match spec_expect4(d, end, pos, TYPE_TYPE, BadDataReason::TypeCode(TAG_VSTL)) {
        Ok(p) => match spec_u32(d, end, p) {
            Ok((code, p2)) => if code == STYLE_ICNV {
                Ok((ValueModel::Style(StyleType::Icon), p2))
            } else if code == STYLE_CLMV {
                Ok((ValueModel::Style(StyleType::ColumnBrowser), p2))
            } else if code == STYLE_NLSV {
                Ok((ValueModel::Style(StyleType::List), p2))
            } else if code == STYLE_FLWV {
                Ok((ValueModel::Style(StyleType::CoverFlow), p2))
            } else {
                Err(Error::UnknownStructureType(code))
            },
            Err(e) => Err(e),
        },
        Err(e) => Err(e),
    }
}

/// The payload that follows an already-read attribute tag: the closed
/// dispatch table of the format.  Opaque: callers beyond the dispatch
/// itself treat a decoded value as one unit.
#[verifier::opaque]
pub open spec fn spec_value_for(d: Seq<u8>, end: int, pos: int, tag: u32) -> Result<
    (ValueModel, int),
    Error,
> {
    if tag == TAG_BKGD {
        spec_bkgd_value(d, end, pos)
    } else if tag == TAG_ICVO_CAPS || tag == TAG_LSVO_CAPS || tag == TAG_DSCL {
        spec_bool_value(d, end, pos, tag)
    } else if tag == TAG_FWSW || tag == TAG_VSRN {
        spec_long_value(d, end, pos, tag)
    } else if tag == TAG_FWVH || tag == TAG_ICVT || tag == TAG_LSVT {
        spec_shor_value(d, end, pos, tag)
    } else if tag == TAG_CMMT || tag == TAG_EXTN || tag == TAG_GRP0 || tag == TAG_PTBL || tag
        == TAG_PTBN {
        spec_ustr_value(d, end, pos, tag)
    } else if tag == TAG_LOGS || tag == TAG_LG1S || tag == TAG_PHYS || tag == TAG_PH1S {
        spec_comp_value(d, end, pos, tag)
    } else if tag == TAG_MODD || tag == TAG_MODD_CAPS {
        spec_dutc_value(d, end, pos, tag)
    } else if tag == TAG_ILOC || tag == TAG_FWI0 {
        spec_fixed_blob_value(d, end, pos, tag, 16)
    } else if tag == TAG_DILC {
        spec_fixed_blob_value(d, end, pos, tag, 32)
    } else if tag == TAG_ICGO || tag == TAG_ICSP || tag == TAG_LSSP {
        spec_fixed_blob_value(d, end, pos, tag, 8)
    } else if tag == TAG_LSVO {
        spec_fixed_blob_value(d, end, pos, tag, 76)
    } else if tag == TAG_ICVO {
        spec_sized_blob_value(d, end, pos, tag, 18, 26)
    } else if tag == TAG_INFO {
        spec_sized_blob_value(d, end, pos, tag, 40, 48)
    } else if tag == TAG_BWSP || tag == TAG_ICVP || tag == TAG_LSVP || tag == TAG_LSVP_CAP || tag
        == TAG_PICT {
        spec_var_blob_value(d, end, pos, tag)
    } else if tag == TAG_VSTL {
        spec_vstl_value(d, end, pos)
    } else {
        Err(Error::UnknownStructureType(tag))
    }
}

/// Decode a boolean payload (type code `bool`).
fn read_bool_value(data: &Vec<u8>, c: &mut Cursor, tag: u32) -> (r: Result<RecordValue, Error>)
    requires
        old(c).wf(data@.len() as int),
    ensures
        final(c).wf(data@.len() as int),
        final(c).end == old(c).end,
        old(c).pos <= final(c).pos,
        match spec_bool_value(data@, old(c).end as int, old(c).pos as int, tag) {
            Ok(vp) => r is Ok && r->Ok_0@ == vp.0 && final(c).pos as int == vp.1,
            Err(e) => r == Err::<RecordValue, Error>(e),
        },
{
    match c.expect4(data, TYPE_BOOL, BadDataReason::TypeCode(tag)) {
        Ok(()) => (),
        Err(e) => {
            return Err(e);
        },
    };
    let b = match c.read_u8(data) {
        Ok(b) => b,
        Err(e) => {
            return Err(e);
        },
    };
    Ok(RecordValue::Bool(b == 1))
}

/// Decode a 32-bit integer payload (type code `long`).
fn read_long_value(data: &Vec<u8>, c: &mut Cursor, tag: u32) -> (r: Result<RecordValue, Error>)
    requires
        old(c).wf(data@.len() as int),
    ensures
        final(c).wf(data@.len() as int),
        final(c).end == old(c).end,
        old(c).pos <= final(c).pos,
        match spec_long_value(data@, old(c).end as int, old(c).pos as int, tag) {
            Ok(vp) => r is Ok && r->Ok_0@ == vp.0 && final(c).pos as int == vp.1,
            Err(e) => r == Err::<RecordValue, Error>(e),
        },
{
    match c.expect4(data, TYPE_LONG, BadDataReason::TypeCode(tag)) {
        Ok(()) => (),
        Err(e) => {
            return Err(e);
        },
    };
    let v = match c.read_i32(data) {
        Ok(v) => v,
        Err(e) => {
            return Err(e);
        },
    };
    Ok(RecordValue::I32(v))
}

/// Decode a 16-bit integer payload (type code `shor`): the value sits in
/// the low half of four bytes, so two padding bytes are skipped first.
fn read_shor_value(data: &Vec<u8>, c: &mut Cursor, tag: u32) -> (r: Result<RecordValue, Error>)
    requires
        old(c).wf(data@.len() as int),
    ensures
        final(c).wf(data@.len() as int),
        final(c).end == old(c).end,
        old(c).pos <= final(c).pos,
        match spec_shor_value(data@, old(c).end as int, old(c).pos as int, tag) {
            Ok(vp) => r is Ok && r->Ok_0@ == vp.0 && final(c).pos as int == vp.1,
            Err(e) => r == Err::<RecordValue, Error>(e),
        },
{
    match c.expect4(data, TYPE_SHOR, BadDataReason::TypeCode(tag)) {
        Ok(()) => (),
        Err(e) => {
            return Err(e);
        },
    };
    match c.skip(data, 2) {
        Ok(()) => (),
        Err(e) => {
            return Err(e);
        },
    };
    let v = match c.read_i16(data) {
        Ok(v) => v,
        Err(e) => {
            return Err(e);
        },
    };
    Ok(RecordValue::I16(v))
}

/// Decode a string payload (type code `ustr`).
fn read_ustr_value(data: &Vec<u8>, c: &mut Cursor, tag: u32) -> (r: Result<RecordValue, Error>)
    requires
        old(c).wf(data@.len() as int),
    ensures
        final(c).wf(data@.len() as int),
        final(c).end == old(c).end,
        old(c).pos <= final(c).pos,
        match spec_ustr_value(data@, old(c).end as int, old(c).pos as int, tag) {
            Ok(vp) => r is Ok && r->Ok_0@ == vp.0 && final(c).pos as int == vp.1,
            Err(e) => r == Err::<RecordValue, Error>(e),
        },
{
    match c.expect4(data, TYPE_USTR, BadDataReason::TypeCode(tag)) {
        Ok(()) => (),
        Err(e) => {
            return Err(e);
        },
    };
    let s = match c.read_utf16(data) {
        Ok(s) => s,
        Err(e) => {
            return Err(e);
        },
    };
    Ok(RecordValue::String(s))
}

/// Decode a 64-bit integer payload (type code `comp`).
fn read_comp_value(data: &Vec<u8>, c: &mut Cursor, tag: u32) -> (r: Result<RecordValue, Error>)
    requires
        old(c).wf(data@.len() as int),
    ensures
        final(c).wf(data@.len() as int),
        final(c).end == old(c).end,
        old(c).pos <= final(c).pos,
        match spec_comp_value(data@, old(c).end as int, old(c).pos as int, tag) {
            Ok(vp) => r is Ok && r->Ok_0@ == vp.0 && final(c).pos as int == vp.1,
            Err(e) => r == Err::<RecordValue, Error>(e),
        },
{
    match c.expect4(data, TYPE_COMP, BadDataReason::TypeCode(tag)) {
        Ok(()) => (),
        Err(e) => {
            return Err(e);
        },
    };
    let v = match c.read_i64(data) {
        Ok(v) => v,
        Err(e) => {
            return Err(e);
        },
    };
    Ok(RecordValue::I64(v))
}

/// Decode a timestamp payload (type code `dutc`): a Mac-epoch tick count,
/// shifted to seconds since the Unix epoch.
fn read_dutc_value(data: &Vec<u8>, c: &mut Cursor, tag: u32) -> (r: Result<RecordValue, Error>)
    requires
        old(c).wf(data@.len() as int),
    ensures
        final(c).wf(data@.len() as int),
        final(c).end == old(c).end,
        old(c).pos <= final(c).pos,
        match spec_dutc_value(data@, old(c).end as int, old(c).pos as int, tag) {
            Ok(vp) => r is Ok && r->Ok_0@ == vp.0 && final(c).pos as int == vp.1,
            Err(e) => r == Err::<RecordValue, Error>(e),
        },
{
    match c.expect4(data, TYPE_DUTC, BadDataReason::TypeCode(tag)) {
        Ok(()) => (),
        Err(e) => {
            return Err(e);
        },
    };
    let raw = match c.read_i64(data) {
        Ok(v) => v,
        Err(e) => {
            return Err(e);
        },
    };
    Ok(RecordValue::DateTime(raw.wrapping_add(MAC_EPOCH_OFFSET)))
}

/// Decode a blob payload whose length prefix must equal `n`.
fn read_fixed_blob_value(data: &Vec<u8>, c: &mut Cursor, tag: u32, n: u32) -> (r: Result<
    RecordValue,
    Error,
>)
    requires
        old(c).wf(data@.len() as int),
    ensures
        final(c).wf(data@.len() as int),
        final(c).end == old(c).end,
        old(c).pos <= final(c).pos,
        match spec_fixed_blob_value(data@, old(c).end as int, old(c).pos as int, tag, n) {
            Ok(vp) => r is Ok && r->Ok_0@ == vp.0 && final(c).pos as int == vp.1,
            Err(e) => r == Err::<RecordValue, Error>(e),
        },
{
    match c.expect4(data, TYPE_BLOB, BadDataReason::TypeCode(tag)) {
        Ok(()) => (),
        Err(e) => {
            return Err(e);
        },
    };
    match c.expect4(data, n, BadDataReason::BlobLength(tag)) {
        Ok(()) => (),
        Err(e) => {
            return Err(e);
        },
    };
    let b = match c.read_buf(data, n as usize) {
        Ok(b) => b,
        Err(e) => {
            return Err(e);
        },
    };
    Ok(RecordValue::Blob(b))
}

/// Decode a blob payload that must have one of two lengths.
fn read_sized_blob_value(data: &Vec<u8>, c: &mut Cursor, tag: u32, a: u32, b: u32) -> (r: Result<
    RecordValue,
    Error,
>)
    requires
        old(c).wf(data@.len() as int),
    ensures
        final(c).wf(data@.len() as int),
        final(c).end == old(c).end,
        old(c).pos <= final(c).pos,
        match spec_sized_blob_value(data@, old(c).end as int, old(c).pos as int, tag, a, b) {
            Ok(vp) => r is Ok && r->Ok_0@ == vp.0 && final(c).pos as int == vp.1,
            Err(e) => r == Err::<RecordValue, Error>(e),
        },
{
    match c.expect4(data, TYPE_BLOB, BadDataReason::TypeCode(tag)) {
        Ok(()) => (),
        Err(e) => {
            return Err(e);
        },
    };
    let blob = match c.read_blob(data) {
        Ok(v) => v,
        Err(e) => {
            return Err(e);
        },
    };
    if blob.len() == a as usize || blob.len() == b as usize {
        Ok(RecordValue::Blob(blob))
    } else {
        Err(Error::BadData(BadDataReason::BlobLength(tag)))
    }
}

/// Decode a variable-length blob payload, kept opaque.
fn read_var_blob_value(data: &Vec<u8>, c: &mut Cursor, tag: u32) -> (r: Result<RecordValue, Error>)
    requires
        old(c).wf(data@.len() as int),
    ensures
        final(c).wf(data@.len() as int),
        final(c).end == old(c).end,
        old(c).pos <= final(c).pos,
        match spec_var_blob_value(data@, old(c).end as int, old(c).pos as int, tag) {
            Ok(vp) => r is Ok && r->Ok_0@ == vp.0 && final(c).pos as int == vp.1,
            Err(e) => r == Err::<RecordValue, Error>(e),
        },
{
    match c.expect4(data, TYPE_BLOB, BadDataReason::TypeCode(tag)) {
        Ok(()) => (),
        Err(e) => {
            return Err(e);
        },
    };
    let blob = match c.read_blob(data) {
        Ok(v) => v,
        Err(e) => {
            return Err(e);
        },
    };
    Ok(RecordValue::Blob(blob))
}

/// Decode a `BKGD` payload: the nested sub-tag picks the variant.
fn read_bkgd_value(data: &Vec<u8>, c: &mut Cursor) -> (r: Result<RecordValue, Error>)
    requires
        old(c).wf(data@.len() as int),
    ensures
        final(c).wf(data@.len() as int),
        final(c).end == old(c).end,
        old(c).pos <= final(c).pos,
        match spec_bkgd_value(data@, old(c).end as int, old(c).pos as int) {
            Ok(vp) => r is Ok && r->Ok_0@ == vp.0 && final(c).pos as int == vp.1,
            Err(e) => r == Err::<RecordValue, Error>(e),
        },
{
    match c.expect4(data, TYPE_BLOB, BadDataReason::TypeCode(TAG_BKGD)) {
        Ok(()) => (),
        Err(e) => {
            return Err(e);
        },
    };
    let sub = match c.read_u32(data) {
        Ok(v) => v,
        Err(e) => {
            return Err(e);
        },
    };
    if sub == SUB_DEFB {
        match c.skip(data, 8) {
            Ok(()) => (),
            Err(e) => {
                return Err(e);
            },
        };
        Ok(RecordValue::Background(BackgroundType::Default))
    } else if sub == SUB_CLRB {
        let red = match c.read_u16(data) {
            Ok(v) => v,
            Err(e) => {
                return Err(e);
            },
        };
        let green = match c.read_u16(data) {
            Ok(v) => v,
            Err(e) => {
                return Err(e);
            },
        };
        let blue = match c.read_u16(data) {
            Ok(v) => v,
            Err(e) => {
                return Err(e);
            },
        };
        match c.skip(data, 2) {
            Ok(()) => (),
            Err(e) => {
                return Err(e);
            },
        };
        Ok(RecordValue::Background(BackgroundType::SolidColor(red, green, blue)))
    } else if sub == SUB_PCTB {
        let len = match c.read_u32(data) {
            Ok(v) => v,
            Err(e) => {
                return Err(e);
            },
        };
        match c.skip(data, 4) {
            Ok(()) => (),
            Err(e) => {
                return Err(e);
            },
        };
        Ok(RecordValue::Background(BackgroundType::Picture(len)))
    } else {
        Err(Error::UnknownStructureType(sub))
    }
}

/// Decode a `vstl` payload: the nested code picks the view style.
fn read_vstl_value(data: &Vec<u8>, c: &mut Cursor) -> (r: Result<RecordValue, Error>)
    requires
        old(c).wf(data@.len() as int),
    ensures
        final(c).wf(data@.len() as int),
        final(c).end == old(c).end,
        old(c).pos <= final(c).pos,
        match spec_vstl_value(data@, old(c).end as int, old(c).pos as int) {
            Ok(vp) => r is Ok && r->Ok_0@ == vp.0 && final(c).pos as int == vp.1,
            Err(e) => r == Err::<RecordValue, Error>(e),
        },
{
    match c.expect4(data, TYPE_TYPE, BadDataReason::TypeCode(TAG_VSTL)) {
        Ok(()) => (),
        Err(e) => {
            return Err(e);
        },
    };
    let code = match c.read_u32(data) {
        Ok(v) => v,
        Err(e) => {
            return Err(e);
        },
    };
    if code == STYLE_ICNV {
        Ok(RecordValue::Style(StyleType::Icon))
    } else if code == STYLE_CLMV {
        Ok(RecordValue::Style(StyleType::ColumnBrowser))
    } else if code == STYLE_NLSV {
        Ok(RecordValue::Style(StyleType::List))
    } else if code == STYLE_FLWV {
        Ok(RecordValue::Style(StyleType::CoverFlow))
    } else {
        Err(Error::UnknownStructureType(code))
    }
}

/// Decode the payload that follows an already-read attribute tag,
/// through the closed dispatch table; a tag outside the table is
/// `UnknownStructureType`.
pub fn read_value(data: &Vec<u8>, c: &mut Cursor, tag: u32) -> (r: Result<RecordValue, Error>)
    requires
        old(c).wf(data@.len() as int),
    ensures
        final(c).wf(data@.len() as int),
        final(c).end == old(c).end,
        old(c).pos <= final(c).pos,
        match spec_value_for(data@, old(c).end as int, old(c).pos as int, tag) {
            Ok(vp) => r is Ok && r->Ok_0@ == vp.0 && final(c).pos as int == vp.1,
            Err(e) => r == Err::<RecordValue, Error>(e),
        },
{
    proof {
        reveal(spec_value_for);
    }
    if tag == TAG_BKGD {
        read_bkgd_value(data, c)
    } else if tag == TAG_ICVO_CAPS || tag == TAG_LSVO_CAPS || tag == TAG_DSCL {
        read_bool_value(data, c, tag)
    } else if tag == TAG_FWSW || tag == TAG_VSRN {
        read_long_value(data, c, tag)
    } else if tag == TAG_FWVH || tag == TAG_ICVT || tag == TAG_LSVT {
        read_shor_value(data, c, tag)
    } else if tag == TAG_CMMT || tag == TAG_EXTN || tag == TAG_GRP0 || tag == TAG_PTBL || tag
        == TAG_PTBN {
        read_ustr_value(data, c, tag)
    } else if tag == TAG_LOGS || tag == TAG_LG1S || tag == TAG_PHYS || tag == TAG_PH1S {
        read_comp_value(data, c, tag)
    } else if tag == TAG_MODD || tag == TAG_MODD_CAPS {
        read_dutc_value(data, c, tag)
    } else if tag == TAG_ILOC || tag == TAG_FWI0 {
        read_fixed_blob_value(data, c, tag, 16)
    } else if tag == TAG_DILC {
        read_fixed_blob_value(data, c, tag, 32)
    } else if tag == TAG_ICGO || tag == TAG_ICSP || tag == TAG_LSSP {
        read_fixed_blob_value(data, c, tag, 8)
    } else if tag == TAG_LSVO {
        read_fixed_blob_value(data, c, tag, 76)
    } else if tag == TAG_ICVO {
        read_sized_blob_value(data, c, tag, 18, 26)
    } else if tag == TAG_INFO {
        read_sized_blob_value(data, c, tag, 40, 48)
    } else if tag == TAG_BWSP || tag == TAG_ICVP || tag == TAG_LSVP || tag == TAG_LSVP_CAP || tag
        == TAG_PICT {
        read_var_blob_value(data, c, tag)
    } else if tag == TAG_VSTL {
        read_vstl_value(data, c)
    } else {
        Err(Error::UnknownStructureType(tag))
    }
}

/// Decode one whole record: filename, attribute tag, payload.
pub fn read_record(data: &Vec<u8>, c: &mut Cursor) -> (r: Result<Record, Error>)
    requires
        old(c).wf(data@.len() as int),
    ensures
        final(c).wf(data@.len() as int),
        final(c).end == old(c).end,
        old(c).pos <= final(c).pos,
        match spec_record(data@, old(c).end as int, old(c).pos as int) {
            Ok(vp) => r is Ok && r->Ok_0@ == vp.0 && final(c).pos as int == vp.1,
            Err(e) => r == Err::<Record, Error>(e),
        },
{
    let name = match c.read_utf16(data) {
        Ok(s) => s,
        Err(e) => {
            return Err(e);
        },
    };
    let tag = match c.read_u32(data) {
        Ok(v) => v,
        Err(e) => {
            return Err(e);
        },
    };
    let value = match read_value(data, c, tag) {
        Ok(v) => v,
        Err(e) => {
            return Err(e);
        },
    };
    Ok(Record { name, tag, value })
}

/// An `Iloc` payload whose blob-length prefix is anything but 16 fails
/// with `BadData`: the decoder never truncates or pads a fixed-length
/// blob.  `pos` stands at the type code, after the tag.
pub proof fn lemma_iloc_length_rejected(d: Seq<u8>, end: int, pos: int)
    requires
        spec_expect4(d, end, pos, TYPE_BLOB, BadDataReason::TypeCode(TAG_ILOC)) is Ok,
        spec_u32(d, end, pos + 4) is Ok,
        spec_u32(d, end, pos + 4)->Ok_0.0 != 16,
    ensures
        spec_value_for(d, end, pos, TAG_ILOC) == Err::<(ValueModel, int), Error>(
            Error::BadData(BadDataReason::BlobLength(TAG_ILOC)),
        ),
{
    reveal(spec_value_for);
}

/// An attribute tag outside the dispatch table fails with
/// `UnknownStructureType` carrying the offending tag bytes, whatever
/// follows it in the buffer.
pub proof fn lemma_unknown_tag_rejected(d: Seq<u8>, end: int, pos: int, tag: u32)
    requires
        tag != TAG_BKGD,
        tag != TAG_ICVO_CAPS,
        tag != TAG_LSVO_CAPS,
        tag != TAG_DSCL,
        tag != TAG_FWSW,
        tag != TAG_VSRN,
        tag != TAG_FWVH,
        tag != TAG_ICVT,
        tag != TAG_LSVT,
        tag != TAG_CMMT,
        tag != TAG_EXTN,
        tag != TAG_GRP0,
        tag != TAG_PTBL,
        tag != TAG_PTBN,
        tag != TAG_LOGS,
        tag != TAG_LG1S,
        tag != TAG_PHYS,
        tag != TAG_PH1S,
        tag != TAG_MODD,
        tag != TAG_MODD_CAPS,
        tag != TAG_ILOC,
        tag != TAG_FWI0,
        tag != TAG_DILC,
        tag != TAG_ICGO,
        tag != TAG_ICSP,
        tag != TAG_LSSP,
        tag != TAG_LSVO,
        tag != TAG_ICVO,
        tag != TAG_INFO,
        tag != TAG_BWSP,
        tag != TAG_ICVP,
        tag != TAG_LSVP,
        tag != TAG_LSVP_CAP,
        tag != TAG_PICT,
        tag != TAG_VSTL,
    ensures
        spec_value_for(d, end, pos, tag) == Err::<(ValueModel, int), Error>(
            Error::UnknownStructureType(tag),
        ),
{
    reveal(spec_value_for);
}

/// One whole record: filename, tag, payload.
pub open spec fn spec_record(d: Seq<u8>, end: int, pos: int) -> Result<(RecordModel, int), Error> {
    match spec_utf16(d, end, pos) {
        Ok((name, p)) => match spec_u32(d, end, p) {
            Ok((tag, p2)) => match spec_value_for(d, end, p2, tag) {
                Ok((value, p3)) => Ok((RecordModel { name, tag, value }, p3)),
                Err(e) => Err(e),
            },
            Err(e) => Err(e),
        },
        Err(e) => Err(e),
    }
}

} // verus!
