//! The symbol database: the catalog of every parameter that the instrument
//! offers, with the type of each. A catalog is read once from its binary
//! form and never changes afterwards; parameters and types are then looked
//! at through small handles that borrow the catalog.

use vstd::prelude::*;
use vstd::slice::slice_subrange;
use crate::codepage::decode_cp1252;
use crate::opc_values::{Value, ValueView};
use crate::value_format::ParseValueError;
use crate::sdb_format;
use crate::sdb_format::{
    HEADER_LEN, MAX_STR_LEN, MAX_STR_PAD, TAG_ENTRY, TAG_HEADER, TAG_SEPARATOR, TAG_TRAILER,
    TAG_TYPE,
};
pub use crate::sdb_model::{AccessMode, SdbError, TypeKind};
use crate::sdb_model::{dim_ok, MemberView, ParamView, PayloadView, SdbView, TypeView};
use crate::wire::{copy_range, le16, le32, read_le16, read_le32};

verus! {

/// A string of the database, with its padding taken off.
#[derive(Clone, Debug)]
pub struct SdbStr {
    s: String,
}

impl View for SdbStr {
    type V = Seq<char>;

    closed spec fn view(&self) -> Seq<char> {
        self.s@
    }
}

impl SdbStr {
    pub fn as_str(&self) -> (r: &str)
        ensures
            r@ == self@,
    {
        self.s.as_str()
    }
}

/// The element type and the bounds of an array type.
#[derive(Clone, Debug)]
pub struct ArrayDesc {
    type_idx: u32,
    dims: Vec<(u32, u32)>,
}

/// One member of a structured type.
#[derive(Clone, Debug)]
pub struct StructMember {
    type_descr_idx: u32,
    i0: u32,
    i1: u32,
    /// The number to add to the parameter's id to get the member's id.
    id_offset: u32,
    name: SdbStr,
}

impl View for StructMember {
    type V = MemberView;

    closed spec fn view(&self) -> MemberView {
        MemberView {
            type_idx: self.type_descr_idx,
            opaque: (self.i0, self.i1),
            id_offset: self.id_offset,
            name: self.name@,
        }
    }
}

/// The views of a row of members.
pub closed spec fn member_views(ms: Seq<StructMember>) -> Seq<MemberView> {
    Seq::new(ms.len(), |i: int| ms[i]@)
}

#[derive(Clone, Debug)]
pub enum TypeDescPayload {
    Plain,
    Array(ArrayDesc),
    Struct(Vec<StructMember>),
    Pointer(u32),
}

impl View for TypeDescPayload {
    type V = PayloadView;

    closed spec fn view(&self) -> PayloadView {
        match self {
            TypeDescPayload::Plain => PayloadView::Plain,
            TypeDescPayload::Array(a) => PayloadView::Array { type_idx: a.type_idx, dims: a.dims@ },
            TypeDescPayload::Struct(ms) => PayloadView::Struct(member_views(ms@)),
            TypeDescPayload::Pointer(t) => PayloadView::Pointer(*t),
        }
    }
}

/// One entry of the type table.
#[derive(Clone, Debug)]
pub struct TypeDescription {
    /// The entry's own place in the table.
    type_idx: u32,
    kind: TypeKind,
    type_size: u32,
    description: SdbStr,
    payload: TypeDescPayload,
}

impl View for TypeDescription {
    type V = TypeView;

    closed spec fn view(&self) -> TypeView {
        TypeView {
            kind: self.kind,
            type_size: self.type_size,
            description: self.description@,
            payload: self.payload@,
        }
    }
}

impl TypeDescription {
    pub fn kind(&self) -> (r: TypeKind)
        ensures
            r == self@.kind,
    {
        self.kind
    }

    pub fn read_len(&self) -> (r: usize)
        ensures
            r == self@.type_size,
    {
        self.type_size as usize
    }
}

/// The views of a row of type descriptors.
pub closed spec fn type_views(ts: Seq<TypeDescription>) -> Seq<TypeView> {
    Seq::new(ts.len(), |i: int| ts[i]@)
}

/// One parameter of the catalog.
#[derive(Clone, Debug)]
pub struct SdbParam {
    type_descr_idx: u32,
    flags0: u16,
    flags1: u16,
    rw: AccessMode,
    id: u32,
    name: SdbStr,
}

impl View for SdbParam {
    type V = ParamView;

    closed spec fn view(&self) -> ParamView {
        ParamView {
            type_idx: self.type_descr_idx,
            flags: (self.flags0, self.flags1),
            rw: self.rw,
            id: self.id,
            name: self.name@,
        }
    }
}

/// The views of a row of parameters.
pub closed spec fn param_views(ps: Seq<SdbParam>) -> Seq<ParamView> {
    Seq::new(ps.len(), |i: int| ps[i]@)
}

/// An executable reader agrees with the grammar: it found the value that
/// the grammar describes and stands where the grammar stands, inside the
/// data, or it failed for the grammar's reason.
spec fn agrees<T, V>(
    got: Result<(T, usize), SdbError>,
    want: Result<(V, int), SdbError>,
    view: spec_fn(T) -> V,
    len: nat,
) -> bool {
    match (got, want) {
        (Ok((x, p)), Ok((v, q))) => view(x) == v && p == q && p <= len,
        (Err(e), Err(f)) => e == f,
        _ => false,
    }
}

/// Whether `n` more bytes stand at `at`.
fn room(data: &[u8], at: usize, n: usize) -> (r: bool)
    requires
        at <= data@.len(),
    ensures
        r == (at + n <= data@.len()),
        r ==> at + n <= usize::MAX,
{
    n <= data.len() - at
}

fn read_tag(data: &[u8], at: usize, tag: u32) -> (r: Result<usize, SdbError>)
    requires
        at <= data@.len(),
    ensures
        match (r, sdb_format::tag32(data@, at as int, tag)) {
            (Ok(p), Ok(q)) => p == q && p <= data@.len(),
            (Err(e), Err(f)) => e == f,
            _ => false,
        },
{
    if !room(data, at, 4) {
        return Err(SdbError::Truncated);
    }
    let v = read_u32(data, at)?;
    if v != tag {
        Err(SdbError::BadTag)
    } else {
        Ok(at + 4)
    }
}

fn read_u32(data: &[u8], at: usize) -> (r: Result<u32, SdbError>)
    requires
        at <= data@.len(),
    ensures
        r == if at + 4 <= data@.len() {
            Ok::<u32, SdbError>(le32(data@, at as int))
        } else {
            Err(SdbError::Truncated)
        },
{
    match read_le32(data, at) {
        None => Err(SdbError::Truncated),
        Some(v) => Ok(v),
    }
}

fn read_u16(data: &[u8], at: usize) -> (r: Result<u16, SdbError>)
    requires
        at <= data@.len(),
    ensures
        r == if at + 2 <= data@.len() {
            Ok::<u16, SdbError>(le16(data@, at as int))
        } else {
            Err(SdbError::Truncated)
        },
{
    match read_le16(data, at) {
        None => Err(SdbError::Truncated),
        Some(v) => Ok(v),
    }
}

fn read_str(data: &[u8], at: usize) -> (r: Result<(SdbStr, usize), SdbError>)
    requires
        at <= data@.len(),
    ensures
        agrees(r, sdb_format::sdb_str(data@, at as int), |x: SdbStr| x@, data@.len()),
{
    let n = read_u16(data, at)?;
    if n > MAX_STR_LEN {
        return Err(SdbError::BadString);
    }
    let n: usize = n as usize;
    if n > data.len() - at - 2 {
        return Err(SdbError::Truncated);
    }
    let start: usize = at + 2;
    let mut end: usize = start + n;
    let ghost raw = data@.subrange(start as int, end as int);
    let mut taken: usize = 0;
    while taken < MAX_STR_PAD && end > start && data[end - 1] == 0
        invariant
            start <= end <= data@.len(),
            taken <= MAX_STR_PAD,
            sdb_format::strip_nuls(raw, MAX_STR_PAD as nat) == sdb_format::strip_nuls(
                data@.subrange(start as int, end as int),
                (MAX_STR_PAD - taken) as nat,
            ),
        decreases end - start,
    {
        proof {
            let cur = data@.subrange(start as int, end as int);
            assert(cur.last() == data@[end - 1]);
            assert(cur.drop_last() =~= data@.subrange(start as int, end - 1));
        }
        end = end - 1;
        taken = taken + 1;
    }
    proof {
        let cur = data@.subrange(start as int, end as int);
        if end > start {
            assert(cur.last() == data@[end - 1]);
        }
        assert(sdb_format::strip_nuls(cur, (MAX_STR_PAD - taken) as nat) == cur);
    }
    let s = decode_cp1252(slice_subrange(data, start, end));
    Ok((SdbStr { s }, start + n))
}

fn read_dims(data: &[u8], at: usize, n: u32) -> (r: Result<(Vec<(u32, u32)>, usize), SdbError>)
    requires
        at <= data@.len(),
    ensures
        agrees(
            r,
            sdb_format::dims(data@, at as int, n as nat),
            |x: Vec<(u32, u32)>| x@,
            data@.len(),
        ),
{
    let mut v: Vec<(u32, u32)> = Vec::new();
    let mut pos: usize = at;
    let mut i: u32 = 0;
    while i < n
        invariant
            i <= n,
            pos <= data@.len(),
            sdb_format::dims(data@, at as int, i as nat) == Ok::<
                (Seq<(u32, u32)>, int),
                SdbError,
            >((v@, pos as int)),
        decreases n - i,
    {
        if !room(data, pos, 8) {
            proof {
                sdb_format::lemma_dims_fail(data@, at as int, (i + 1) as nat, n as nat);
            }
            return Err(SdbError::Truncated);
        }
        let lo = read_u32(data, pos)?;
        let hi = read_u32(data, pos + 4)?;
        if lo > hi || hi - lo == u32::MAX {
            proof {
                sdb_format::lemma_dims_fail(data@, at as int, (i + 1) as nat, n as nat);
            }
            return Err(SdbError::BadArray);
        }
        v.push((lo, hi));
        pos = pos + 8;
        i = i + 1;
    }
    Ok((v, pos))
}

fn read_member(data: &[u8], at: usize, ntypes: u32) -> (r: Result<(StructMember, usize), SdbError>)
    requires
        at <= data@.len(),
    ensures
        agrees(
            r,
            sdb_format::member(data@, at as int, ntypes),
            |x: StructMember| x@,
            data@.len(),
        ),
{
    let _ = read_tag(data, at, TAG_ENTRY)?;
    if !room(data, at, 12) {
        return Err(SdbError::Truncated);
    }
    let type_descr_idx = read_u32(data, at + 8)?;
    if type_descr_idx >= ntypes {
        return Err(SdbError::BadTypeIndex);
    }
    if !room(data, at, 24) {
        return Err(SdbError::Truncated);
    }
    let i0 = read_u32(data, at + 12)?;
    let i1 = read_u32(data, at + 16)?;
    let id_offset = read_u32(data, at + 20)?;
    let (name, p) = read_str(data, at + 24)?;
    Ok((StructMember { type_descr_idx, i0, i1, id_offset, name }, p))
}

fn read_members(data: &[u8], at: usize, n: u32, ntypes: u32) -> (r: Result<
    (Vec<StructMember>, usize),
    SdbError,
>)
    requires
        at <= data@.len(),
    ensures
        agrees(
            r,
            sdb_format::members(data@, at as int, n as nat, ntypes),
            |x: Vec<StructMember>| member_views(x@),
            data@.len(),
        ),
{
    let mut v: Vec<StructMember> = Vec::new();
    let mut pos: usize = at;
    let mut i: u32 = 0;
    assert(member_views(v@) =~= Seq::empty());
    while i < n
        invariant
            i <= n,
            pos <= data@.len(),
            sdb_format::members(data@, at as int, i as nat, ntypes) == Ok::<
                (Seq<MemberView>, int),
                SdbError,
            >((member_views(v@), pos as int)),
        decreases n - i,
    {
        match read_member(data, pos, ntypes) {
            Err(e) => {
                proof {
                    sdb_format::lemma_members_fail(
                        data@,
                        at as int,
                        (i + 1) as nat,
                        n as nat,
                        ntypes,
                    );
                }
                return Err(e);
            },
            Ok((m, p)) => {
                let ghost before = v@;
                v.push(m);
                assert(member_views(v@) =~= member_views(before).push(m@));
                pos = p;
                i = i + 1;
            },
        }
    }
    Ok((v, pos))
}

fn read_payload(data: &[u8], at: usize, kind: TypeKind, ntypes: u32) -> (r: Result<
    (TypeDescPayload, usize),
    SdbError,
>)
    requires
        at <= data@.len(),
    ensures
        agrees(
            r,
            sdb_format::payload(data@, at as int, kind, ntypes),
            |x: TypeDescPayload| x@,
            data@.len(),
        ),
{
    match kind {
        TypeKind::Array => {
            if !room(data, at, 4) {
                return Err(SdbError::Truncated);
            }
            let type_idx = read_u32(data, at)?;
            if type_idx >= ntypes {
                return Err(SdbError::BadTypeIndex);
            }
            if !room(data, at, 8) {
                return Err(SdbError::Truncated);
            }
            let ndims = read_u32(data, at + 4)?;
            if ndims > 2 {
                return Err(SdbError::BadArray);
            }
            let (dims, p) = read_dims(data, at + 8, ndims)?;
            Ok((TypeDescPayload::Array(ArrayDesc { type_idx, dims }), p))
        },
        TypeKind::Data => {
            if !room(data, at, 4) {
                return Err(SdbError::Truncated);
            }
            let count = read_u32(data, at)?;
            let (members, p) = read_members(data, at + 4, count, ntypes)?;
            Ok((TypeDescPayload::Struct(members), p))
        },
        TypeKind::Pointer => {
            if !room(data, at, 4) {
                return Err(SdbError::Truncated);
            }
            let target = read_u32(data, at)?;
            if target >= ntypes {
                return Err(SdbError::BadTypeIndex);
            }
            Ok((TypeDescPayload::Pointer(target), at + 4))
        },
        _ => Ok((TypeDescPayload::Plain, at)),
    }
}

fn read_type_descr(data: &[u8], at: usize, type_idx: u32, ntypes: u32) -> (r: Result<
    (TypeDescription, usize),
    SdbError,
>)
    requires
        at <= data@.len(),
    ensures
        agrees(
            r,
            sdb_format::type_descr(data@, at as int, ntypes),
            |x: TypeDescription| x@,
            data@.len(),
        ),
        r is Ok ==> r->Ok_0.0.type_idx == type_idx,
{
    let _ = read_tag(data, at, TAG_TYPE)?;
    if !room(data, at, 12) {
        return Err(SdbError::Truncated);
    }
    let code = read_u32(data, at + 8)?;
    let kind = match TypeKind::from_code(code) {
        None => {
            return Err(SdbError::UnknownKind(code));
        },
        Some(kind) => kind,
    };
    if !room(data, at, 16) {
        return Err(SdbError::Truncated);
    }
    let type_size = read_u32(data, at + 12)?;
    match kind.scalar_size() {
        Some(n) => {
            if n != type_size {
                return Err(SdbError::BadTypeSize);
            }
        },
        None => {},
    }
    let (description, p) = read_str(data, at + 16)?;
    let (payload, q) = read_payload(data, p, kind, ntypes)?;
    Ok((TypeDescription { type_idx, kind, type_size, description, payload }, q))
}

fn read_type_descrs(data: &[u8], at: usize, ntypes: u32) -> (r: Result<
    (Vec<TypeDescription>, usize),
    SdbError,
>)
    requires
        at <= data@.len(),
    ensures
        agrees(
            r,
            sdb_format::type_descrs(data@, at as int, ntypes as nat, ntypes),
            |x: Vec<TypeDescription>| type_views(x@),
            data@.len(),
        ),
        r is Ok ==> forall|i: int|
            0 <= i < r->Ok_0.0@.len() ==> (#[trigger] r->Ok_0.0@[i]).type_idx == i,
{
    let mut v: Vec<TypeDescription> = Vec::new();
    let mut pos: usize = at;
    let mut i: u32 = 0;
    assert(type_views(v@) =~= Seq::empty());
    while i < ntypes
        invariant
            i <= ntypes,
            pos <= data@.len(),
            v@.len() == i,
            forall|j: int| 0 <= j < v@.len() ==> (#[trigger] v@[j]).type_idx == j,
            sdb_format::type_descrs(data@, at as int, i as nat, ntypes) == Ok::<
                (Seq<TypeView>, int),
                SdbError,
            >((type_views(v@), pos as int)),
        decreases ntypes - i,
    {
        match read_type_descr(data, pos, i, ntypes) {
            Err(e) => {
                proof {
                    sdb_format::lemma_type_descrs_fail(
                        data@,
                        at as int,
                        (i + 1) as nat,
                        ntypes as nat,
                        ntypes,
                    );
                }
                return Err(e);
            },
            Ok((t, p)) => {
                let ghost before = v@;
                v.push(t);
                assert(type_views(v@) =~= type_views(before).push(t@));
                pos = p;
                i = i + 1;
            },
        }
    }
    Ok((v, pos))
}

fn read_param(data: &[u8], at: usize, ntypes: u32) -> (r: Result<(SdbParam, usize), SdbError>)
    requires
        at <= data@.len(),
    ensures
        agrees(r, sdb_format::param(data@, at as int, ntypes), |x: SdbParam| x@, data@.len()),
{
    let _ = read_tag(data, at, TAG_ENTRY)?;
    if !room(data, at, 12) {
        return Err(SdbError::Truncated);
    }
    let type_descr_idx = read_u32(data, at + 8)?;
    if type_descr_idx >= ntypes {
        return Err(SdbError::BadTypeIndex);
    }
    if !room(data, at, 18) {
        return Err(SdbError::Truncated);
    }
    let flags0 = read_u16(data, at + 12)?;
    let flags1 = read_u16(data, at + 14)?;
    let code = read_u16(data, at + 16)?;
    let rw = match AccessMode::from_code(code) {
        None => {
            return Err(SdbError::UnknownAccessMode(code));
        },
        Some(rw) => rw,
    };
    if !room(data, at, 20) {
        return Err(SdbError::Truncated);
    }
    let three = read_u16(data, at + 18)?;
    if three != 3 {
        return Err(SdbError::BadTag);
    }
    if !room(data, at, 24) {
        return Err(SdbError::Truncated);
    }
    let id = read_u32(data, at + 20)?;
    let (name, p) = read_str(data, at + 24)?;
    Ok((SdbParam { type_descr_idx, flags0, flags1, rw, id, name }, p))
}

fn read_params(data: &[u8], at: usize, n: u32, ntypes: u32) -> (r: Result<
    (Vec<SdbParam>, usize),
    SdbError,
>)
    requires
        at <= data@.len(),
    ensures
        agrees(
            r,
            sdb_format::params(data@, at as int, n as nat, ntypes),
            |x: Vec<SdbParam>| param_views(x@),
            data@.len(),
        ),
{
    let mut v: Vec<SdbParam> = Vec::new();
    let mut pos: usize = at;
    let mut i: u32 = 0;
    assert(param_views(v@) =~= Seq::empty());
    while i < n
        invariant
            i <= n,
            pos <= data@.len(),
            sdb_format::params(data@, at as int, i as nat, ntypes) == Ok::<
                (Seq<ParamView>, int),
                SdbError,
            >((param_views(v@), pos as int)),
        decreases n - i,
    {
        match read_param(data, pos, ntypes) {
            Err(e) => {
                proof {
                    sdb_format::lemma_params_fail(
                        data@,
                        at as int,
                        (i + 1) as nat,
                        n as nat,
                        ntypes,
                    );
                }
                return Err(e);
            },
            Ok((x, p)) => {
                let ghost before = v@;
                v.push(x);
                assert(param_views(v@) =~= param_views(before).push(x@));
                pos = p;
                i = i + 1;
            },
        }
    }
    Ok((v, pos))
}

fn read_trailer(data: &[u8], at: usize) -> (r: Result<(Vec<u8>, usize), SdbError>)
    requires
        at <= data@.len(),
    ensures
        agrees(r, sdb_format::trailer(data@, at as int), |x: Vec<u8>| x@, data@.len()),
{
    let _ = read_tag(data, at, TAG_TRAILER)?;
    if !room(data, at, 8) {
        return Err(SdbError::Truncated);
    }
    let tail_len = read_u32(data, at + 4)?;
    if tail_len < 8 {
        return Err(SdbError::BadLength);
    }
    if !room(data, at, tail_len as usize) {
        return Err(SdbError::Truncated);
    }
    let end: usize = at + tail_len as usize;
    Ok((copy_range(data, at + 8, end), end))
}

/// The symbol database of one instrument.
#[derive(Debug)]
pub struct Sdb {
    /// Sent at the end of every parameter read packet.
    sdb_id: u32,
    maybe_checksum: u32,
    /// Total size of the database in bytes.
    total_sbd_size: u32,
    hdr_data_0: u32,
    hdr_data_1: u32,
    hdr_data_2: u32,
    type_descr: Vec<TypeDescription>,
    len_xx: u32,
    parameters: Vec<SdbParam>,
    tail: Vec<u8>,
}

impl View for Sdb {
    type V = SdbView;

    closed spec fn view(&self) -> SdbView {
        SdbView {
            sdb_id: self.sdb_id,
            checksum: self.maybe_checksum,
            total_size: self.total_sbd_size,
            hdr_data: (self.hdr_data_0, self.hdr_data_1, self.hdr_data_2),
            types: type_views(self.type_descr@),
            len_xx: self.len_xx,
            params: param_views(self.parameters@),
            tail: self.tail@,
        }
    }
}

/// No parameter of the catalog has the name that was asked for.
#[derive(Clone, Debug)]
pub struct NotFound(pub String);

impl Sdb {
    #[verifier::type_invariant]
    spec fn inv(self) -> bool {
        &&& self@.valid()
        &&& forall|i: int|
            0 <= i < self.type_descr@.len() ==> (#[trigger] self.type_descr@[i]).type_idx == i
    }

    /// Reads a whole catalog from its binary form. The result is the one
    /// that the grammar of the format gives for these bytes: the catalog it
    /// describes, or the first fault in reading order.
    pub fn from_bytes(blob: &[u8]) -> (r: Result<Sdb, SdbError>)
        ensures
            match r {
                Ok(sdb) => sdb_format::sdb(blob@) == Ok::<SdbView, SdbError>(sdb@) && sdb@.valid(),
                Err(e) => sdb_format::sdb(blob@) == Err::<SdbView, SdbError>(e),
            },
    {
        let _ = read_tag(blob, 0, TAG_HEADER)?;
        if !room(blob, 0, 8) {
            return Err(SdbError::Truncated);
        }
        let _ = read_tag(blob, 8, TAG_HEADER)?;
        if !room(blob, 0, HEADER_LEN) {
            return Err(SdbError::Truncated);
        }
        let sdb_id = read_u32(blob, 12)?;
        let maybe_checksum = read_u32(blob, 16)?;
        let total_sbd_size = read_u32(blob, 20)?;
        let hdr_data_0 = read_u32(blob, 24)?;
        let hdr_data_1 = read_u32(blob, 28)?;
        let hdr_data_2 = read_u32(blob, 32)?;
        let ntypes = read_u32(blob, 36)?;
        let (type_descr, p1) = read_type_descrs(blob, HEADER_LEN, ntypes)?;
        let _ = read_tag(blob, p1, TAG_SEPARATOR)?;
        if !room(blob, p1, 8) {
            return Err(SdbError::Truncated);
        }
        let len_xx = read_u32(blob, p1 + 4)?;
        let _ = read_tag(blob, p1 + 8, 0)?;
        if !room(blob, p1, 16) {
            return Err(SdbError::Truncated);
        }
        let nparams = read_u32(blob, p1 + 12)?;
        let (parameters, p3) = read_params(blob, p1 + 16, nparams, ntypes)?;
        let (tail, _) = read_trailer(blob, p3)?;
        proof {
            sdb_format::lemma_sdb_valid(blob@);
        }
        Ok(
            Sdb {
                sdb_id,
                maybe_checksum,
                total_sbd_size,
                hdr_data_0,
                hdr_data_1,
                hdr_data_2,
                type_descr,
                len_xx,
                parameters,
                tail,
            },
        )
    }

    pub fn get_ref(&self) -> (r: &Sdb)
        ensures
            r == self,
    {
        self
    }

    /// The number that the instrument expects at the end of every read and
    /// write request.
    pub fn sdb_id(&self) -> (r: u32)
        ensures
            r == self@.sdb_id,
    {
        self.sdb_id
    }

    /// The word of the header that may be a checksum.
    pub fn checksum(&self) -> (r: u32)
        ensures
            r == self@.checksum,
    {
        self.maybe_checksum
    }

    /// The size of the whole database in bytes, as its header states it.
    pub fn total_size(&self) -> (r: u32)
        ensures
            r == self@.total_size,
    {
        self.total_sbd_size
    }

    /// The three words of the header whose meaning is not known.
    pub fn header_data(&self) -> (r: (u32, u32, u32))
        ensures
            r == self@.hdr_data,
    {
        (self.hdr_data_0, self.hdr_data_1, self.hdr_data_2)
    }

    /// The bytes of the trailer.
    pub fn tail(&self) -> (r: &[u8])
        ensures
            r@ == self@.tail,
    {
        self.tail.as_slice()
    }

    /// The number of types in the type table.
    pub fn type_count(&self) -> (r: usize)
        ensures
            r == self@.types.len(),
    {
        proof {
            assert(type_views(self.type_descr@).len() == self.type_descr@.len());
        }
        self.type_descr.len()
    }

    /// The type at place `index` of the type table.
    pub fn type_at(&self, index: usize) -> (r: Option<TypeInfo<'_>>)
        ensures
            match r {
                Some(t) => index < self@.types.len() && t.catalog() == self@ && t.index()
                    == index,
                None => index >= self@.types.len(),
            },
    {
        proof {
            use_type_invariant(self);
            assert(type_views(self.type_descr@).len() == self.type_descr@.len());
        }
        if index < self.type_descr.len() {
            Some(TypeInfo::new(self, index as u32))
        } else {
            None
        }
    }

    /// The number of parameters in the catalog.
    pub fn param_count(&self) -> (r: usize)
        ensures
            r == self@.params.len(),
    {
        proof {
            assert(param_views(self.parameters@).len() == self.parameters@.len());
        }
        self.parameters.len()
    }

    /// The parameter at place `index` of the catalog.
    pub fn param_at(&self, index: usize) -> (r: Option<Parameter<'_>>)
        ensures
            match r {
                Some(p) => index < self@.params.len() && p.catalog() == self@ && p.index()
                    == index,
                None => index >= self@.params.len(),
            },
    {
        proof {
            use_type_invariant(self);
            assert(param_views(self.parameters@).len() == self.parameters@.len());
        }
        if index < self.parameters.len() {
            let descr = self.parameters[index].type_descr_idx as usize;
            assert(param_views(self.parameters@)[index as int] == self.parameters@[index as int]@);
            Some(Parameter::new(self, index, descr))
        } else {
            None
        }
    }

    /// All the parameters of the catalog, in the order of the catalog.
    pub fn parameters(&self) -> (r: Vec<Parameter<'_>>)
        ensures
            r@.len() == self@.params.len(),
            forall|i: int|
                0 <= i < r@.len() ==> (#[trigger] r@[i]).catalog() == self@ && r@[i].index() == i,
    {
        let n = self.param_count();
        let mut v: Vec<Parameter<'_>> = Vec::new();
        let mut i: usize = 0;
        while i < n
            invariant
                i <= n,
                n == self@.params.len(),
                v@.len() == i,
                forall|j: int|
                    0 <= j < v@.len() ==> (#[trigger] v@[j]).catalog() == self@ && v@[j].index()
                        == j,
            decreases n - i,
        {
            match self.param_at(i) {
                Some(p) => {
                    v.push(p);
                },
                None => {},
            }
            i = i + 1;
        }
        v
    }

    /// The first parameter whose name is exactly `name`.
    pub fn param_by_name(&self, name: &str) -> (r: Result<Parameter<'_>, NotFound>)
        ensures
            match r {
                Ok(p) => self@.first_named(name@) < self@.params.len() && p.catalog() == self@
                    && p.index() == self@.first_named(name@),
                Err(e) => self@.first_named(name@) == self@.params.len() && e.0@ == name@,
            },
    {
        let wanted: String = name.to_owned();
        let n = self.param_count();
        let mut i: usize = 0;
        while i < n
            invariant
                i <= n,
                n == self@.params.len(),
                n == self.parameters@.len(),
                wanted@ == name@,
                self@.first_named(name@) == crate::sdb_model::first_named_from(
                    self@.params,
                    name@,
                    i as int,
                ),
            decreases n - i,
        {
            assert(param_views(self.parameters@)[i as int] == self.parameters@[i as int]@);
            if self.parameters[i].name.s == wanted {
                match self.param_at(i) {
                    Some(p) => {
                        return Ok(p);
                    },
                    None => {},
                }
            }
            i = i + 1;
        }
        Err(NotFound(wanted))
    }
}

/// A parameter of a catalog: the catalog, the parameter's place in it, and
/// the place of its type in the type table.
#[derive(Clone, Copy, Debug)]
pub struct Parameter<'sdb> {
    sdb: &'sdb Sdb,
    param: usize,
    descr: usize,
}

impl<'sdb> Parameter<'sdb> {
    #[verifier::type_invariant]
    spec fn inv(self) -> bool {
        &&& self.param < self.sdb.parameters@.len()
        &&& self.descr == self.sdb.parameters@[self.param as int].type_descr_idx
    }

    /// The catalog that the parameter belongs to.
    pub closed spec fn catalog(&self) -> SdbView {
        self.sdb@
    }

    /// The parameter's place in the catalog.
    pub closed spec fn index(&self) -> int {
        self.param as int
    }

    /// What the catalog says of the parameter.
    pub open spec fn record(&self) -> ParamView {
        self.catalog().params[self.index()]
    }

    /// What the catalog says of the parameter's type.
    pub open spec fn type_record(&self) -> TypeView {
        self.catalog().types[self.record().type_idx as int]
    }

    fn new(sdb: &'sdb Sdb, param: usize, descr: usize) -> (r: Self)
        requires
            param < sdb.parameters@.len(),
            descr == sdb.parameters@[param as int].type_descr_idx,
        ensures
            r.catalog() == sdb@,
            r.index() == param,
    {
        Self { sdb, param, descr }
    }

    /// The parameter's place in the catalog, which is always a consistent
    /// one.
    pub fn position(&self) -> (r: usize)
        ensures
            r == self.index(),
            r < self.catalog().params.len(),
            self.catalog().valid(),
            self.record().type_idx < self.catalog().types.len(),
    {
        proof {
            use_type_invariant(self);
            use_type_invariant(self.sdb);
            assert(param_views(self.sdb.parameters@)[self.param as int]
                == self.sdb.parameters@[self.param as int]@);
        }
        self.param
    }

    pub fn name(&self) -> (r: &str)
        ensures
            r@ == self.record().name,
    {
        proof {
            use_type_invariant(self);
            assert(param_views(self.sdb.parameters@)[self.param as int]
                == self.sdb.parameters@[self.param as int]@);
        }
        self.sdb.parameters[self.param].name.as_str()
    }

    /// The parameter's address on the wire.
    pub fn id(&self) -> (r: u32)
        ensures
            r == self.record().id,
    {
        proof {
            use_type_invariant(self);
            assert(param_views(self.sdb.parameters@)[self.param as int]
                == self.sdb.parameters@[self.param as int]@);
        }
        self.sdb.parameters[self.param].id
    }

    /// The two flag words of the parameter.
    pub fn flags(&self) -> (r: (u16, u16))
        ensures
            r == self.record().flags,
    {
        proof {
            use_type_invariant(self);
            assert(param_views(self.sdb.parameters@)[self.param as int]
                == self.sdb.parameters@[self.param as int]@);
        }
        let p = &self.sdb.parameters[self.param];
        (p.flags0, p.flags1)
    }

    /// Whether the instrument lets the parameter be read or written.
    pub fn access_mode(&self) -> (r: AccessMode)
        ensures
            r == self.record().rw,
    {
        proof {
            use_type_invariant(self);
            assert(param_views(self.sdb.parameters@)[self.param as int]
                == self.sdb.parameters@[self.param as int]@);
        }
        self.sdb.parameters[self.param].rw
    }

    pub fn type_info(&self) -> (r: TypeInfo<'sdb>)
        ensures
            r.catalog() == self.catalog(),
            r.index() == self.record().type_idx,
    {
        proof {
            use_type_invariant(self);
            use_type_invariant(self.sdb);
            assert(param_views(self.sdb.parameters@)[self.param as int]
                == self.sdb.parameters@[self.param as int]@);
            assert(type_views(self.sdb.type_descr@).len() == self.sdb.type_descr@.len());
        }
        TypeInfo { sdb: self.sdb, descr: self.descr }
    }

    /// Returns a TypeKind enum value, describing the data type of the parameter.
    pub fn value_kind(&self) -> (r: TypeKind)
        ensures
            r == self.type_record().kind,
    {
        self.type_info().kind()
    }

    /// Reads a value for the parameter from a text, as a user would type
    /// it, and checks that the parameter can hold it.
    pub fn value_from_str(&self, val: &str) -> (r: Result<Value, ParseValueError>)
        ensures
            match r {
                Ok(v) => crate::value_format::from_text(self.type_record(), val@) == Ok::<
                    ValueView,
                    ParseValueError,
                >(v@),
                Err(e) => crate::value_format::from_text(self.type_record(), val@) == Err::<
                    ValueView,
                    ParseValueError,
                >(e),
            },
    {
        Value::from_str(val, &self.type_info())
    }
}

/// A type of a catalog: the catalog and the place of the type in its table.
#[derive(Clone, Copy, Debug)]
pub struct TypeInfo<'sdb> {
    sdb: &'sdb Sdb,
    descr: usize,
}

/// The lengths of up to two dimensions; a dimension that the array does not
/// have counts as zero.
pub open spec fn dim_lens(dims: Seq<(u32, u32)>) -> (int, int) {
    (
        if dims.len() > 0 {
            crate::sdb_model::dim_len(dims[0])
        } else {
            0
        },
        if dims.len() > 1 {
            crate::sdb_model::dim_len(dims[1])
        } else {
            0
        },
    )
}

impl<'sdb> TypeInfo<'sdb> {
    #[verifier::type_invariant]
    spec fn inv(self) -> bool {
        self.descr < self.sdb.type_descr@.len()
    }

    /// The catalog that the type belongs to.
    pub closed spec fn catalog(&self) -> SdbView {
        self.sdb@
    }

    /// The type's place in the type table.
    pub closed spec fn index(&self) -> int {
        self.descr as int
    }

    /// What the catalog says of the type.
    pub open spec fn record(&self) -> TypeView {
        self.catalog().types[self.index()]
    }

    /// The type's place in the type table of its catalog, which is always
    /// a consistent one.
    pub fn position(&self) -> (r: usize)
        ensures
            r == self.index(),
            r < self.catalog().types.len(),
            self.catalog().valid(),
            self.record().valid(self.catalog().types.len()),
    {
        proof {
            use_type_invariant(self);
            use_type_invariant(self.sdb);
            assert(type_views(self.sdb.type_descr@).len() == self.sdb.type_descr@.len());
        }
        self.descr
    }

    fn new(sdb: &'sdb Sdb, idx: u32) -> (r: Self)
        requires
            idx < sdb.type_descr@.len(),
        ensures
            r.catalog() == sdb@,
            r.index() == idx,
    {
        Self { sdb, descr: idx as usize }
    }

    fn descr(&self) -> (r: &'sdb TypeDescription)
        ensures
            r@ == self.record(),
            r@.valid(self.catalog().types.len()),
            self.catalog().valid(),
            self.catalog().types.len() == self.sdb.type_descr@.len(),
    {
        proof {
            use_type_invariant(self);
            use_type_invariant(self.sdb);
            assert(type_views(self.sdb.type_descr@).len() == self.sdb.type_descr@.len());
            assert(type_views(self.sdb.type_descr@)[self.descr as int]
                == self.sdb.type_descr@[self.descr as int]@);
        }
        let sdb: &'sdb Sdb = self.sdb;
        &sdb.type_descr[self.descr]
    }

    pub fn kind(&self) -> (r: TypeKind)
        ensures
            r == self.record().kind,
    {
        self.descr().kind
    }

    /// The type's description in the catalog.
    pub fn description(&self) -> (r: &'sdb str)
        ensures
            r@ == self.record().description,
    {
        self.descr().description.as_str()
    }

    /// The number of bytes that a value of the type takes in a response.
    pub fn response_len(&self) -> (r: usize)
        ensures
            r == self.record().type_size,
    {
        self.descr().type_size as usize
    }

    /// The number of types in the catalog's table.
    pub fn table_len(&self) -> (r: usize)
        ensures
            r == self.catalog().types.len(),
    {
        proof {
            assert(type_views(self.sdb.type_descr@).len() == self.sdb.type_descr@.len());
        }
        self.sdb.type_descr.len()
    }

    /// For an array type, the type of its elements and the length of each
    /// of its two possible dimensions.
    pub fn array_info(&self) -> (r: Option<(TypeInfo<'sdb>, [usize; 2])>)
        ensures
            match r {
                Some((elem, lens)) => match self.record().payload {
                    PayloadView::Array { type_idx, dims } => {
                        &&& elem.catalog() == self.catalog()
                        &&& elem.index() == type_idx
                        &&& (lens@[0] as int, lens@[1] as int) == dim_lens(dims)
                    },
                    _ => false,
                },
                None => !(self.record().payload is Array),
            },
    {
        let d = self.descr();
        match &d.payload {
            TypeDescPayload::Array(arr) => {
                let mut lens: [usize; 2] = [0, 0];
                assert(arr.dims@.len() <= 2);
                if arr.dims.len() > 0 {
                    let x = arr.dims[0];
                    assert(dim_ok(arr.dims@[0]));
                    lens[0] = (x.1 - x.0 + 1) as usize;
                }
                if arr.dims.len() > 1 {
                    let x = arr.dims[1];
                    assert(dim_ok(arr.dims@[1]));
                    lens[1] = (x.1 - x.0 + 1) as usize;
                }
                Some((Self::new(self.sdb, arr.type_idx), lens))
            },
            _ => None,
        }
    }

    /// For a structured type, the name and the type of each member, in the
    /// order of declaration.
    pub fn struct_info(&self) -> (r: Option<Vec<StructMemberInfo<'sdb>>>)
        ensures
            match r {
                Some(infos) => match self.record().payload {
                    PayloadView::Struct(members) => {
                        &&& infos@.len() == members.len()
                        &&& forall|i: int|
                            0 <= i < infos@.len() ==> {
                                &&& (#[trigger] infos@[i]).name@ == members[i].name
                                &&& infos@[i].type_info.catalog() == self.catalog()
                                &&& infos@[i].type_info.index() == members[i].type_idx
                            }
                    },
                    _ => false,
                },
                None => !(self.record().payload is Struct),
            },
    {
        let d = self.descr();
        match &d.payload {
            TypeDescPayload::Struct(ms) => {
                let mut v: Vec<StructMemberInfo<'sdb>> = Vec::new();
                let mut i: usize = 0;
                let ghost members = member_views(ms@);
                assert forall|j: int| 0 <= j < members.len() implies (#[trigger] members[j]).type_idx
                    < self.catalog().types.len() by {
                    let payload = self.record().payload;
                    assert(payload == PayloadView::Struct(members));
                    assert(payload->Struct_0[j].type_idx < self.catalog().types.len());
                }
                while i < ms.len()
                    invariant
                        i <= ms@.len(),
                        v@.len() == i,
                        members == member_views(ms@),
                        members.len() == ms@.len(),
                        self.catalog().types.len() == self.sdb.type_descr@.len(),
                        forall|j: int|
                            0 <= j < members.len() ==> (#[trigger] members[j]).type_idx
                                < self.catalog().types.len(),
                        forall|j: int|
                            0 <= j < v@.len() ==> {
                                &&& (#[trigger] v@[j]).name@ == members[j].name
                                &&& v@[j].type_info.catalog() == self.catalog()
                                &&& v@[j].type_info.index() == members[j].type_idx
                            },
                    decreases ms@.len() - i,
                {
                    let m = &ms[i];
                    assert(members[i as int] == ms@[i as int]@);
                    v.push(
                        StructMemberInfo {
                            name: m.name.as_str(),
                            type_info: Self::new(self.sdb, m.type_descr_idx),
                        },
                    );
                    i = i + 1;
                }
                Some(v)
            },
            _ => None,
        }
    }
}

/// The name and the type of one member of a structured type.
#[derive(Clone, Copy, Debug)]
pub struct StructMemberInfo<'a> {
    pub name: &'a str,
    pub type_info: TypeInfo<'a>,
}

} // verus!
