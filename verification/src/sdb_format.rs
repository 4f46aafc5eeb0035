//! The binary layout of the symbol database, as a grammar.
//!
//! Each function reads one construct of the format at a position of the byte
//! string and gives either what it found together with the position behind
//! it, or the reason why the bytes there are no such construct. Records are
//! read field by field, so the first fault in reading order decides the
//! error. All integers are little-endian.

use vstd::prelude::*;
use crate::codepage::cp1252_text;
use crate::sdb_model::{
    dim_ok, AccessMode, MemberView, ParamView, PayloadView, SdbError, SdbView, TypeKind, TypeView,
};
use crate::wire::{le16, le32};

verus! {

/// The longest string that the format allows, counted with its padding.
pub const MAX_STR_LEN: u16 = 81;

/// The most trailing NUL bytes that padding puts behind a string.
pub const MAX_STR_PAD: usize = 3;

pub const TAG_HEADER: u32 = 1;

pub const TAG_SEPARATOR: u32 = 3;

pub const TAG_TYPE: u32 = 4;

pub const TAG_ENTRY: u32 = 5;

pub const TAG_TRAILER: u32 = 6;

/// The number of bytes of the header record.
pub const HEADER_LEN: usize = 40;

/// `raw` without its trailing NUL bytes, of which at most `most` are taken
/// off.
pub open spec fn strip_nuls(raw: Seq<u8>, most: nat) -> Seq<u8>
    decreases most,
{
    if most == 0 || raw.len() == 0 || raw.last() != 0 {
        raw
    } else {
        strip_nuls(raw.drop_last(), (most - 1) as nat)
    }
}

/// A 32-bit word that must equal `tag`.
pub open spec fn tag32(s: Seq<u8>, at: int, tag: u32) -> Result<int, SdbError> {
    if at + 4 > s.len() {
        Err(SdbError::Truncated)
    } else if le32(s, at) != tag {
        Err(SdbError::BadTag)
    } else {
        Ok(at + 4)
    }
}

/// A string: its length in 16 bits, then that many bytes, of which the
/// trailing padding is dropped and the rest read in code page 1252.
pub open spec fn sdb_str(s: Seq<u8>, at: int) -> Result<(Seq<char>, int), SdbError> {
    if at + 2 > s.len() {
        Err(SdbError::Truncated)
    } else {
        let n = le16(s, at) as int;
        if n > MAX_STR_LEN {
            Err(SdbError::BadString)
        } else if at + 2 + n > s.len() {
            Err(SdbError::Truncated)
        } else {
            Ok(
                (
                    cp1252_text(strip_nuls(s.subrange(at + 2, at + 2 + n), MAX_STR_PAD as nat)),
                    at + 2 + n,
                ),
            )
        }
    }
}

/// One dimension of an array: its lower and its upper bound.
pub open spec fn dim(s: Seq<u8>, at: int) -> Result<((u32, u32), int), SdbError> {
    if at + 8 > s.len() {
        Err(SdbError::Truncated)
    } else {
        let d = (le32(s, at), le32(s, at + 4));
        if !dim_ok(d) {
            Err(SdbError::BadArray)
        } else {
            Ok((d, at + 8))
        }
    }
}

/// `n` dimensions in a row.
pub open spec fn dims(s: Seq<u8>, at: int, n: nat) -> Result<(Seq<(u32, u32)>, int), SdbError>
    decreases n,
{
    if n == 0 {
        Ok((Seq::empty(), at))
    } else {
        match dims(s, at, (n - 1) as nat) {
            Err(e) => Err(e),
            Ok((ds, p)) => match dim(s, p) {
                Err(e) => Err(e),
                Ok((d, q)) => Ok((ds.push(d), q)),
            },
        }
    }
}

/// One member record of a structured type, in a table of `ntypes` types.
pub open spec fn member(s: Seq<u8>, at: int, ntypes: u32) -> Result<(MemberView, int), SdbError> {
    match tag32(s, at, TAG_ENTRY) {
        Err(e) => Err(e),
        Ok(_) => if at + 12 > s.len() {
            Err(SdbError::Truncated)
        } else if le32(s, at + 8) >= ntypes {
            Err(SdbError::BadTypeIndex)
        } else if at + 24 > s.len() {
            Err(SdbError::Truncated)
        } else {
            match sdb_str(s, at + 24) {
                Err(e) => Err(e),
                Ok((name, p)) => Ok(
                    (
                        MemberView {
                            type_idx: le32(s, at + 8),
                            opaque: (le32(s, at + 12), le32(s, at + 16)),
                            id_offset: le32(s, at + 20),
                            name,
                        },
                        p,
                    ),
                ),
            }
        },
    }
}

/// `n` member records in a row.
pub open spec fn members(s: Seq<u8>, at: int, n: nat, ntypes: u32) -> Result<
    (Seq<MemberView>, int),
    SdbError,
>
    decreases n,
{
    if n == 0 {
        Ok((Seq::empty(), at))
    } else {
        match members(s, at, (n - 1) as nat, ntypes) {
            Err(e) => Err(e),
            Ok((ms, p)) => match member(s, p, ntypes) {
                Err(e) => Err(e),
                Ok((m, q)) => Ok((ms.push(m), q)),
            },
        }
    }
}

/// What follows the description in a type descriptor of kind `kind`.
pub open spec fn payload(s: Seq<u8>, at: int, kind: TypeKind, ntypes: u32) -> Result<
    (PayloadView, int),
    SdbError,
> {
    match kind {
        TypeKind::Array => if at + 4 > s.len() {
            Err(SdbError::Truncated)
        } else if le32(s, at) >= ntypes {
            Err(SdbError::BadTypeIndex)
        } else if at + 8 > s.len() {
            Err(SdbError::Truncated)
        } else if le32(s, at + 4) > 2 {
            Err(SdbError::BadArray)
        } else {
            match dims(s, at + 8, le32(s, at + 4) as nat) {
                Err(e) => Err(e),
                Ok((ds, p)) => Ok((PayloadView::Array { type_idx: le32(s, at), dims: ds }, p)),
            }
        },
        TypeKind::Data => if at + 4 > s.len() {
            Err(SdbError::Truncated)
        } else {
            match members(s, at + 4, le32(s, at) as nat, ntypes) {
                Err(e) => Err(e),
                Ok((ms, p)) => Ok((PayloadView::Struct(ms), p)),
            }
        },
        TypeKind::Pointer => if at + 4 > s.len() {
            Err(SdbError::Truncated)
        } else if le32(s, at) >= ntypes {
            Err(SdbError::BadTypeIndex)
        } else {
            Ok((PayloadView::Pointer(le32(s, at)), at + 4))
        },
        _ => Ok((PayloadView::Plain, at)),
    }
}

/// One type descriptor, in a table of `ntypes` types.
pub open spec fn type_descr(s: Seq<u8>, at: int, ntypes: u32) -> Result<(TypeView, int), SdbError> {
    match tag32(s, at, TAG_TYPE) {
        Err(e) => Err(e),
        Ok(_) => if at + 12 > s.len() {
            Err(SdbError::Truncated)
        } else {
            match TypeKind::spec_from_code(le32(s, at + 8)) {
                None => Err(SdbError::UnknownKind(le32(s, at + 8))),
                Some(kind) => if at + 16 > s.len() {
                    Err(SdbError::Truncated)
                } else if kind.spec_scalar_size() is Some && kind.spec_scalar_size() != Some(
                    le32(s, at + 12),
                ) {
                    Err(SdbError::BadTypeSize)
                } else {
                    match sdb_str(s, at + 16) {
                        Err(e) => Err(e),
                        Ok((description, p)) => match payload(s, p, kind, ntypes) {
                            Err(e) => Err(e),
                            Ok((pl, q)) => Ok(
                                (
                                    TypeView {
                                        kind,
                                        type_size: le32(s, at + 12),
                                        description,
                                        payload: pl,
                                    },
                                    q,
                                ),
                            ),
                        },
                    }
                },
            }
        },
    }
}

/// The first `n` type descriptors of a table of `ntypes`.
pub open spec fn type_descrs(s: Seq<u8>, at: int, n: nat, ntypes: u32) -> Result<
    (Seq<TypeView>, int),
    SdbError,
>
    decreases n,
{
    if n == 0 {
        Ok((Seq::empty(), at))
    } else {
        match type_descrs(s, at, (n - 1) as nat, ntypes) {
            Err(e) => Err(e),
            Ok((ts, p)) => match type_descr(s, p, ntypes) {
                Err(e) => Err(e),
                Ok((t, q)) => Ok((ts.push(t), q)),
            },
        }
    }
}

/// One parameter record, beside a table of `ntypes` types.
pub open spec fn param(s: Seq<u8>, at: int, ntypes: u32) -> Result<(ParamView, int), SdbError> {
    match tag32(s, at, TAG_ENTRY) {
        Err(e) => Err(e),
        Ok(_) => if at + 12 > s.len() {
            Err(SdbError::Truncated)
        } else if le32(s, at + 8) >= ntypes {
            Err(SdbError::BadTypeIndex)
        } else if at + 18 > s.len() {
            Err(SdbError::Truncated)
        } else {
            match AccessMode::spec_from_code(le16(s, at + 16)) {
                None => Err(SdbError::UnknownAccessMode(le16(s, at + 16))),
                Some(rw) => if at + 20 > s.len() {
                    Err(SdbError::Truncated)
                } else if le16(s, at + 18) != 3 {
                    Err(SdbError::BadTag)
                } else if at + 24 > s.len() {
                    Err(SdbError::Truncated)
                } else {
                    match sdb_str(s, at + 24) {
                        Err(e) => Err(e),
                        Ok((name, p)) => Ok(
                            (
                                ParamView {
                                    type_idx: le32(s, at + 8),
                                    flags: (le16(s, at + 12), le16(s, at + 14)),
                                    rw,
                                    id: le32(s, at + 20),
                                    name,
                                },
                                p,
                            ),
                        ),
                    }
                },
            }
        },
    }
}

/// `n` parameter records in a row.
pub open spec fn params(s: Seq<u8>, at: int, n: nat, ntypes: u32) -> Result<
    (Seq<ParamView>, int),
    SdbError,
>
    decreases n,
{
    if n == 0 {
        Ok((Seq::empty(), at))
    } else {
        match params(s, at, (n - 1) as nat, ntypes) {
            Err(e) => Err(e),
            Ok((ps, p)) => match param(s, p, ntypes) {
                Err(e) => Err(e),
                Ok((x, q)) => Ok((ps.push(x), q)),
            },
        }
    }
}

/// The header record. It gives the position behind it when its two tags are
/// in place and all its forty bytes are there.
pub open spec fn header(s: Seq<u8>) -> Result<int, SdbError> {
    match tag32(s, 0, TAG_HEADER) {
        Err(e) => Err(e),
        Ok(_) => match tag32(s, 8, TAG_HEADER) {
            Err(e) => Err(e),
            Ok(_) => if HEADER_LEN > s.len() {
                Err(SdbError::Truncated)
            } else {
                Ok(HEADER_LEN as int)
            },
        },
    }
}

/// The record between the type table and the parameters: a tag, a word that
/// is kept, a word that must be zero, and the number of parameters. It gives
/// the position behind it.
pub open spec fn separator(s: Seq<u8>, at: int) -> Result<int, SdbError> {
    match tag32(s, at, TAG_SEPARATOR) {
        Err(e) => Err(e),
        Ok(_) => match tag32(s, at + 8, 0) {
            Err(e) => Err(e),
            Ok(_) => if at + 16 > s.len() {
                Err(SdbError::Truncated)
            } else {
                Ok(at + 16)
            },
        },
    }
}

/// The trailer: a tag, the trailer's length with tag and length counted in,
/// and the bytes that make up the rest of it.
pub open spec fn trailer(s: Seq<u8>, at: int) -> Result<(Seq<u8>, int), SdbError> {
    match tag32(s, at, TAG_TRAILER) {
        Err(e) => Err(e),
        Ok(_) => if at + 8 > s.len() {
            Err(SdbError::Truncated)
        } else if le32(s, at + 4) < 8 {
            Err(SdbError::BadLength)
        } else if at + le32(s, at + 4) > s.len() {
            Err(SdbError::Truncated)
        } else {
            Ok((s.subrange(at + 8, at + le32(s, at + 4)), at + le32(s, at + 4)))
        },
    }
}

/// A whole database: header, type table, separator, parameters, trailer.
/// What follows the trailer is not looked at.
pub open spec fn sdb(s: Seq<u8>) -> Result<SdbView, SdbError> {
    match header(s) {
        Err(e) => Err(e),
        Ok(p0) => {
            let ntypes = le32(s, 36);
            match type_descrs(s, p0, ntypes as nat, ntypes) {
                Err(e) => Err(e),
                Ok((types, p1)) => match separator(s, p1) {
                    Err(e) => Err(e),
                    Ok(p2) => match params(s, p2, le32(s, p1 + 12) as nat, ntypes) {
                        Err(e) => Err(e),
                        Ok((ps, p3)) => match trailer(s, p3) {
                            Err(e) => Err(e),
                            Ok((tail, _)) => Ok(
                                SdbView {
                                    sdb_id: le32(s, 12),
                                    checksum: le32(s, 16),
                                    total_size: le32(s, 20),
                                    hdr_data: (le32(s, 24), le32(s, 28), le32(s, 32)),
                                    types,
                                    len_xx: le32(s, p1 + 4),
                                    params: ps,
                                    tail,
                                },
                            ),
                        },
                    },
                },
            }
        },
    }
}

/// Once reading a row of dimensions has failed, asking for more of them
/// fails in the same way.
pub proof fn lemma_dims_fail(s: Seq<u8>, at: int, i: nat, n: nat)
    requires
        i <= n,
        dims(s, at, i) is Err,
    ensures
        dims(s, at, n) == dims(s, at, i),
    decreases n,
{
    if i < n {
        lemma_dims_fail(s, at, i, (n - 1) as nat);
    }
}

/// Once reading a row of members has failed, asking for more of them fails
/// in the same way.
pub proof fn lemma_members_fail(s: Seq<u8>, at: int, i: nat, n: nat, ntypes: u32)
    requires
        i <= n,
        members(s, at, i, ntypes) is Err,
    ensures
        members(s, at, n, ntypes) == members(s, at, i, ntypes),
    decreases n,
{
    if i < n {
        lemma_members_fail(s, at, i, (n - 1) as nat, ntypes);
    }
}

/// Once reading a row of type descriptors has failed, asking for more of
/// them fails in the same way.
pub proof fn lemma_type_descrs_fail(s: Seq<u8>, at: int, i: nat, n: nat, ntypes: u32)
    requires
        i <= n,
        type_descrs(s, at, i, ntypes) is Err,
    ensures
        type_descrs(s, at, n, ntypes) == type_descrs(s, at, i, ntypes),
    decreases n,
{
    if i < n {
        lemma_type_descrs_fail(s, at, i, (n - 1) as nat, ntypes);
    }
}

/// Once reading a row of parameters has failed, asking for more of them
/// fails in the same way.
pub proof fn lemma_params_fail(s: Seq<u8>, at: int, i: nat, n: nat, ntypes: u32)
    requires
        i <= n,
        params(s, at, i, ntypes) is Err,
    ensures
        params(s, at, n, ntypes) == params(s, at, i, ntypes),
    decreases n,
{
    if i < n {
        lemma_params_fail(s, at, i, (n - 1) as nat, ntypes);
    }
}

/// A row of dimensions that was read has the length asked for, and each of
/// its dimensions is in order.
pub proof fn lemma_dims_ok(s: Seq<u8>, at: int, n: nat)
    requires
        dims(s, at, n) is Ok,
    ensures
        dims(s, at, n)->Ok_0.0.len() == n,
        forall|i: int| 0 <= i < n ==> dim_ok(#[trigger] dims(s, at, n)->Ok_0.0[i]),
    decreases n,
{
    if n > 0 {
        lemma_dims_ok(s, at, (n - 1) as nat);
    }
}

/// A row of members that was read has the length asked for, and each of its
/// members has a type in the table.
pub proof fn lemma_members_ok(s: Seq<u8>, at: int, n: nat, ntypes: u32)
    requires
        members(s, at, n, ntypes) is Ok,
    ensures
        members(s, at, n, ntypes)->Ok_0.0.len() == n,
        forall|i: int|
            0 <= i < n ==> (#[trigger] members(s, at, n, ntypes)->Ok_0.0[i]).type_idx < ntypes,
    decreases n,
{
    if n > 0 {
        lemma_members_ok(s, at, (n - 1) as nat, ntypes);
    }
}

/// A type descriptor that was read is consistent inside its table.
pub proof fn lemma_type_descr_ok(s: Seq<u8>, at: int, ntypes: u32)
    requires
        type_descr(s, at, ntypes) is Ok,
    ensures
        type_descr(s, at, ntypes)->Ok_0.0.valid(ntypes as nat),
{
    let kind = TypeKind::spec_from_code(le32(s, at + 8))->Some_0;
    let p = sdb_str(s, at + 16)->Ok_0.1;
    match kind {
        TypeKind::Array => {
            lemma_dims_ok(s, p + 8, le32(s, p + 4) as nat);
        },
        TypeKind::Data => {
            lemma_members_ok(s, p + 4, le32(s, p) as nat, ntypes);
        },
        _ => {},
    }
}

/// A row of type descriptors that was read has the length asked for, and
/// each of them is consistent inside the table.
pub proof fn lemma_type_descrs_ok(s: Seq<u8>, at: int, n: nat, ntypes: u32)
    requires
        type_descrs(s, at, n, ntypes) is Ok,
    ensures
        type_descrs(s, at, n, ntypes)->Ok_0.0.len() == n,
        forall|i: int|
            0 <= i < n ==> (#[trigger] type_descrs(s, at, n, ntypes)->Ok_0.0[i]).valid(
                ntypes as nat,
            ),
    decreases n,
{
    if n > 0 {
        lemma_type_descrs_ok(s, at, (n - 1) as nat, ntypes);
        let p = type_descrs(s, at, (n - 1) as nat, ntypes)->Ok_0.1;
        lemma_type_descr_ok(s, p, ntypes);
    }
}

/// A row of parameters that was read has the length asked for, and each of
/// them has a type in the table.
pub proof fn lemma_params_ok(s: Seq<u8>, at: int, n: nat, ntypes: u32)
    requires
        params(s, at, n, ntypes) is Ok,
    ensures
        params(s, at, n, ntypes)->Ok_0.0.len() == n,
        forall|i: int|
            0 <= i < n ==> (#[trigger] params(s, at, n, ntypes)->Ok_0.0[i]).type_idx < ntypes,
    decreases n,
{
    if n > 0 {
        lemma_params_ok(s, at, (n - 1) as nat, ntypes);
    }
}

/// Every catalog that the grammar accepts is consistent: no partly valid
/// catalog is ever handed out.
pub proof fn lemma_sdb_valid(s: Seq<u8>)
    requires
        sdb(s) is Ok,
    ensures
        sdb(s)->Ok_0.valid(),
{
    let ntypes = le32(s, 36);
    let p0 = header(s)->Ok_0;
    lemma_type_descrs_ok(s, p0, ntypes as nat, ntypes);
    let p1 = type_descrs(s, p0, ntypes as nat, ntypes)->Ok_0.1;
    let p2 = separator(s, p1)->Ok_0;
    lemma_params_ok(s, p2, le32(s, p1 + 12) as nat, ntypes);
}

} // verus!
