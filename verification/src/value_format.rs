//! How values lie on the wire.
//!
//! A value is read from the bytes that the instrument returned for one
//! parameter, under the guidance of the parameter's type. Scalars of more
//! than one byte start at an even offset of those bytes: where the reader
//! stands at an odd offset, one byte of padding is skipped first. Arrays and
//! structures have no alignment of their own. All integers are big-endian.

use vstd::prelude::*;
use crate::codepage::{cp1252_bytes, cp1252_text};
use crate::decimal::decimal_i64;
use crate::opc_values::ValueView;
use crate::sdb_model::{dim_len, MemberView, PayloadView, TypeKind, TypeView};
use crate::wire::{
    be16, be16_bytes, be32, be32_bytes, lemma_be16_round_trip, lemma_be32_round_trip, signed16,
    unsigned16, zeros,
};

verus! {

/// Why bytes could not be read as a value.
#[derive(Copy, Clone, Debug, PartialEq, Eq, Structural)]
pub enum DecodeError {
    /// The bytes end before the value does.
    Truncated,
    /// The byte in front of a value in a response is not the marker `0x01`.
    BadMarker,
    /// The type contains itself, directly or through other types, so that
    /// no finite number of bytes is a value of it.
    RecursiveType,
}

/// Why a value could not be written for a parameter.
#[derive(Copy, Clone, Debug, PartialEq, Eq, Structural)]
pub enum EncodeError {
    /// The number does not fit the width of the parameter.
    OutOfRange,
    /// The text takes more bytes than the parameter has.
    StringTooLong,
    /// Values of this form cannot be written to a parameter of this kind.
    UnsupportedKind,
    /// The text holds a character that code page 1252 does not have.
    NotInCodePage,
}

/// Where a scalar of `size` bytes starts when the reader stands at `at`.
pub open spec fn aligned(at: int, size: int) -> int {
    if size > 1 && at % 2 == 1 {
        at + 1
    } else {
        at
    }
}

/// The place of the first NUL byte at or after `from`, or the length of the
/// bytes if there is none.
pub open spec fn nul_pos(s: Seq<u8>, from: int) -> int
    decreases s.len() - from,
{
    if from < 0 || from >= s.len() {
        s.len() as int
    } else if s[from] == 0 {
        from
    } else {
        nul_pos(s, from + 1)
    }
}

/// The bytes in front of the first NUL byte.
pub open spec fn until_nul(s: Seq<u8>) -> Seq<u8> {
    s.subrange(0, nul_pos(s, 0))
}

/// A scalar of kind `kind` at `at`. Kinds that are no scalars have no value
/// here.
pub open spec fn scalar(kind: TypeKind, data: Seq<u8>, at: int) -> Result<
    (ValueView, int),
    DecodeError,
> {
    match kind.spec_scalar_size() {
        None => Err(DecodeError::RecursiveType),
        Some(size) => {
            let p = aligned(at, size as int);
            if p + size > data.len() {
                Err(DecodeError::Truncated)
            } else {
                Ok(
                    (
                        match kind {
                            TypeKind::Bool => ValueView::Bool(data[p] != 0),
                            TypeKind::Byte => ValueView::Int(data[p] as i64),
                            TypeKind::Int => ValueView::Int(signed16(be16(data, p)) as i64),
                            TypeKind::Word | TypeKind::Uint => ValueView::Int(be16(data, p) as i64),
                            TypeKind::Real => ValueView::Float(be32(data, p)),
                            _ => ValueView::Int(be32(data, p) as i64),
                        },
                        p + size,
                    ),
                )
            }
        },
    }
}

/// A string that takes `size` bytes at `at`: the text in front of the first
/// NUL byte, read in code page 1252. What follows that byte is padding.
pub open spec fn string(size: u32, data: Seq<u8>, at: int) -> Result<(ValueView, int), DecodeError> {
    if at + size > data.len() {
        Err(DecodeError::Truncated)
    } else {
        Ok((ValueView::String(cp1252_text(until_nul(data.subrange(at, at + size)))), at + size))
    }
}

/// A value of the type at place `t` of the table `types`, read at `at`.
/// `depth` is the number of arrays and structures that may still be entered
/// on the way down; a table of `n` types that is free of cycles never needs
/// more than `n`.
pub open spec fn value(types: Seq<TypeView>, t: int, data: Seq<u8>, at: int, depth: nat) -> Result<
    (ValueView, int),
    DecodeError,
>
    decreases depth, 0nat, 0nat,
{
    match types[t].payload {
        PayloadView::Array { type_idx, dims } => if depth == 0 {
            Err(DecodeError::RecursiveType)
        } else if dims.len() < 2 {
            let n = if dims.len() == 0 {
                0nat
            } else {
                dim_len(dims[0]) as nat
            };
            match row(types, type_idx as int, data, at, n, (depth - 1) as nat) {
                Err(e) => Err(e),
                Ok((vs, p)) => Ok((ValueView::Array(vs), p)),
            }
        } else {
            match rows(
                types,
                type_idx as int,
                data,
                at,
                dim_len(dims[0]) as nat,
                dim_len(dims[1]) as nat,
                (depth - 1) as nat,
            ) {
                Err(e) => Err(e),
                Ok((vs, p)) => Ok((ValueView::Matrix(vs), p)),
            }
        },
        PayloadView::Struct(members) => if depth == 0 {
            Err(DecodeError::RecursiveType)
        } else {
            match fields(types, members, data, at, members.len(), (depth - 1) as nat) {
                Err(e) => Err(e),
                Ok((fs, p)) => Ok((ValueView::Struct(fs), p)),
            }
        },
        _ => if types[t].kind == TypeKind::String {
            string(types[t].type_size, data, at)
        } else {
            scalar(types[t].kind, data, at)
        },
    }
}

/// `n` values of the type at place `t`, one behind the other.
pub open spec fn row(
    types: Seq<TypeView>,
    t: int,
    data: Seq<u8>,
    at: int,
    n: nat,
    depth: nat,
) -> Result<(Seq<ValueView>, int), DecodeError>
    decreases depth, 1nat, n,
{
    if n == 0 {
        Ok((Seq::empty(), at))
    } else {
        match row(types, t, data, at, (n - 1) as nat, depth) {
            Err(e) => Err(e),
            Ok((vs, p)) => match value(types, t, data, p, depth) {
                Err(e) => Err(e),
                Ok((v, q)) => Ok((vs.push(v), q)),
            },
        }
    }
}

/// `n` rows of `m` values each: the outer dimension comes first on the
/// wire.
pub open spec fn rows(
    types: Seq<TypeView>,
    t: int,
    data: Seq<u8>,
    at: int,
    n: nat,
    m: nat,
    depth: nat,
) -> Result<(Seq<Seq<ValueView>>, int), DecodeError>
    decreases depth, 2nat, n,
{
    if n == 0 {
        Ok((Seq::empty(), at))
    } else {
        match rows(types, t, data, at, (n - 1) as nat, m, depth) {
            Err(e) => Err(e),
            Ok((rs, p)) => match row(types, t, data, p, m, depth) {
                Err(e) => Err(e),
                Ok((r, q)) => Ok((rs.push(r), q)),
            },
        }
    }
}

/// The first `n` members of a structure, each with its name, in the order of
/// declaration.
pub open spec fn fields(
    types: Seq<TypeView>,
    members: Seq<MemberView>,
    data: Seq<u8>,
    at: int,
    n: nat,
    depth: nat,
) -> Result<(Seq<(Seq<char>, ValueView)>, int), DecodeError>
    decreases depth, 1nat, n,
{
    if n == 0 {
        Ok((Seq::empty(), at))
    } else {
        match fields(types, members, data, at, (n - 1) as nat, depth) {
            Err(e) => Err(e),
            Ok((fs, p)) => match value(
                types,
                members[n - 1].type_idx as int,
                data,
                p,
                depth,
            ) {
                Err(e) => Err(e),
                Ok((v, q)) => Ok((fs.push((members[n - 1].name, v)), q)),
            },
        }
    }
}

/// The value that the bytes returned for a parameter of the type at place
/// `t` stand for.
pub open spec fn parse(types: Seq<TypeView>, t: int, data: Seq<u8>) -> Result<
    ValueView,
    DecodeError,
> {
    match value(types, t, data, 0, types.len()) {
        Err(e) => Err(e),
        Ok((v, _)) => Ok(v),
    }
}

/// The bytes of a whole number for a parameter of kind `kind`: the number
/// big-endian in the width of the kind, provided it fits that width. A time
/// is written as its milliseconds.
pub open spec fn encode_int(kind: TypeKind, x: int) -> Result<Seq<u8>, EncodeError> {
    match kind {
        TypeKind::Byte => if 0 <= x <= u8::MAX {
            Ok(seq![x as u8])
        } else {
            Err(EncodeError::OutOfRange)
        },
        TypeKind::Int => if i16::MIN <= x <= i16::MAX {
            Ok(be16_bytes(unsigned16(x as i16)))
        } else {
            Err(EncodeError::OutOfRange)
        },
        TypeKind::Word | TypeKind::Uint => if 0 <= x <= u16::MAX {
            Ok(be16_bytes(x as u16))
        } else {
            Err(EncodeError::OutOfRange)
        },
        TypeKind::Dword | TypeKind::Udint | TypeKind::Time => if 0 <= x <= u32::MAX {
            Ok(be32_bytes(x as u32))
        } else {
            Err(EncodeError::OutOfRange)
        },
        _ => Err(EncodeError::UnsupportedKind),
    }
}

/// The bytes of a text that is already in code page 1252, for a parameter
/// of type `ty`: the text, filled up with NUL bytes to the size of the type.
pub open spec fn encode_bytes(ty: TypeView, bytes: Seq<u8>) -> Result<Seq<u8>, EncodeError> {
    if ty.kind != TypeKind::String {
        Err(EncodeError::UnsupportedKind)
    } else if bytes.len() > ty.type_size {
        Err(EncodeError::StringTooLong)
    } else {
        Ok(bytes + zeros((ty.type_size - bytes.len()) as nat))
    }
}

/// The bytes of a text for a parameter of type `ty`, given what the
/// conversion to code page 1252 made of the text.
pub open spec fn encode_text(ty: TypeView, converted: Option<Seq<u8>>) -> Result<
    Seq<u8>,
    EncodeError,
> {
    match converted {
        None => Err(EncodeError::NotInCodePage),
        Some(bytes) => encode_bytes(ty, bytes),
    }
}

/// The bytes of a value for a parameter of type `ty`. Only truth values,
/// whole numbers and texts can be written.
pub open spec fn encode(ty: TypeView, v: ValueView) -> Result<Seq<u8>, EncodeError> {
    match v {
        ValueView::Bool(b) => if ty.kind == TypeKind::Bool {
            Ok(
                seq![if b {
                    1u8
                } else {
                    0u8
                }],
            )
        } else {
            Err(EncodeError::UnsupportedKind)
        },
        ValueView::Int(i) => encode_int(ty.kind, i as int),
        ValueView::String(s) => encode_text(ty, cp1252_bytes(s)),
        _ => Err(EncodeError::UnsupportedKind),
    }
}

/// Once reading a row of values has failed, asking for more of them fails
/// in the same way.
pub proof fn lemma_row_fail(
    types: Seq<TypeView>,
    t: int,
    data: Seq<u8>,
    at: int,
    i: nat,
    n: nat,
    depth: nat,
)
    requires
        i <= n,
        row(types, t, data, at, i, depth) is Err,
    ensures
        row(types, t, data, at, n, depth) == row(types, t, data, at, i, depth),
    decreases n,
{
    if i < n {
        lemma_row_fail(types, t, data, at, i, (n - 1) as nat, depth);
    }
}

/// Once reading the rows of a matrix has failed, asking for more of them
/// fails in the same way.
pub proof fn lemma_rows_fail(
    types: Seq<TypeView>,
    t: int,
    data: Seq<u8>,
    at: int,
    i: nat,
    n: nat,
    m: nat,
    depth: nat,
)
    requires
        i <= n,
        rows(types, t, data, at, i, m, depth) is Err,
    ensures
        rows(types, t, data, at, n, m, depth) == rows(types, t, data, at, i, m, depth),
    decreases n,
{
    if i < n {
        lemma_rows_fail(types, t, data, at, i, (n - 1) as nat, m, depth);
    }
}

/// Once reading the members of a structure has failed, asking for more of
/// them fails in the same way.
pub proof fn lemma_fields_fail(
    types: Seq<TypeView>,
    members: Seq<MemberView>,
    data: Seq<u8>,
    at: int,
    i: nat,
    n: nat,
    depth: nat,
)
    requires
        i <= n,
        fields(types, members, data, at, i, depth) is Err,
    ensures
        fields(types, members, data, at, n, depth) == fields(types, members, data, at, i, depth),
    decreases n,
{
    if i < n {
        lemma_fields_fail(types, members, data, at, i, (n - 1) as nat, depth);
    }
}

/// Where the first NUL byte stands: at or after the start, with no NUL byte
/// in between.
pub proof fn lemma_nul_pos(s: Seq<u8>, from: int)
    requires
        0 <= from <= s.len(),
    ensures
        from <= nul_pos(s, from) <= s.len(),
        nul_pos(s, from) < s.len() ==> s[nul_pos(s, from)] == 0,
        forall|j: int| from <= j < nul_pos(s, from) ==> #[trigger] s[j] != 0,
    decreases s.len() - from,
{
    if from < s.len() && s[from] != 0 {
        lemma_nul_pos(s, from + 1);
    }
}

/// Why a text is no value for a parameter.
#[derive(Copy, Clone, Debug, PartialEq, Eq, Structural)]
pub enum ParseValueError {
    /// The parameter is a truth value and the text is neither `true` nor
    /// `false`.
    BadBool,
    /// The parameter is a whole number and the text is no number in base
    /// ten, or one too large for any parameter.
    BadNumber,
    /// The text was understood, but what it says cannot be written to the
    /// parameter.
    Encode(EncodeError),
}

/// The bytes of the word `true`.
pub open spec fn word_true() -> Seq<u8> {
    seq![116u8, 114u8, 117u8, 101u8]
}

/// The bytes of the word `false`.
pub open spec fn word_false() -> Seq<u8> {
    seq![102u8, 97u8, 108u8, 115u8, 101u8]
}

/// What a text says when it is read for a parameter of kind `kind`, before
/// it is known whether the parameter can hold it. Texts are understood for
/// truth values, whole numbers, times in milliseconds and strings only.
pub open spec fn read_text(kind: TypeKind, text: Seq<char>) -> Result<ValueView, ParseValueError> {
    let bytes = vstd::utf8::encode_utf8(text);
    match kind {
        TypeKind::Bool => if bytes == word_true() {
            Ok(ValueView::Bool(true))
        } else if bytes == word_false() {
            Ok(ValueView::Bool(false))
        } else {
            Err(ParseValueError::BadBool)
        },
        TypeKind::String => Ok(ValueView::String(text)),
        TypeKind::Int | TypeKind::Byte | TypeKind::Word | TypeKind::Dword | TypeKind::Uint
        | TypeKind::Udint | TypeKind::Time => match decimal_i64(bytes) {
            Some(x) => Ok(ValueView::Int(x)),
            None => Err(ParseValueError::BadNumber),
        },
        _ => Err(ParseValueError::Encode(EncodeError::UnsupportedKind)),
    }
}

/// The value that a text stands for when it is given for a parameter of
/// type `ty`: what the text says, provided it can be written to the
/// parameter.
pub open spec fn from_text(ty: TypeView, text: Seq<char>) -> Result<ValueView, ParseValueError> {
    match read_text(ty.kind, text) {
        Err(e) => Err(e),
        Ok(v) => match encode(ty, v) {
            Err(e) => Err(ParseValueError::Encode(e)),
            Ok(_) => Ok(v),
        },
    }
}

/// `s` without any of its trailing NUL bytes.
pub open spec fn without_trailing_nuls(s: Seq<u8>) -> Seq<u8>
    decreases s.len(),
{
    if s.len() > 0 && s.last() == 0 {
        without_trailing_nuls(s.drop_last())
    } else {
        s
    }
}

/// Padding with NUL bytes does not move the first NUL byte: it stands where
/// it stood, or where the padding begins.
pub proof fn lemma_nul_pos_padded(s: Seq<u8>, k: nat, from: int)
    requires
        0 <= from <= s.len(),
    ensures
        nul_pos(s + zeros(k), from) == if nul_pos(s, from) < s.len() || k == 0 {
            nul_pos(s, from)
        } else {
            s.len() as int
        },
    decreases s.len() - from,
{
    let padded = s + zeros(k);
    if from < s.len() {
        assert(padded[from] == s[from]);
        if s[from] != 0 {
            lemma_nul_pos_padded(s, k, from + 1);
        }
    } else if k > 0 {
        assert(padded[from] == 0);
    }
}

/// Every value that can be written at all is written in exactly as many
/// bytes as its type takes on the wire.
pub proof fn law_encoded_len(ty: TypeView, ntypes: nat, v: ValueView)
    requires
        ty.valid(ntypes),
        encode(ty, v) is Ok,
    ensures
        encode(ty, v)->Ok_0.len() == ty.type_size,
{
}

/// A scalar or a string that is read from the start of its bytes takes
/// exactly as many bytes as its type takes on the wire.
pub proof fn law_leaf_takes_wire_size(types: Seq<TypeView>, t: int, data: Seq<u8>, depth: nat)
    requires
        0 <= t < types.len(),
        types[t].valid(types.len()),
        !(types[t].payload is Array),
        !(types[t].payload is Struct),
        value(types, t, data, 0, depth) is Ok,
    ensures
        value(types, t, data, 0, depth)->Ok_0.1 == types[t].type_size,
{
}

/// A truth value or a whole number that was written for a scalar parameter
/// is read back unchanged from the bytes that were written.
pub proof fn law_scalar_round_trip(types: Seq<TypeView>, t: int, v: ValueView)
    requires
        0 <= t < types.len(),
        types[t].valid(types.len()),
        types[t].kind.spec_scalar_size() is Some,
        encode(types[t], v) is Ok,
    ensures
        parse(types, t, encode(types[t], v)->Ok_0) == Ok::<ValueView, DecodeError>(v),
{
    let ty = types[t];
    let bytes = encode(ty, v)->Ok_0;
    match v {
        ValueView::Int(x) => {
            match ty.kind {
                TypeKind::Int => {
                    assert(bytes.subrange(0, 2) =~= bytes);
                    lemma_be16_round_trip(bytes, 0, unsigned16(x as i16));
                },
                TypeKind::Word | TypeKind::Uint => {
                    assert(bytes.subrange(0, 2) =~= bytes);
                    lemma_be16_round_trip(bytes, 0, x as u16);
                },
                TypeKind::Dword | TypeKind::Udint | TypeKind::Time => {
                    assert(bytes.subrange(0, 4) =~= bytes);
                    lemma_be32_round_trip(bytes, 0, x as u32);
                },
                _ => {},
            }
        },
        _ => {},
    }
}

/// A text of code page 1252 that was written for a string parameter is read
/// back as far as its first NUL byte.
pub proof fn law_string_round_trip(types: Seq<TypeView>, t: int, text: Seq<u8>)
    requires
        0 <= t < types.len(),
        types[t].valid(types.len()),
        types[t].kind == TypeKind::String,
        text.len() <= types[t].type_size,
    ensures
        parse(types, t, encode_bytes(types[t], text)->Ok_0) == Ok::<ValueView, DecodeError>(
            ValueView::String(cp1252_text(until_nul(text))),
        ),
{
    let ty = types[t];
    let pad = (ty.type_size - text.len()) as nat;
    let bytes = text + zeros(pad);
    assert(bytes.subrange(0, ty.type_size as int) =~= bytes);
    lemma_nul_pos_padded(text, pad, 0);
    lemma_nul_pos(text, 0);
    assert(until_nul(bytes) =~= until_nul(text));
}

/// Where a text has NUL bytes at its end only, reading it as far as its
/// first NUL byte gives the text without its trailing NUL bytes.
pub proof fn law_until_nul_strips(s: Seq<u8>)
    requires
        forall|i: int, j: int| 0 <= i < j < s.len() && s[i] == 0 ==> s[j] == 0,
    ensures
        until_nul(s) == without_trailing_nuls(s),
    decreases s.len(),
{
    lemma_nul_pos(s, 0);
    if s.len() > 0 && s.last() == 0 {
        let head = s.drop_last();
        assert(s =~= head + zeros(1));
        lemma_nul_pos_padded(head, 1, 0);
        lemma_nul_pos(head, 0);
        assert(until_nul(s) =~= until_nul(head));
        assert forall|i: int, j: int| 0 <= i < j < head.len() && head[i] == 0 implies head[j]
            == 0 by {
            assert(head[i] == s[i] && head[j] == s[j]);
        }
        law_until_nul_strips(head);
    } else if s.len() > 0 {
        if nul_pos(s, 0) < s.len() {
            assert(s[nul_pos(s, 0)] == 0);
            assert(s[s.len() - 1] == 0);
        }
        assert(until_nul(s) =~= s);
    } else {
        assert(until_nul(s) =~= s);
    }
}

} // verus!
