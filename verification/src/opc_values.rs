//! Values of parameters, and their form on the wire.

use vstd::prelude::*;
use vstd::slice::slice_subrange;
use crate::codepage::{decode_cp1252, encode_cp1252};
use crate::decimal::parse_i64;
use crate::sdb::{TypeInfo, TypeKind};
use crate::sdb_model::{dim_ok, PayloadView, TypeView};
use crate::value_format;
pub use crate::value_format::{DecodeError, EncodeError, ParseValueError};
use crate::wire::{push_all, push_be16, push_be32, push_zeros, read_be16, read_be32};

verus! {

/// A value of a parameter, as the instrument reports it.
#[derive(Debug)]
pub enum Value {
    /// The elements of a one-dimensional array.
    Array(Vec<Value>),
    /// The rows of a two-dimensional array.
    Matrix(Vec<Vec<Value>>),
    Bool(bool),
    Int(i64),
    /// A 32-bit IEEE-754 number, held as its bit pattern.
    Float(u32),
    String(String),
    /// The members of a structure with their names, in the order of
    /// declaration.
    Struct(Vec<(String, Value)>),
}

/// A value as a mathematical object.
pub enum ValueView {
    Array(Seq<ValueView>),
    Matrix(Seq<Seq<ValueView>>),
    Bool(bool),
    Int(i64),
    Float(u32),
    String(Seq<char>),
    Struct(Seq<(Seq<char>, ValueView)>),
}

impl View for Value {
    type V = ValueView;

    open spec fn view(&self) -> ValueView
        decreases self,
    {
        match self {
            Value::Array(v) => ValueView::Array(
                Seq::new(
                    v@.len(),
                    |i: int|
                        if 0 <= i < v@.len() {
                            v@[i]@
                        } else {
                            ValueView::Bool(false)
                        },
                ),
            ),
            Value::Matrix(m) => ValueView::Matrix(
                Seq::new(
                    m@.len(),
                    |i: int|
                        Seq::new(
                            m@[i]@.len(),
                            |j: int|
                                if 0 <= i < m@.len() && 0 <= j < m@[i]@.len() {
                                    m@[i]@[j]@
                                } else {
                                    ValueView::Bool(false)
                                },
                        ),
                ),
            ),
            Value::Bool(b) => ValueView::Bool(*b),
            Value::Int(i) => ValueView::Int(*i),
            Value::Float(f) => ValueView::Float(*f),
            Value::String(s) => ValueView::String(s@),
            Value::Struct(fields) => ValueView::Struct(
                Seq::new(
                    fields@.len(),
                    |i: int|
                        if 0 <= i < fields@.len() {
                            (fields@[i].0@, fields@[i].1@)
                        } else {
                            (Seq::empty(), ValueView::Bool(false))
                        },
                ),
            ),
        }
    }
}

/// The values `v` are, one by one, those that `w` describes.
pub open spec fn same_values(v: Seq<Value>, w: Seq<ValueView>) -> bool {
    &&& v.len() == w.len()
    &&& forall|i: int| 0 <= i < v.len() ==> (#[trigger] v[i])@ == w[i]
}

/// The rows `m` are, one by one, those that `w` describes.
pub open spec fn same_rows(m: Seq<Vec<Value>>, w: Seq<Seq<ValueView>>) -> bool {
    &&& m.len() == w.len()
    &&& forall|i: int| 0 <= i < m.len() ==> same_values((#[trigger] m[i])@, w[i])
}

/// The named values `f` are, one by one, those that `w` describes.
pub open spec fn same_fields(f: Seq<(String, Value)>, w: Seq<(Seq<char>, ValueView)>) -> bool {
    &&& f.len() == w.len()
    &&& forall|i: int|
        0 <= i < f.len() ==> (#[trigger] f[i]).0@ == w[i].0 && f[i].1@ == w[i].1
}

/// An array value is described by the descriptions of its elements.
pub proof fn lemma_array_view(v: Vec<Value>, w: Seq<ValueView>)
    requires
        same_values(v@, w),
    ensures
        Value::Array(v)@ == ValueView::Array(w),
{
    assert(Value::Array(v)@->Array_0 =~= w);
}

/// A matrix value is described by the descriptions of its rows.
pub proof fn lemma_matrix_view(m: Vec<Vec<Value>>, w: Seq<Seq<ValueView>>)
    requires
        same_rows(m@, w),
    ensures
        Value::Matrix(m)@ == ValueView::Matrix(w),
{
    let got = Value::Matrix(m)@->Matrix_0;
    assert(got.len() == w.len());
    assert forall|i: int| 0 <= i < got.len() implies got[i] == w[i] by {
        assert(same_values(m@[i]@, w[i]));
        assert(got[i] =~= w[i]);
    }
    assert(got =~= w);
}

/// A structure value is described by the names and descriptions of its
/// members.
pub proof fn lemma_struct_view(f: Vec<(String, Value)>, w: Seq<(Seq<char>, ValueView)>)
    requires
        same_fields(f@, w),
    ensures
        Value::Struct(f)@ == ValueView::Struct(w),
{
    assert(Value::Struct(f)@->Struct_0 =~= w);
}

/// A copy of each value of a row.
fn clone_row(v: &Vec<Value>) -> (out: Vec<Value>)
    ensures
        out@.len() == v@.len(),
        forall|j: int| 0 <= j < v@.len() ==> (#[trigger] out@[j])@ == v@[j]@,
    decreases v,
{
    let mut out: Vec<Value> = Vec::new();
    let mut i: usize = 0;
    while i < v.len()
        invariant
            i <= v@.len(),
            out@.len() == i,
            forall|j: int| 0 <= j < i ==> (#[trigger] out@[j])@ == v@[j]@,
        decreases v@.len() - i,
    {
        out.push(v[i].clone());
        i = i + 1;
    }
    out
}

/// A copy of each row of a matrix.
fn clone_rows(m: &Vec<Vec<Value>>) -> (out: Vec<Vec<Value>>)
    ensures
        out@.len() == m@.len(),
        forall|i: int|
            0 <= i < m@.len() ==> {
                &&& (#[trigger] out@[i])@.len() == m@[i]@.len()
                &&& forall|j: int| 0 <= j < m@[i]@.len() ==> (#[trigger] out@[i]@[j])@ == m@[i]@[j]@
            },
    decreases m,
{
    let mut out: Vec<Vec<Value>> = Vec::new();
    let mut i: usize = 0;
    while i < m.len()
        invariant
            i <= m@.len(),
            out@.len() == i,
            forall|k: int|
                0 <= k < i ==> {
                    &&& (#[trigger] out@[k])@.len() == m@[k]@.len()
                    &&& forall|j: int|
                        0 <= j < m@[k]@.len() ==> (#[trigger] out@[k]@[j])@ == m@[k]@[j]@
                },
        decreases m@.len() - i,
    {
        out.push(clone_row(&m[i]));
        i = i + 1;
    }
    out
}

/// A copy of each member of a structure.
fn clone_fields(f: &Vec<(String, Value)>) -> (out: Vec<(String, Value)>)
    ensures
        out@.len() == f@.len(),
        forall|j: int|
            0 <= j < f@.len() ==> (#[trigger] out@[j]).0@ == f@[j].0@ && out@[j].1@ == f@[j].1@,
    decreases f,
{
    let mut out: Vec<(String, Value)> = Vec::new();
    let mut i: usize = 0;
    while i < f.len()
        invariant
            i <= f@.len(),
            out@.len() == i,
            forall|j: int|
                0 <= j < i ==> (#[trigger] out@[j]).0@ == f@[j].0@ && out@[j].1@ == f@[j].1@,
        decreases f@.len() - i,
    {
        let name = f[i].0.clone();
        let value = f[i].1.clone();
        out.push((name, value));
        i = i + 1;
    }
    out
}

impl Clone for Value {
    fn clone(&self) -> (r: Self)
        ensures
            r@ == self@,
        decreases self,
    {
        match self {
            Value::Array(v) => {
                let out = clone_row(v);
                proof {
                    let w = Seq::new(v@.len(), |j: int| v@[j]@);
                    lemma_array_view(*v, w);
                    lemma_array_view(out, w);
                }
                Value::Array(out)
            },
            Value::Matrix(m) => {
                let out = clone_rows(m);
                proof {
                    let w = Seq::new(
                        m@.len(),
                        |i: int| Seq::new(m@[i]@.len(), |j: int| m@[i]@[j]@),
                    );
                    lemma_matrix_view(*m, w);
                    lemma_matrix_view(out, w);
                }
                Value::Matrix(out)
            },
            Value::Bool(b) => Value::Bool(*b),
            Value::Int(x) => Value::Int(*x),
            Value::Float(x) => Value::Float(*x),
            Value::String(s) => Value::String(s.clone()),
            Value::Struct(fields) => {
                let out = clone_fields(fields);
                proof {
                    let w = Seq::new(fields@.len(), |j: int| (fields@[j].0@, fields@[j].1@));
                    lemma_struct_view(*fields, w);
                    lemma_struct_view(out, w);
                }
                Value::Struct(out)
            },
        }
    }
}

/// An executable reader agrees with the wire format: it found the value
/// that the format describes and stands where the format stands, inside the
/// data, or it failed for the format's reason.
spec fn decoded(
    got: Result<(Value, usize), DecodeError>,
    want: Result<(ValueView, int), DecodeError>,
    len: nat,
) -> bool {
    match (got, want) {
        (Ok((x, p)), Ok((v, q))) => x@ == v && p == q && p <= len,
        (Err(e), Err(f)) => e == f,
        _ => false,
    }
}

fn parse_scalar(data: &[u8], at: usize, kind: TypeKind) -> (r: Result<(Value, usize), DecodeError>)
    requires
        at <= data@.len(),
    ensures
        decoded(r, value_format::scalar(kind, data@, at as int), data@.len()),
{
    let size: usize = match kind.scalar_size() {
        None => {
            return Err(DecodeError::RecursiveType);
        },
        Some(n) => n as usize,
    };
    let mut p: usize = at;
    if size > 1 && at % 2 == 1 {
        if at == data.len() {
            return Err(DecodeError::Truncated);
        }
        p = at + 1;
    }
    if size > data.len() - p {
        return Err(DecodeError::Truncated);
    }
    let v = match kind {
        TypeKind::Bool => Value::Bool(data[p] != 0),
        TypeKind::Byte => Value::Int(data[p] as i64),
        TypeKind::Int => {
            let x: u16 = match read_be16(data, p) {
                Some(x) => x,
                None => 0,
            };
            if x >= 32768 {
                Value::Int(x as i64 - 65536)
            } else {
                Value::Int(x as i64)
            }
        },
        TypeKind::Word | TypeKind::Uint => {
            let x: u16 = match read_be16(data, p) {
                Some(x) => x,
                None => 0,
            };
            Value::Int(x as i64)
        },
        TypeKind::Real => {
            let x: u32 = match read_be32(data, p) {
                Some(x) => x,
                None => 0,
            };
            Value::Float(x)
        },
        _ => {
            let x: u32 = match read_be32(data, p) {
                Some(x) => x,
                None => 0,
            };
            Value::Int(x as i64)
        },
    };
    Ok((v, p + size))
}

fn parse_string(data: &[u8], at: usize, size: usize) -> (r: Result<(Value, usize), DecodeError>)
    requires
        at <= data@.len(),
        size <= u32::MAX,
    ensures
        decoded(r, value_format::string(size as u32, data@, at as int), data@.len()),
{
    if size > data.len() - at {
        return Err(DecodeError::Truncated);
    }
    let end: usize = at + size;
    let ghost field = data@.subrange(at as int, end as int);
    let mut i: usize = at;
    while i < end && data[i] != 0
        invariant
            at <= i <= end <= data@.len(),
            field == data@.subrange(at as int, end as int),
            value_format::nul_pos(field, 0) == value_format::nul_pos(field, i - at),
        decreases end - i,
    {
        assert(field[i - at] == data@[i as int]);
        i = i + 1;
    }
    proof {
        if i < end {
            assert(field[i - at] == data@[i as int]);
        }
        assert(value_format::nul_pos(field, 0) == i - at);
        assert(value_format::until_nul(field) =~= data@.subrange(at as int, i as int));
    }
    let text = decode_cp1252(slice_subrange(data, at, i));
    Ok((Value::String(text), end))
}

impl Value {
    /// Reads the value of a parameter of type `param` from the bytes that
    /// the instrument returned for it.
    pub fn parse(data: &[u8], param: &TypeInfo) -> (r: Result<Value, DecodeError>)
        ensures
            match r {
                Ok(v) => value_format::parse(param.catalog().types, param.index(), data@) == Ok::<
                    ValueView,
                    DecodeError,
                >(v@),
                Err(e) => value_format::parse(param.catalog().types, param.index(), data@) == Err::<
                    ValueView,
                    DecodeError,
                >(e),
            },
    {
        let depth = param.table_len();
        match Self::parse_param(data, 0, param, depth) {
            Ok((v, _)) => Ok(v),
            Err(e) => Err(e),
        }
    }

    fn parse_param(data: &[u8], at: usize, param: &TypeInfo, depth: usize) -> (r: Result<
        (Value, usize),
        DecodeError,
    >)
        requires
            at <= data@.len(),
        ensures
            decoded(
                r,
                value_format::value(
                    param.catalog().types,
                    param.index(),
                    data@,
                    at as int,
                    depth as nat,
                ),
                data@.len(),
            ),
        decreases depth, 0nat,
    {
        // The handle vouches for its place in a consistent catalog.
        let _ = param.position();
        let ghost types = param.catalog().types;
        match param.array_info() {
            Some((elem, lens)) => {
                if depth == 0 {
                    return Err(DecodeError::RecursiveType);
                }
                proof {
                    let pv = param.record().payload;
                    assert(pv.valid(types.len()));
                    let dims = pv->Array_dims;
                    if dims.len() > 0 {
                        assert(dim_ok(dims[0]));
                    }
                    if dims.len() > 1 {
                        assert(dim_ok(dims[1]));
                    }
                }
                if lens[1] == 0 {
                    match Self::parse_row(data, at, &elem, lens[0], depth - 1) {
                        Err(e) => Err(e),
                        Ok((v, p)) => {
                            proof {
                                lemma_array_view(
                                    v,
                                    value_format::row(
                                        types,
                                        elem.index(),
                                        data@,
                                        at as int,
                                        lens@[0] as nat,
                                        (depth - 1) as nat,
                                    )->Ok_0.0,
                                );
                            }
                            Ok((Value::Array(v), p))
                        },
                    }
                } else {
                    match Self::parse_rows(data, at, &elem, lens[0], lens[1], depth - 1) {
                        Err(e) => Err(e),
                        Ok((m, p)) => {
                            proof {
                                lemma_matrix_view(
                                    m,
                                    value_format::rows(
                                        types,
                                        elem.index(),
                                        data@,
                                        at as int,
                                        lens@[0] as nat,
                                        lens@[1] as nat,
                                        (depth - 1) as nat,
                                    )->Ok_0.0,
                                );
                            }
                            Ok((Value::Matrix(m), p))
                        },
                    }
                }
            },
            None => match param.struct_info() {
                Some(infos) => {
                    if depth == 0 {
                        return Err(DecodeError::RecursiveType);
                    }
                    let ghost members = param.record().payload->Struct_0;
                    let ghost mut ws: Seq<(Seq<char>, ValueView)> = Seq::empty();
                    let mut v: Vec<(String, Value)> = Vec::new();
                    let mut pos: usize = at;
                    let mut i: usize = 0;
                    while i < infos.len()
                        invariant
                            i <= infos@.len(),
                            pos <= data@.len(),
                            depth > 0,
                            types == param.catalog().types,
                            param.record().payload == PayloadView::Struct(members),
                            infos@.len() == members.len(),
                            forall|j: int|
                                0 <= j < infos@.len() ==> {
                                    &&& (#[trigger] infos@[j]).name@ == members[j].name
                                    &&& infos@[j].type_info.catalog() == param.catalog()
                                    &&& infos@[j].type_info.index() == members[j].type_idx
                                },
                            same_fields(v@, ws),
                            value_format::fields(
                                types,
                                members,
                                data@,
                                at as int,
                                i as nat,
                                (depth - 1) as nat,
                            ) == Ok::<(Seq<(Seq<char>, ValueView)>, int), DecodeError>(
                                (ws, pos as int),
                            ),
                        decreases infos@.len() - i,
                    {
                        let info = &infos[i];
                        assert(infos@[i as int].type_info.index() == members[i as int].type_idx);
                        match Self::parse_param(data, pos, &info.type_info, depth - 1) {
                            Err(e) => {
                                proof {
                                    value_format::lemma_fields_fail(
                                        types,
                                        members,
                                        data@,
                                        at as int,
                                        (i + 1) as nat,
                                        members.len(),
                                        (depth - 1) as nat,
                                    );
                                }
                                return Err(e);
                            },
                            Ok((x, p)) => {
                                let name = info.name.to_owned();
                                proof {
                                    ws = ws.push((name@, x@));
                                }
                                v.push((name, x));
                                pos = p;
                                i = i + 1;
                            },
                        }
                    }
                    proof {
                        lemma_struct_view(v, ws);
                    }
                    Ok((Value::Struct(v), pos))
                },
                None => {
                    if param.kind() == TypeKind::String {
                        parse_string(data, at, param.response_len())
                    } else {
                        parse_scalar(data, at, param.kind())
                    }
                },
            },
        }
    }

    fn parse_row(data: &[u8], at: usize, elem: &TypeInfo, n: usize, depth: usize) -> (r: Result<
        (Vec<Value>, usize),
        DecodeError,
    >)
        requires
            at <= data@.len(),
        ensures
            match (
                r,
                value_format::row(
                    elem.catalog().types,
                    elem.index(),
                    data@,
                    at as int,
                    n as nat,
                    depth as nat,
                ),
            ) {
                (Ok((v, p)), Ok((w, q))) => same_values(v@, w) && p == q && p <= data@.len(),
                (Err(e), Err(f)) => e == f,
                _ => false,
            },
        decreases depth, 1nat,
    {
        let ghost types = elem.catalog().types;
        let ghost mut ws: Seq<ValueView> = Seq::empty();
        let mut v: Vec<Value> = Vec::new();
        let mut pos: usize = at;
        let mut i: usize = 0;
        while i < n
            invariant
                i <= n,
                pos <= data@.len(),
                types == elem.catalog().types,
                same_values(v@, ws),
                value_format::row(types, elem.index(), data@, at as int, i as nat, depth as nat)
                    == Ok::<(Seq<ValueView>, int), DecodeError>((ws, pos as int)),
            decreases n - i,
        {
            match Self::parse_param(data, pos, elem, depth) {
                Err(e) => {
                    proof {
                        value_format::lemma_row_fail(
                            types,
                            elem.index(),
                            data@,
                            at as int,
                            (i + 1) as nat,
                            n as nat,
                            depth as nat,
                        );
                    }
                    return Err(e);
                },
                Ok((x, p)) => {
                    proof {
                        ws = ws.push(x@);
                    }
                    v.push(x);
                    pos = p;
                    i = i + 1;
                },
            }
        }
        Ok((v, pos))
    }

    fn parse_rows(
        data: &[u8],
        at: usize,
        elem: &TypeInfo,
        n: usize,
        m: usize,
        depth: usize,
    ) -> (r: Result<(Vec<Vec<Value>>, usize), DecodeError>)
        requires
            at <= data@.len(),
        ensures
            match (
                r,
                value_format::rows(
                    elem.catalog().types,
                    elem.index(),
                    data@,
                    at as int,
                    n as nat,
                    m as nat,
                    depth as nat,
                ),
            ) {
                (Ok((v, p)), Ok((w, q))) => same_rows(v@, w) && p == q && p <= data@.len(),
                (Err(e), Err(f)) => e == f,
                _ => false,
            },
        decreases depth, 2nat,
    {
        let ghost types = elem.catalog().types;
        let ghost mut ws: Seq<Seq<ValueView>> = Seq::empty();
        let mut v: Vec<Vec<Value>> = Vec::new();
        let mut pos: usize = at;
        let mut i: usize = 0;
        while i < n
            invariant
                i <= n,
                pos <= data@.len(),
                types == elem.catalog().types,
                same_rows(v@, ws),
                value_format::rows(
                    types,
                    elem.index(),
                    data@,
                    at as int,
                    i as nat,
                    m as nat,
                    depth as nat,
                ) == Ok::<(Seq<Seq<ValueView>>, int), DecodeError>((ws, pos as int)),
            decreases n - i,
        {
            match Self::parse_row(data, pos, elem, m, depth) {
                Err(e) => {
                    proof {
                        value_format::lemma_rows_fail(
                            types,
                            elem.index(),
                            data@,
                            at as int,
                            (i + 1) as nat,
                            n as nat,
                            m as nat,
                            depth as nat,
                        );
                    }
                    return Err(e);
                },
                Ok((x, p)) => {
                    proof {
                        ws = ws.push(value_format::row(
                            types,
                            elem.index(),
                            data@,
                            pos as int,
                            m as nat,
                            depth as nat,
                        )->Ok_0.0);
                    }
                    v.push(x);
                    pos = p;
                    i = i + 1;
                },
            }
        }
        Ok((v, pos))
    }
}

/// What an encoder returned is what the wire format describes.
pub open spec fn encoded(got: Result<Vec<u8>, EncodeError>, want: Result<Seq<u8>, EncodeError>) -> bool {
    match (got, want) {
        (Ok(b), Ok(w)) => b@ == w,
        (Err(e), Err(f)) => e == f,
        _ => false,
    }
}

/// Something that can be written to a parameter.
pub trait EncodeOpcValue: Sized {
    /// The bytes that go on the wire for a parameter of type `ty`.
    spec fn encoding(self, ty: TypeView) -> Result<Seq<u8>, EncodeError>;

    /// Produces the bytes for a parameter of type `desc`, or says why the
    /// parameter cannot hold the value.
    fn opc_encode(self, desc: &TypeInfo) -> (r: Result<Vec<u8>, EncodeError>)
        ensures
            encoded(r, self.encoding(desc.record())),
    ;
}

/// Writes a whole number for a parameter of type `desc`, after checking
/// that the parameter is wide enough for it.
pub fn encode_whole(x: i128, desc: &TypeInfo) -> (r: Result<Vec<u8>, EncodeError>)
    ensures
        encoded(r, value_format::encode_int(desc.record().kind, x as int)),
{
    let mut out: Vec<u8> = Vec::new();
    match desc.kind() {
        TypeKind::Byte => {
            if x < 0 || x > 255 {
                return Err(EncodeError::OutOfRange);
            }
            out.push(x as u8);
            assert(out@ =~= seq![x as u8]);
        },
        TypeKind::Int => {
            if x < -32768 || x > 32767 {
                return Err(EncodeError::OutOfRange);
            }
            let bits: u16 = if x < 0 {
                (x + 65536) as u16
            } else {
                x as u16
            };
            push_be16(&mut out, bits);
        },
        TypeKind::Word | TypeKind::Uint => {
            if x < 0 || x > 65535 {
                return Err(EncodeError::OutOfRange);
            }
            push_be16(&mut out, x as u16);
        },
        TypeKind::Dword | TypeKind::Udint | TypeKind::Time => {
            if x < 0 || x > 4294967295 {
                return Err(EncodeError::OutOfRange);
            }
            push_be32(&mut out, x as u32);
        },
        _ => {
            return Err(EncodeError::UnsupportedKind);
        },
    }
    Ok(out)
}

/// Writes a text that is already in code page 1252 for a string parameter
/// of type `desc`, filled up with NUL bytes to the size of the parameter.
pub fn encode_bytes(bytes: &[u8], desc: &TypeInfo) -> (r: Result<Vec<u8>, EncodeError>)
    ensures
        encoded(r, value_format::encode_bytes(desc.record(), bytes@)),
{
    if desc.kind() != TypeKind::String {
        return Err(EncodeError::UnsupportedKind);
    }
    let size = desc.response_len();
    if bytes.len() > size {
        return Err(EncodeError::StringTooLong);
    }
    let mut out: Vec<u8> = Vec::new();
    push_all(&mut out, bytes);
    push_zeros(&mut out, size - bytes.len());
    Ok(out)
}

/// Writes a text for a string parameter of type `desc`, given what the
/// conversion of the text to code page 1252 has made of it: the bytes, or
/// nothing where the text has a character outside the code page.
pub fn encode_converted(converted: Option<Vec<u8>>, desc: &TypeInfo) -> (r: Result<
    Vec<u8>,
    EncodeError,
>)
    ensures
        encoded(
            r,
            value_format::encode_text(
                desc.record(),
                match converted {
                    Some(b) => Some(b@),
                    None => None,
                },
            ),
        ),
{
    match converted {
        None => Err(EncodeError::NotInCodePage),
        Some(bytes) => encode_bytes(bytes.as_slice(), desc),
    }
}

impl EncodeOpcValue for &Value {
    open spec fn encoding(self, ty: TypeView) -> Result<Seq<u8>, EncodeError> {
        value_format::encode(ty, self@)
    }

    fn opc_encode(self, desc: &TypeInfo) -> (r: Result<Vec<u8>, EncodeError>) {
        match self {
            Value::Bool(b) => {
                if desc.kind() == TypeKind::Bool {
                    let mut out: Vec<u8> = Vec::new();
                    out.push(
                        if *b {
                            1u8
                        } else {
                            0u8
                        },
                    );
                    assert(out@ =~= seq![if *b {
                        1u8
                    } else {
                        0u8
                    }]);
                    Ok(out)
                } else {
                    Err(EncodeError::UnsupportedKind)
                }
            },
            Value::Int(i) => encode_whole(*i as i128, desc),
            Value::String(s) => encode_converted(encode_cp1252(s.as_str()), desc),
            _ => Err(EncodeError::UnsupportedKind),
        }
    }
}

impl EncodeOpcValue for &[u8] {
    open spec fn encoding(self, ty: TypeView) -> Result<Seq<u8>, EncodeError> {
        value_format::encode_bytes(ty, self@)
    }

    fn opc_encode(self, desc: &TypeInfo) -> (r: Result<Vec<u8>, EncodeError>) {
        encode_bytes(self, desc)
    }
}

impl<const N: usize> EncodeOpcValue for &[u8; N] {
    open spec fn encoding(self, ty: TypeView) -> Result<Seq<u8>, EncodeError> {
        value_format::encode_bytes(ty, self@)
    }

    fn opc_encode(self, desc: &TypeInfo) -> (r: Result<Vec<u8>, EncodeError>) {
        encode_bytes(self.as_slice(), desc)
    }
}

impl EncodeOpcValue for u8 {
    open spec fn encoding(self, ty: TypeView) -> Result<Seq<u8>, EncodeError> {
        value_format::encode_int(ty.kind, self as int)
    }

    fn opc_encode(self, desc: &TypeInfo) -> (r: Result<Vec<u8>, EncodeError>) {
        encode_whole(self as i128, desc)
    }
}

impl EncodeOpcValue for i8 {
    open spec fn encoding(self, ty: TypeView) -> Result<Seq<u8>, EncodeError> {
        value_format::encode_int(ty.kind, self as int)
    }

    fn opc_encode(self, desc: &TypeInfo) -> (r: Result<Vec<u8>, EncodeError>) {
        encode_whole(self as i128, desc)
    }
}

impl EncodeOpcValue for u16 {
    open spec fn encoding(self, ty: TypeView) -> Result<Seq<u8>, EncodeError> {
        value_format::encode_int(ty.kind, self as int)
    }

    fn opc_encode(self, desc: &TypeInfo) -> (r: Result<Vec<u8>, EncodeError>) {
        encode_whole(self as i128, desc)
    }
}

impl EncodeOpcValue for i16 {
    open spec fn encoding(self, ty: TypeView) -> Result<Seq<u8>, EncodeError> {
        value_format::encode_int(ty.kind, self as int)
    }

    fn opc_encode(self, desc: &TypeInfo) -> (r: Result<Vec<u8>, EncodeError>) {
        encode_whole(self as i128, desc)
    }
}

impl EncodeOpcValue for u32 {
    open spec fn encoding(self, ty: TypeView) -> Result<Seq<u8>, EncodeError> {
        value_format::encode_int(ty.kind, self as int)
    }

    fn opc_encode(self, desc: &TypeInfo) -> (r: Result<Vec<u8>, EncodeError>) {
        encode_whole(self as i128, desc)
    }
}

impl EncodeOpcValue for i32 {
    open spec fn encoding(self, ty: TypeView) -> Result<Seq<u8>, EncodeError> {
        value_format::encode_int(ty.kind, self as int)
    }

    fn opc_encode(self, desc: &TypeInfo) -> (r: Result<Vec<u8>, EncodeError>) {
        encode_whole(self as i128, desc)
    }
}

impl EncodeOpcValue for u64 {
    open spec fn encoding(self, ty: TypeView) -> Result<Seq<u8>, EncodeError> {
        value_format::encode_int(ty.kind, self as int)
    }

    fn opc_encode(self, desc: &TypeInfo) -> (r: Result<Vec<u8>, EncodeError>) {
        encode_whole(self as i128, desc)
    }
}

impl EncodeOpcValue for i64 {
    open spec fn encoding(self, ty: TypeView) -> Result<Seq<u8>, EncodeError> {
        value_format::encode_int(ty.kind, self as int)
    }

    fn opc_encode(self, desc: &TypeInfo) -> (r: Result<Vec<u8>, EncodeError>) {
        encode_whole(self as i128, desc)
    }
}

impl EncodeOpcValue for usize {
    open spec fn encoding(self, ty: TypeView) -> Result<Seq<u8>, EncodeError> {
        value_format::encode_int(ty.kind, self as int)
    }

    fn opc_encode(self, desc: &TypeInfo) -> (r: Result<Vec<u8>, EncodeError>) {
        encode_whole(self as i128, desc)
    }
}

impl EncodeOpcValue for isize {
    open spec fn encoding(self, ty: TypeView) -> Result<Seq<u8>, EncodeError> {
        value_format::encode_int(ty.kind, self as int)
    }

    fn opc_encode(self, desc: &TypeInfo) -> (r: Result<Vec<u8>, EncodeError>) {
        encode_whole(self as i128, desc)
    }
}

impl Value {
    /// Reads a value for a parameter of type `desc` from a text, as a user
    /// would type it, and checks that the parameter can hold it.
    pub fn from_str(val: &str, desc: &TypeInfo) -> (r: Result<Value, ParseValueError>)
        ensures
            match r {
                Ok(v) => value_format::from_text(desc.record(), val@) == Ok::<
                    ValueView,
                    ParseValueError,
                >(v@),
                Err(e) => value_format::from_text(desc.record(), val@) == Err::<
                    ValueView,
                    ParseValueError,
                >(e),
            },
    {
        let bytes = val.as_bytes();
        let v = match desc.kind() {
            TypeKind::Bool => {
                if bytes.len() == 4 && bytes[0] == 116 && bytes[1] == 114 && bytes[2] == 117
                    && bytes[3] == 101 {
                    assert(bytes@ =~= value_format::word_true());
                    Value::Bool(true)
                } else if bytes.len() == 5 && bytes[0] == 102 && bytes[1] == 97 && bytes[2] == 108
                    && bytes[3] == 115 && bytes[4] == 101 {
                    assert(bytes@ =~= value_format::word_false());
                    Value::Bool(false)
                } else {
                    return Err(ParseValueError::BadBool);
                }
            },
            TypeKind::String => Value::String(val.to_owned()),
            TypeKind::Int | TypeKind::Byte | TypeKind::Word | TypeKind::Dword | TypeKind::Uint
            | TypeKind::Udint | TypeKind::Time => match parse_i64(bytes) {
                Some(x) => Value::Int(x),
                None => {
                    return Err(ParseValueError::BadNumber);
                },
            },
            _ => {
                return Err(ParseValueError::Encode(EncodeError::UnsupportedKind));
            },
        };
        // Check that the value can be encoded into the type
        match (&v).opc_encode(desc) {
            Err(e) => Err(ParseValueError::Encode(e)),
            Ok(_) => Ok(v),
        }
    }
}

} // verus!
