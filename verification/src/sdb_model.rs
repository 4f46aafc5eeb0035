//! The symbol database as a mathematical value: what a loaded catalog holds,
//! and what makes it consistent.

use vstd::prelude::*;

verus! {

/// The various parameter data types.
#[derive(Copy, Clone, Debug, PartialEq, Eq, Structural)]
pub enum TypeKind {
    Bool,
    /// Signed 2-byte int
    Int,
    Byte,
    /// Unsigned 2-byte int
    Word,
    /// Unsigned 4-byte int
    Dword,
    /// 32 bit float
    Real,
    /// Milliseconds, unsigned 4-byte int
    Time,
    String,
    /// Array data, see `TypeInfo::array_info`
    Array,
    /// Structured data, see `TypeInfo::struct_info`
    Data,
    /// Unsigned 2-byte int
    Uint,
    /// Unsigned 4-byte int
    Udint,
    Pointer,
}

impl TypeKind {
    /// The kind that a tag of the database stands for.
    pub open spec fn spec_from_code(code: u32) -> Option<TypeKind> {
        if code == 0 {
            Some(TypeKind::Bool)
        } else if code == 1 {
            Some(TypeKind::Int)
        } else if code == 2 {
            Some(TypeKind::Byte)
        } else if code == 3 {
            Some(TypeKind::Word)
        } else if code == 5 {
            Some(TypeKind::Dword)
        } else if code == 6 {
            Some(TypeKind::Real)
        } else if code == 7 {
            Some(TypeKind::Time)
        } else if code == 8 {
            Some(TypeKind::String)
        } else if code == 9 {
            Some(TypeKind::Array)
        } else if code == 11 {
            Some(TypeKind::Data)
        } else if code == 0x10 {
            Some(TypeKind::Uint)
        } else if code == 0x11 {
            Some(TypeKind::Udint)
        } else if code == 0x17 {
            Some(TypeKind::Pointer)
        } else {
            None
        }
    }

    /// The tag that stands for this kind in the database.
    pub open spec fn spec_code(self) -> u32 {
        match self {
            TypeKind::Bool => 0,
            TypeKind::Int => 1,
            TypeKind::Byte => 2,
            TypeKind::Word => 3,
            TypeKind::Dword => 5,
            TypeKind::Real => 6,
            TypeKind::Time => 7,
            TypeKind::String => 8,
            TypeKind::Array => 9,
            TypeKind::Data => 11,
            TypeKind::Uint => 0x10,
            TypeKind::Udint => 0x11,
            TypeKind::Pointer => 0x17,
        }
    }

    /// The number of bytes that a value of a scalar kind takes on the wire.
    /// Strings, arrays and structures have no size of their own: theirs is
    /// given by each type descriptor.
    pub open spec fn spec_scalar_size(self) -> Option<u32> {
        match self {
            TypeKind::Bool | TypeKind::Byte => Some(1u32),
            TypeKind::Int | TypeKind::Word | TypeKind::Uint => Some(2u32),
            TypeKind::Dword | TypeKind::Udint | TypeKind::Pointer | TypeKind::Time
            | TypeKind::Real => Some(4u32),
            TypeKind::String | TypeKind::Array | TypeKind::Data => None,
        }
    }

    #[verifier::when_used_as_spec(spec_from_code)]
    pub fn from_code(code: u32) -> (r: Option<TypeKind>)
        ensures
            r == Self::spec_from_code(code),
    {
        if code == 0 {
            Some(TypeKind::Bool)
        } else if code == 1 {
            Some(TypeKind::Int)
        } else if code == 2 {
            Some(TypeKind::Byte)
        } else if code == 3 {
            Some(TypeKind::Word)
        } else if code == 5 {
            Some(TypeKind::Dword)
        } else if code == 6 {
            Some(TypeKind::Real)
        } else if code == 7 {
            Some(TypeKind::Time)
        } else if code == 8 {
            Some(TypeKind::String)
        } else if code == 9 {
            Some(TypeKind::Array)
        } else if code == 11 {
            Some(TypeKind::Data)
        } else if code == 0x10 {
            Some(TypeKind::Uint)
        } else if code == 0x11 {
            Some(TypeKind::Udint)
        } else if code == 0x17 {
            Some(TypeKind::Pointer)
        } else {
            None
        }
    }

    #[verifier::when_used_as_spec(spec_code)]
    pub fn code(self) -> (r: u32)
        ensures
            r == self.spec_code(),
    {
        match self {
            TypeKind::Bool => 0,
            TypeKind::Int => 1,
            TypeKind::Byte => 2,
            TypeKind::Word => 3,
            TypeKind::Dword => 5,
            TypeKind::Real => 6,
            TypeKind::Time => 7,
            TypeKind::String => 8,
            TypeKind::Array => 9,
            TypeKind::Data => 11,
            TypeKind::Uint => 0x10,
            TypeKind::Udint => 0x11,
            TypeKind::Pointer => 0x17,
        }
    }

    #[verifier::when_used_as_spec(spec_scalar_size)]
    pub fn scalar_size(self) -> (r: Option<u32>)
        ensures
            r == self.spec_scalar_size(),
    {
        match self {
            TypeKind::Bool | TypeKind::Byte => Some(1u32),
            TypeKind::Int | TypeKind::Word | TypeKind::Uint => Some(2u32),
            TypeKind::Dword | TypeKind::Udint | TypeKind::Pointer | TypeKind::Time
            | TypeKind::Real => Some(4u32),
            TypeKind::String | TypeKind::Array | TypeKind::Data => None,
        }
    }

    /// Reading a kind's tag back gives the kind.
    pub proof fn law_code_round_trip(self)
        ensures
            Self::spec_from_code(self.spec_code()) == Some(self),
    {
    }
}

/// Whether the instrument lets a parameter be read, written, or both.
#[derive(Copy, Clone, Debug, PartialEq, Eq, Structural)]
pub enum AccessMode {
    Read,
    /// Seen in captured data as `0xFF`; its meaning is not known. Treat such
    /// parameters as read-only.
    Write,
    ReadWrite,
}

impl AccessMode {
    /// The access mode that a 16-bit tag of the database stands for.
    pub open spec fn spec_from_code(code: u16) -> Option<AccessMode> {
        if code == 0x72 {
            Some(AccessMode::Read)
        } else if code == 0xFF {
            Some(AccessMode::Write)
        } else if code == 0x62 {
            Some(AccessMode::ReadWrite)
        } else {
            None
        }
    }

    #[verifier::when_used_as_spec(spec_from_code)]
    pub fn from_code(code: u16) -> (r: Option<AccessMode>)
        ensures
            r == Self::spec_from_code(code),
    {
        if code == 0x72 {
            Some(AccessMode::Read)
        } else if code == 0xFF {
            Some(AccessMode::Write)
        } else if code == 0x62 {
            Some(AccessMode::ReadWrite)
        } else {
            None
        }
    }
}

/// Why a byte string is not a symbol database.
#[derive(Copy, Clone, Debug, PartialEq, Eq, Structural)]
pub enum SdbError {
    /// The data ends inside a record.
    Truncated,
    /// A record does not start with the tag that its place demands.
    BadTag,
    /// The trailer states a length smaller than its own header.
    BadLength,
    /// A type descriptor names a kind that is not known.
    UnknownKind(u32),
    /// A parameter names an access mode that is not known.
    UnknownAccessMode(u16),
    /// A parameter, an array, a structure member or a pointer refers to a
    /// type descriptor that the table does not hold.
    BadTypeIndex,
    /// A scalar type states a wire size other than that of its kind.
    BadTypeSize,
    /// An array has more than two dimensions, or a dimension whose bounds
    /// are out of order or span more than `u32::MAX` elements.
    BadArray,
    /// A string is longer than the format allows.
    BadString,
}

/// One member of a structured type.
pub struct MemberView {
    pub type_idx: u32,
    pub opaque: (u32, u32),
    /// Added to the owning parameter's id, this gives the member's own id.
    pub id_offset: u32,
    pub name: Seq<char>,
}

/// What a type descriptor says beyond kind and size.
pub enum PayloadView {
    /// Nothing more: the type is a scalar or a string.
    Plain,
    /// The element type and the inclusive bounds `(lo, hi)` of each
    /// dimension.
    Array { type_idx: u32, dims: Seq<(u32, u32)> },
    Struct(Seq<MemberView>),
    Pointer(u32),
}

/// One entry of the type table.
pub struct TypeView {
    pub kind: TypeKind,
    /// The number of bytes a value of this type takes in a response.
    pub type_size: u32,
    pub description: Seq<char>,
    pub payload: PayloadView,
}

/// One parameter of the catalog.
pub struct ParamView {
    pub type_idx: u32,
    pub flags: (u16, u16),
    pub rw: AccessMode,
    /// The parameter's address on the wire.
    pub id: u32,
    pub name: Seq<char>,
}

/// A whole catalog.
pub struct SdbView {
    pub sdb_id: u32,
    pub checksum: u32,
    pub total_size: u32,
    pub hdr_data: (u32, u32, u32),
    pub types: Seq<TypeView>,
    pub len_xx: u32,
    pub params: Seq<ParamView>,
    pub tail: Seq<u8>,
}

/// The number of elements of a dimension with inclusive bounds `(lo, hi)`.
pub open spec fn dim_len(d: (u32, u32)) -> int {
    d.1 - d.0 + 1
}

/// A dimension is in order when it holds at least one element and no more
/// than a `u32` can count.
pub open spec fn dim_ok(d: (u32, u32)) -> bool {
    d.0 <= d.1 && d.1 - d.0 < u32::MAX
}

impl PayloadView {
    /// Every type index that the payload names lies inside a table of
    /// `ntypes` entries, and an array has at most two dimensions, all in
    /// order.
    pub open spec fn valid(self, ntypes: nat) -> bool {
        match self {
            PayloadView::Plain => true,
            PayloadView::Array { type_idx, dims } => {
                &&& type_idx < ntypes
                &&& dims.len() <= 2
                &&& forall|i: int| 0 <= i < dims.len() ==> dim_ok(#[trigger] dims[i])
            },
            PayloadView::Struct(members) => forall|i: int|
                0 <= i < members.len() ==> (#[trigger] members[i]).type_idx < ntypes,
            PayloadView::Pointer(target) => target < ntypes,
        }
    }

    /// The payload is of the form that the kind calls for.
    pub open spec fn fits(self, kind: TypeKind) -> bool {
        match self {
            PayloadView::Plain => kind != TypeKind::Array && kind != TypeKind::Data && kind
                != TypeKind::Pointer,
            PayloadView::Array { .. } => kind == TypeKind::Array,
            PayloadView::Struct(_) => kind == TypeKind::Data,
            PayloadView::Pointer(_) => kind == TypeKind::Pointer,
        }
    }
}

impl TypeView {
    /// The descriptor is consistent inside a table of `ntypes` entries: a
    /// scalar has the size of its kind, the payload fits the kind, and what
    /// the payload refers to exists.
    pub open spec fn valid(self, ntypes: nat) -> bool {
        &&& match self.kind.spec_scalar_size() {
            Some(n) => self.type_size == n,
            None => true,
        }
        &&& self.payload.fits(self.kind)
        &&& self.payload.valid(ntypes)
    }
}

impl SdbView {
    /// The catalog is consistent: every descriptor is, and every parameter
    /// has a type in the table.
    pub open spec fn valid(self) -> bool {
        &&& self.types.len() <= u32::MAX
        &&& self.params.len() <= u32::MAX
        &&& forall|i: int|
            0 <= i < self.types.len() ==> (#[trigger] self.types[i]).valid(self.types.len())
        &&& forall|i: int|
            0 <= i < self.params.len() ==> (#[trigger] self.params[i]).type_idx
                < self.types.len()
    }

    /// The place of the first parameter called `name`, or the number of
    /// parameters if there is none.
    pub open spec fn first_named(self, name: Seq<char>) -> int {
        first_named_from(self.params, name, 0)
    }
}

/// The place of the first parameter at or after `from` that is called
/// `name`, or the number of parameters if there is none.
pub open spec fn first_named_from(params: Seq<ParamView>, name: Seq<char>, from: int) -> int
    decreases params.len() - from,
{
    if from < 0 || from >= params.len() {
        params.len() as int
    } else if params[from].name == name {
        from
    } else {
        first_named_from(params, name, from + 1)
    }
}

/// What a search by name finds: a place at or after the start, before
/// which no parameter has the name, and at which, if it is a place of the
/// catalog at all, the parameter has it.
pub proof fn lemma_first_named_from(params: Seq<ParamView>, name: Seq<char>, from: int)
    requires
        0 <= from <= params.len(),
    ensures
        from <= first_named_from(params, name, from) <= params.len(),
        first_named_from(params, name, from) < params.len() ==> params[first_named_from(
            params,
            name,
            from,
        )].name == name,
        forall|j: int|
            from <= j < first_named_from(params, name, from) ==> (#[trigger] params[j]).name
                != name,
    decreases params.len() - from,
{
    if from < params.len() && params[from].name != name {
        lemma_first_named_from(params, name, from + 1);
    }
}

/// Looking a parameter up by its own name always finds a parameter of that
/// name, at the parameter's own place or before it.
pub proof fn law_lookup_finds_name(sdb: SdbView, i: int)
    requires
        0 <= i < sdb.params.len(),
    ensures
        0 <= sdb.first_named(sdb.params[i].name) <= i,
        sdb.params[sdb.first_named(sdb.params[i].name)].name == sdb.params[i].name,
{
    lemma_first_named_from(sdb.params, sdb.params[i].name, 0);
}

/// Looking a parameter up by its own name finds that very parameter, with
/// its id and the wire size of its type, when no parameter before it has
/// the same name; in particular when all names differ.
pub proof fn law_lookup_round_trip(sdb: SdbView, i: int)
    requires
        0 <= i < sdb.params.len(),
        forall|j: int| 0 <= j < i ==> (#[trigger] sdb.params[j]).name != sdb.params[i].name,
    ensures
        sdb.first_named(sdb.params[i].name) == i,
        sdb.params[sdb.first_named(sdb.params[i].name)].id == sdb.params[i].id,
        sdb.types[sdb.params[sdb.first_named(sdb.params[i].name)].type_idx as int].type_size
            == sdb.types[sdb.params[i].type_idx as int].type_size,
{
    lemma_first_named_from(sdb.params, sdb.params[i].name, 0);
}

} // verus!
