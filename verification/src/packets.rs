//! The packets of the protocol.
//!
//! Every request and every response is a frame: a header of 24 bytes and a
//! body whose form depends on the command. The header states the length of
//! the body twice. All integers are big-endian.

use vstd::prelude::*;
use vstd::slice::slice_subrange;
use crate::opc_values::{same_values, EncodeOpcValue, Value, ValueView};
use crate::sdb::{NotFound, Parameter, Sdb};
use crate::sdb_model::SdbView;
use crate::value_format;
use crate::value_format::{DecodeError, EncodeError};
use crate::wire::{
    be16, be16_bytes, be32, be32_bytes, be64, be64_bytes, copy_range, lemma_be16_round_trip,
    lemma_be32_round_trip, lemma_be64_round_trip, push_all, push_be16, push_be32, push_be64, read_be16, read_be32,
    read_be64,
};

pub mod cc_payloads;

verus! {

/// The number of bytes of a frame's header.
pub const HEADER_LEN: usize = 24;

/// The four bytes that every frame starts with.
pub const MAGIC: u32 = 0xCCCC0001;

/// The last header byte of a command.
pub const ROLE_COMMAND: u8 = 0x23;

/// The last header byte of a response.
pub const ROLE_RESPONSE: u8 = 0x27;

/// A fault of the exchange with the instrument.
#[derive(Copy, Clone, Debug, PartialEq, Eq, Structural)]
pub enum WireError {
    /// The connection failed.
    Io,
    /// The instrument did not answer in time.
    Timeout,
    /// A frame does not start with the four bytes that every frame starts
    /// with.
    BadMagic,
    /// A frame is shorter or longer than its header says, or a body is too
    /// long for any header to state its length.
    BadLength,
    /// The instrument answered with a status other than zero.
    BadStatus(u16),
    /// The instrument's acknowledgement is not the expected one.
    UnexpectedAck,
    /// Something arrived that the exchange was not waiting for.
    OutOfOrder,
}

/// Why a frame could not be read as the response to a command.
#[derive(Copy, Clone, Debug, PartialEq, Eq, Structural)]
pub enum ResponseError {
    /// The frame itself is at fault.
    Wire(WireError),
    /// The frame is in order, its body is not.
    Decode(DecodeError),
}

/// The header of a frame.
#[derive(Copy, Clone, Debug, PartialEq, Eq, Structural)]
pub struct PacketCCHeader {
    pub u16_zero: u16,
    /// Transmission length minus header
    pub payload_len: u16,
    pub u64_8_f: u64,
    /// 1 in a request to read parameters, else 0
    pub one_if_data_poll_maybe: u32,
    pub u8_14: u8,
    /// received len in response, payload_len in command
    pub len2: u16,
    /// 0x23 in command, 0x27 in response
    pub b17: u8,
}

impl Default for PacketCCHeader {
    fn default() -> (r: Self)
        ensures
            r == (PacketCCHeader {
                u16_zero: 0,
                payload_len: 0,
                u64_8_f: 0,
                one_if_data_poll_maybe: 0,
                u8_14: 0,
                len2: 0,
                b17: 0,
            }),
    {
        PacketCCHeader {
            u16_zero: 0,
            payload_len: 0,
            u64_8_f: 0,
            one_if_data_poll_maybe: 0,
            u8_14: 0,
            len2: 0,
            b17: 0,
        }
    }
}

impl PacketCCHeader {
    /// The header of a command: all zero but for the role.
    pub open spec fn spec_new_cmd() -> PacketCCHeader {
        PacketCCHeader {
            u16_zero: 0,
            payload_len: 0,
            u64_8_f: 0,
            one_if_data_poll_maybe: 0,
            u8_14: 0,
            len2: 0,
            b17: ROLE_COMMAND,
        }
    }

    /// The header of a command: all zero but for the role.
    #[verifier::when_used_as_spec(spec_new_cmd)]
    pub fn new_cmd() -> (r: Self)
        ensures
            r == Self::spec_new_cmd(),
    {
        PacketCCHeader {
            u16_zero: 0,
            payload_len: 0,
            u64_8_f: 0,
            one_if_data_poll_maybe: 0,
            u8_14: 0,
            len2: 0,
            b17: ROLE_COMMAND,
        }
    }

    /// The 24 bytes of the header in front of a body of `body_len` bytes.
    /// Both length fields state `body_len`, whatever the header itself
    /// holds there.
    pub open spec fn wire(self, body_len: u16) -> Seq<u8> {
        be32_bytes(MAGIC) + be16_bytes(self.u16_zero) + be16_bytes(body_len) + be64_bytes(
            self.u64_8_f,
        ) + be32_bytes(self.one_if_data_poll_maybe) + seq![self.u8_14] + be16_bytes(body_len)
            + seq![self.b17]
    }

    /// The header that a frame starts with.
    pub open spec fn parse(s: Seq<u8>) -> Result<PacketCCHeader, WireError> {
        if s.len() < 4 {
            Err(WireError::BadLength)
        } else if be32(s, 0) != MAGIC {
            Err(WireError::BadMagic)
        } else if s.len() < HEADER_LEN {
            Err(WireError::BadLength)
        } else {
            Ok(
                PacketCCHeader {
                    u16_zero: be16(s, 4),
                    payload_len: be16(s, 6),
                    u64_8_f: be64(s, 8),
                    one_if_data_poll_maybe: be32(s, 16),
                    u8_14: s[20],
                    len2: be16(s, 21),
                    b17: s[23],
                },
            )
        }
    }

    /// Appends the header for a body of `body_len` bytes.
    pub fn write(&self, out: &mut Vec<u8>, body_len: u16)
        ensures
            final(out)@ == old(out)@ + self.wire(body_len),
    {
        push_be32(out, MAGIC);
        push_be16(out, self.u16_zero);
        push_be16(out, body_len);
        push_be64(out, self.u64_8_f);
        push_be32(out, self.one_if_data_poll_maybe);
        out.push(self.u8_14);
        push_be16(out, body_len);
        out.push(self.b17);
        assert(out@ =~= old(out)@ + self.wire(body_len));
    }

    /// Reads the header that `data` starts with.
    pub fn read(data: &[u8]) -> (r: Result<PacketCCHeader, WireError>)
        ensures
            r == Self::parse(data@),
    {
        if data.len() < 4 {
            return Err(WireError::BadLength);
        }
        match read_be32(data, 0) {
            Some(m) => {
                if m != MAGIC {
                    return Err(WireError::BadMagic);
                }
            },
            None => {},
        }
        if data.len() < HEADER_LEN {
            return Err(WireError::BadLength);
        }
        let u16_zero = match read_be16(data, 4) {
            Some(v) => v,
            None => 0,
        };
        let payload_len = match read_be16(data, 6) {
            Some(v) => v,
            None => 0,
        };
        let u64_8_f = match read_be64(data, 8) {
            Some(v) => v,
            None => 0,
        };
        let one_if_data_poll_maybe = match read_be32(data, 16) {
            Some(v) => v,
            None => 0,
        };
        let len2 = match read_be16(data, 21) {
            Some(v) => v,
            None => 0,
        };
        Ok(
            PacketCCHeader {
                u16_zero,
                payload_len,
                u64_8_f,
                one_if_data_poll_maybe,
                u8_14: data[20],
                len2,
                b17: data[23],
            },
        )
    }
}

/// What a reader of a response body is given: the header of the frame, and
/// what the command knows of the response it expects.
#[derive(Clone, Copy, Debug)]
pub struct ReadArgs<T> {
    pub hdr: PacketCCHeader,
    pub args: T,
}

/// A body that can be written into a frame.
pub trait WritePayload {
    /// Whether the body can be written at all.
    spec fn writable(&self) -> bool;

    /// The bytes of the body.
    spec fn body(&self) -> Seq<u8>;

    /// Appends the body, and says whether it could: where it could not,
    /// what was appended means nothing.
    fn write_body(&self, out: &mut Vec<u8>) -> (ok: bool)
        ensures
            ok == self.writable(),
            ok ==> final(out)@ == old(out)@ + self.body(),
    ;
}

/// A body that can be read from a frame.
pub trait ReadPayload: Sized {
    /// What the command knows of the response it expects.
    type Args;

    /// Whether `got` is the outcome of reading `body` with `args`: the
    /// payload that the bytes hold and the number of bytes it takes, or the
    /// reason why the bytes hold none.
    spec fn reads(args: ReadArgs<Self::Args>, body: Seq<u8>, got: Result<(Self, usize), DecodeError>) -> bool;

    /// Reads a payload from the start of `body`.
    fn read(args: ReadArgs<Self::Args>, body: &[u8]) -> (r: Result<(Self, usize), DecodeError>)
        ensures
            Self::reads(args, body@, r),
            r is Ok ==> r->Ok_0.1 <= body@.len(),
    ;
}

/// A command, which knows what response it expects.
pub trait QueryPacket: WritePayload {
    /// The type used for decoding the query response
    type Response: ReadPayload;

    /// Whether `arg` is what the reader of the response must be given.
    spec fn is_read_arg(&self, arg: <Self::Response as ReadPayload>::Args) -> bool;

    /// What the reader of the response must be given.
    fn get_response_read_arg(&self) -> (r: <Self::Response as ReadPayload>::Args)
        ensures
            self.is_read_arg(r),
    ;
}

/// A frame: header, body, and what follows the body.
#[derive(Debug)]
pub struct PacketCC<Payload> {
    pub hdr: PacketCCHeader,
    pub payload: Payload,
    pub tail: Vec<u8>,
}

impl<P: WritePayload> PacketCC<P> {
    /// A command with the given body.
    pub fn new(payload: P) -> (r: Self)
        ensures
            r.hdr == PacketCCHeader::new_cmd(),
            r.payload == payload,
            r.tail@ == Seq::<u8>::empty(),
    {
        Self { hdr: PacketCCHeader::new_cmd(), payload, tail: Vec::new() }
    }

    /// The bytes of the frame: the header, stating the length of the body,
    /// and the body. A body of more than 65535 bytes has no frame.
    pub open spec fn frame(&self) -> Result<Seq<u8>, WireError> {
        if !self.payload.writable() || self.payload.body().len() > u16::MAX {
            Err(WireError::BadLength)
        } else {
            Ok(self.hdr.wire(self.payload.body().len() as u16) + self.payload.body())
        }
    }

    /// Writes the frame.
    pub fn to_bytes(&self) -> (r: Result<Vec<u8>, WireError>)
        ensures
            match r {
                Ok(bytes) => self.frame() == Ok::<Seq<u8>, WireError>(bytes@),
                Err(e) => self.frame() == Err::<Seq<u8>, WireError>(e),
            },
    {
        let mut body: Vec<u8> = Vec::new();
        if !self.payload.write_body(&mut body) {
            return Err(WireError::BadLength);
        }
        assert(body@ =~= self.payload.body());
        if body.len() > 65535 {
            return Err(WireError::BadLength);
        }
        let mut out: Vec<u8> = Vec::new();
        self.hdr.write(&mut out, body.len() as u16);
        push_all(&mut out, body.as_slice());
        assert(out@ =~= self.hdr.wire(body@.len() as u16) + body@);
        Ok(out)
    }
}

impl<P: ReadPayload> PacketCC<P> {
    /// Whether `got` is the outcome of reading `data` as a whole frame.
    /// The frame must be exactly as long as its header says; what the
    /// payload leaves of the body is the tail.
    pub open spec fn reads(data: Seq<u8>, args: P::Args, got: Result<PacketCC<P>, ResponseError>) -> bool {
        match PacketCCHeader::parse(data) {
            Err(e) => got == Err::<PacketCC<P>, ResponseError>(ResponseError::Wire(e)),
            Ok(hdr) => if data.len() != HEADER_LEN + hdr.payload_len {
                got == Err::<PacketCC<P>, ResponseError>(ResponseError::Wire(WireError::BadLength))
            } else {
                let body = data.subrange(HEADER_LEN as int, data.len() as int);
                match got {
                    Err(ResponseError::Decode(e)) => P::reads(
                        ReadArgs { hdr, args },
                        body,
                        Err(e),
                    ),
                    Err(ResponseError::Wire(_)) => false,
                    Ok(pkt) => {
                        let n = body.len() - pkt.tail@.len();
                        &&& 0 <= n
                        &&& P::reads(ReadArgs { hdr, args }, body, Ok((pkt.payload, n as usize)))
                        &&& pkt.hdr == hdr
                        &&& pkt.tail@ == body.subrange(n, body.len() as int)
                    },
                }
            },
        }
    }

    /// Reads a whole frame.
    pub fn from_bytes(data: &[u8], args: P::Args) -> (r: Result<PacketCC<P>, ResponseError>)
        ensures
            Self::reads(data@, args, r),
    {
        let hdr = match PacketCCHeader::read(data) {
            Err(e) => {
                return Err(ResponseError::Wire(e));
            },
            Ok(hdr) => hdr,
        };
        if data.len() - HEADER_LEN != hdr.payload_len as usize {
            return Err(ResponseError::Wire(WireError::BadLength));
        }
        let body = vstd::slice::slice_subrange(data, HEADER_LEN, data.len());
        match P::read(ReadArgs { hdr, args }, body) {
            Err(e) => Err(ResponseError::Decode(e)),
            Ok((payload, n)) => {
                let tail = copy_range(body, n, body.len());
                Ok(PacketCC { hdr, payload, tail })
            },
        }
    }
}

/// A frame that was written reads back with the header it was written
/// with: the magic number in front, both length fields equal to the number
/// of bytes behind the header, and every other field unchanged.
pub proof fn law_frame_round_trip(hdr: PacketCCHeader, body: Seq<u8>)
    requires
        body.len() <= u16::MAX,
    ensures
        (hdr.wire(body.len() as u16) + body).subrange(0, 4) == seq![0xCCu8, 0xCCu8, 0x00u8, 0x01u8],
        PacketCCHeader::parse(hdr.wire(body.len() as u16) + body) == Ok::<
            PacketCCHeader,
            WireError,
        >(PacketCCHeader { payload_len: body.len() as u16, len2: body.len() as u16, ..hdr }),
        (hdr.wire(body.len() as u16) + body).len() - HEADER_LEN == body.len(),
{
    let n = body.len() as u16;
    let w = hdr.wire(n);
    let f = w + body;
    assert(w.len() == 24);
    assert(f.subrange(0, 4) =~= be32_bytes(MAGIC));
    assert(be32_bytes(MAGIC) =~= seq![0xCCu8, 0xCCu8, 0x00u8, 0x01u8]);
    assert(f.subrange(4, 6) =~= be16_bytes(hdr.u16_zero));
    assert(f.subrange(6, 8) =~= be16_bytes(n));
    assert(f.subrange(8, 16) =~= be64_bytes(hdr.u64_8_f));
    assert(f.subrange(16, 20) =~= be32_bytes(hdr.one_if_data_poll_maybe));
    assert(f[20] == hdr.u8_14);
    assert(f.subrange(21, 23) =~= be16_bytes(n));
    assert(f[23] == hdr.b17);
    lemma_be32_round_trip(f, 0, MAGIC);
    lemma_be16_round_trip(f, 4, hdr.u16_zero);
    lemma_be16_round_trip(f, 6, n);
    lemma_be64_round_trip(f, 8, hdr.u64_8_f);
    lemma_be32_round_trip(f, 16, hdr.one_if_data_poll_maybe);
    lemma_be16_round_trip(f, 21, n);
}

/// A body of unknown meaning: all the bytes that the header announces.
#[derive(Debug)]
pub struct PayloadUnknown {
    pub data: Vec<u8>,
}

impl PayloadUnknown {
    /// A body that holds a copy of `d`.
    pub fn from_bytes(d: &[u8]) -> (r: Self)
        ensures
            r.data@ == d@,
    {
        let data = copy_range(d, 0, d.len());
        assert(d@.subrange(0, d@.len() as int) =~= d@);
        PayloadUnknown { data }
    }
}

impl WritePayload for PayloadUnknown {
    open spec fn writable(&self) -> bool {
        true
    }

    open spec fn body(&self) -> Seq<u8> {
        self.data@
    }

    fn write_body(&self, out: &mut Vec<u8>) -> (ok: bool) {
        push_all(out, self.data.as_slice());
        true
    }
}

impl ReadPayload for PayloadUnknown {
    type Args = ();

    open spec fn reads(
        args: ReadArgs<()>,
        body: Seq<u8>,
        got: Result<(Self, usize), DecodeError>,
    ) -> bool {
        if body.len() < args.hdr.payload_len {
            got == Err::<(Self, usize), DecodeError>(DecodeError::Truncated)
        } else {
            match got {
                Ok((p, n)) => p.data@ == body.subrange(0, args.hdr.payload_len as int) && n
                    == args.hdr.payload_len,
                Err(_) => false,
            }
        }
    }

    fn read(args: ReadArgs<()>, body: &[u8]) -> (r: Result<(Self, usize), DecodeError>) {
        let len = args.hdr.payload_len as usize;
        if body.len() < len {
            return Err(DecodeError::Truncated);
        }
        Ok((PayloadUnknown { data: copy_range(body, 0, len) }, len))
    }
}

/// One entry of a request to read parameters: the parameter's id and the
/// number of bytes that its value takes.
#[derive(Copy, Clone, Debug, PartialEq, Eq, Structural)]
pub struct ParamRead {
    param_id: u32,
    response_len: u32,
}

impl ParamRead {
    /// The parameter's id.
    pub closed spec fn id(self) -> u32 {
        self.param_id
    }

    /// The number of bytes asked for.
    pub closed spec fn len(self) -> u32 {
        self.response_len
    }

    /// The ten bytes of the entry.
    pub open spec fn wire(self) -> Seq<u8> {
        be16_bytes(3) + be32_bytes(self.id()) + be32_bytes(self.len())
    }

    pub fn new(param_id: u32, response_len: u32) -> (r: Self)
        ensures
            r.id() == param_id,
            r.len() == response_len,
    {
        Self { param_id, response_len }
    }

    fn write(&self, out: &mut Vec<u8>)
        ensures
            final(out)@ == old(out)@ + self.wire(),
    {
        push_be16(out, 3);
        push_be32(out, self.param_id);
        push_be32(out, self.response_len);
        assert(out@ =~= old(out)@ + self.wire());
    }
}

/// The entries of a request, one behind the other.
pub open spec fn reads_wire(items: Seq<ParamRead>) -> Seq<u8>
    decreases items.len(),
{
    if items.len() == 0 {
        Seq::empty()
    } else {
        reads_wire(items.drop_last()) + items.last().wire()
    }
}

/// The parameters of one request, in the order in which they are asked
/// for and answered.
#[derive(Debug)]
pub struct ParamQuerySet<'sdb>(pub Vec<Parameter<'sdb>>);

impl<'sdb> Clone for ParamQuerySet<'sdb> {
    fn clone(&self) -> (r: Self)
        ensures
            r.0@ == self.0@,
    {
        let mut v: Vec<Parameter<'sdb>> = Vec::new();
        let mut i: usize = 0;
        while i < self.0.len()
            invariant
                i <= self.0@.len(),
                v@ == self.0@.subrange(0, i as int),
            decreases self.0@.len() - i,
        {
            v.push(self.0[i]);
            i = i + 1;
            assert(v@ =~= self.0@.subrange(0, i as int));
        }
        assert(self.0@.subrange(0, i as int) =~= self.0@);
        ParamQuerySet(v)
    }
}

/// Encodes a parameter read command.
#[derive(Debug)]
pub struct ParamsReadQuery<'sdb> {
    query_set: ParamQuerySet<'sdb>,
    params: Vec<ParamRead>,
    sdb_id: u32,
}

impl<'sdb> ParamsReadQuery<'sdb> {
    /// The parameters that are asked for.
    pub closed spec fn asked(&self) -> Seq<Parameter<'sdb>> {
        self.query_set.0@
    }

    /// The entries of the request.
    pub closed spec fn items(&self) -> Seq<ParamRead> {
        self.params@
    }

    /// The number that closes the request.
    pub closed spec fn closing_id(&self) -> u32 {
        self.sdb_id
    }

    /// A request for the parameters of `query_set`, in their order, closed
    /// by the id of `sdb`.
    pub fn new(sdb: &'sdb Sdb, query_set: ParamQuerySet<'sdb>) -> (r: Self)
        ensures
            r.asked() == query_set.0@,
            r.closing_id() == sdb@.sdb_id,
            r.items().len() == query_set.0@.len(),
            forall|i: int|
                0 <= i < query_set.0@.len() ==> {
                    &&& (#[trigger] r.items()[i]).id() == query_set.0@[i].record().id
                    &&& r.items()[i].len() == query_set.0@[i].type_record().type_size
                },
    {
        let mut params: Vec<ParamRead> = Vec::new();
        let mut i: usize = 0;
        while i < query_set.0.len()
            invariant
                i <= query_set.0@.len(),
                params@.len() == i,
                forall|j: int|
                    0 <= j < i ==> {
                        &&& (#[trigger] params@[j]).id() == query_set.0@[j].record().id
                        &&& params@[j].len() == query_set.0@[j].type_record().type_size
                    },
            decreases query_set.0@.len() - i,
        {
            let p = &query_set.0[i];
            let item = ParamRead::new(p.id(), p.type_info().response_len() as u32);
            params.push(item);
            i = i + 1;
        }
        Self { query_set, params, sdb_id: sdb.sdb_id() }
    }
}

impl<'sdb> WritePayload for ParamsReadQuery<'sdb> {
    open spec fn writable(&self) -> bool {
        self.items().len() <= u32::MAX
    }

    open spec fn body(&self) -> Seq<u8> {
        be16_bytes(0x2e00) + be32_bytes(self.items().len() as u32) + reads_wire(self.items())
            + be32_bytes(self.closing_id())
    }

    fn write_body(&self, out: &mut Vec<u8>) -> (ok: bool) {
        if self.params.len() > 0xFFFF_FFFF {
            return false;
        }
        push_be16(out, 0x2e00);
        push_be32(out, self.params.len() as u32);
        let ghost head = out@;
        let mut i: usize = 0;
        assert(self.params@.subrange(0, 0) =~= Seq::<ParamRead>::empty());
        while i < self.params.len()
            invariant
                i <= self.params@.len(),
                out@ == head + reads_wire(self.params@.subrange(0, i as int)),
            decreases self.params@.len() - i,
        {
            self.params[i].write(out);
            proof {
                let next = self.params@.subrange(0, i + 1);
                assert(next.drop_last() =~= self.params@.subrange(0, i as int));
                assert(next.last() == self.params@[i as int]);
                assert(out@ =~= head + reads_wire(next));
            }
            i = i + 1;
        }
        assert(self.params@.subrange(0, i as int) =~= self.params@);
        push_be32(out, self.sdb_id);
        assert(out@ =~= old(out)@ + self.body());
        true
    }
}

impl<'sdb> QueryPacket for ParamsReadQuery<'sdb> {
    type Response = ParamReadDynResponse<'sdb>;

    open spec fn is_read_arg(&self, arg: ParamQuerySet<'sdb>) -> bool {
        arg.0@ == self.asked()
    }

    fn get_response_read_arg(&self) -> (r: ParamQuerySet<'sdb>) {
        self.query_set.clone()
    }
}

/// One entry of a request to write parameters: the parameter's id and the
/// bytes of its new value.
#[derive(Debug)]
pub struct ParamWrite {
    param_id: u32,
    data: Vec<u8>,
}

impl ParamWrite {
    /// The parameter's id.
    pub closed spec fn id(&self) -> u32 {
        self.param_id
    }

    /// The bytes of the new value.
    pub closed spec fn bytes(&self) -> Seq<u8> {
        self.data@
    }

    /// The bytes of the entry: a tag, the id, the length of the value, and
    /// the value.
    pub open spec fn wire(&self) -> Seq<u8> {
        be16_bytes(3) + be32_bytes(self.id()) + be32_bytes(self.bytes().len() as u32)
            + self.bytes()
    }

    /// An entry that writes `data` to `param`, if the parameter can hold
    /// it.
    pub fn new<T: EncodeOpcValue>(param: &Parameter, data: T) -> (r: Result<Self, EncodeError>)
        ensures
            match r {
                Ok(w) => data.encoding(param.type_record()) == Ok::<Seq<u8>, EncodeError>(
                    w.bytes(),
                ) && w.id() == param.record().id,
                Err(e) => data.encoding(param.type_record()) == Err::<Seq<u8>, EncodeError>(e),
            },
    {
        match data.opc_encode(&param.type_info()) {
            Ok(bytes) => Ok(Self { param_id: param.id(), data: bytes }),
            Err(e) => Err(e),
        }
    }

    /// A copy of the entry.
    pub fn duplicate(&self) -> (r: Self)
        ensures
            r.id() == self.id(),
            r.bytes() == self.bytes(),
    {
        let data = copy_range(self.data.as_slice(), 0, self.data.len());
        assert(self.data@.subrange(0, self.data@.len() as int) =~= self.data@);
        Self { param_id: self.param_id, data }
    }

    fn write(&self, out: &mut Vec<u8>)
        requires
            self.bytes().len() <= u32::MAX,
        ensures
            final(out)@ == old(out)@ + self.wire(),
    {
        push_be16(out, 3);
        push_be32(out, self.param_id);
        push_be32(out, self.data.len() as u32);
        push_all(out, self.data.as_slice());
        assert(out@ =~= old(out)@ + self.wire());
    }
}

/// The entries of a write request, one behind the other.
pub open spec fn writes_wire(items: Seq<ParamWrite>) -> Seq<u8>
    decreases items.len(),
{
    if items.len() == 0 {
        Seq::empty()
    } else {
        writes_wire(items.drop_last()) + items.last().wire()
    }
}

/// Instructs the instrument to change the value of the given parameters.
#[derive(Debug)]
pub struct PayloadParamWrite {
    params: Vec<ParamWrite>,
    sdb_id: u32,
}

impl PayloadParamWrite {
    /// The entries of the request.
    pub closed spec fn items(&self) -> Seq<ParamWrite> {
        self.params@
    }

    /// The number that closes the request.
    pub closed spec fn closing_id(&self) -> u32 {
        self.sdb_id
    }

    /// A request that writes the given entries in their order, closed by
    /// the id of `sdb`.
    pub fn new(sdb: &Sdb, params: &[ParamWrite]) -> (r: Self)
        ensures
            r.closing_id() == sdb@.sdb_id,
            r.items().len() == params@.len(),
            forall|i: int|
                0 <= i < params@.len() ==> (#[trigger] r.items()[i]).id() == params@[i].id()
                    && r.items()[i].bytes() == params@[i].bytes(),
    {
        let mut v: Vec<ParamWrite> = Vec::new();
        let mut i: usize = 0;
        while i < params.len()
            invariant
                i <= params@.len(),
                v@.len() == i,
                forall|j: int|
                    0 <= j < i ==> (#[trigger] v@[j]).id() == params@[j].id() && v@[j].bytes()
                        == params@[j].bytes(),
            decreases params@.len() - i,
        {
            v.push(params[i].duplicate());
            i = i + 1;
        }
        Self { params: v, sdb_id: sdb.sdb_id() }
    }
}

impl WritePayload for PayloadParamWrite {
    open spec fn writable(&self) -> bool {
        &&& self.items().len() <= u32::MAX
        &&& forall|i: int|
            0 <= i < self.items().len() ==> (#[trigger] self.items()[i]).bytes().len()
                <= u32::MAX
    }

    open spec fn body(&self) -> Seq<u8> {
        be16_bytes(0x3c00) + be32_bytes(self.items().len() as u32) + writes_wire(self.items())
            + be32_bytes(self.closing_id())
    }

    fn write_body(&self, out: &mut Vec<u8>) -> (ok: bool) {
        if self.params.len() > 0xFFFF_FFFF {
            return false;
        }
        push_be16(out, 0x3c00);
        push_be32(out, self.params.len() as u32);
        let ghost head = out@;
        let mut i: usize = 0;
        assert(self.params@.subrange(0, 0) =~= Seq::<ParamWrite>::empty());
        while i < self.params.len()
            invariant
                i <= self.params@.len(),
                out@ == head + writes_wire(self.params@.subrange(0, i as int)),
                forall|j: int|
                    0 <= j < i ==> (#[trigger] self.params@[j]).bytes().len() <= u32::MAX,
            decreases self.params@.len() - i,
        {
            if self.params[i].data.len() > 0xFFFF_FFFF {
                return false;
            }
            self.params[i].write(out);
            proof {
                let next = self.params@.subrange(0, i + 1);
                assert(next.drop_last() =~= self.params@.subrange(0, i as int));
                assert(next.last() == self.params@[i as int]);
                assert(out@ =~= head + writes_wire(next));
            }
            i = i + 1;
        }
        assert(self.params@.subrange(0, i as int) =~= self.params@);
        push_be32(out, self.sdb_id);
        assert(out@ =~= old(out)@ + self.body());
        true
    }
}

impl QueryPacket for PayloadParamWrite {
    type Response = PayloadUnknown;

    open spec fn is_read_arg(&self, arg: ()) -> bool {
        true
    }

    fn get_response_read_arg(&self) -> (r: ()) {
    }
}

/// The place behind the header of a response to a read request at which the
/// values begin: behind the status and the timestamp.
pub const VALUES_AT: usize = 6;

/// The byte in front of every value of a response.
pub const VALUE_MARKER: u8 = 1;

/// The value of parameter `p` in a response body, at `at`: the marker, then
/// as many bytes as the parameter's type takes, read as a value of that
/// type. Alignment counts from the first of those bytes.
pub open spec fn answer(p: Parameter, body: Seq<u8>, at: int) -> Result<(ValueView, int), DecodeError> {
    let size = p.type_record().type_size as int;
    if at + 1 > body.len() {
        Err(DecodeError::Truncated)
    } else if body[at] != VALUE_MARKER {
        Err(DecodeError::BadMarker)
    } else if at + 1 + size > body.len() {
        Err(DecodeError::Truncated)
    } else {
        match value_format::parse(
            p.catalog().types,
            p.record().type_idx as int,
            body.subrange(at + 1, at + 1 + size),
        ) {
            Err(e) => Err(e),
            Ok(v) => Ok((v, at + 1 + size)),
        }
    }
}

/// The values of the first `n` parameters of `asked` in a response body,
/// from `at` on.
pub open spec fn answers(asked: Seq<Parameter>, body: Seq<u8>, at: int, n: nat) -> Result<
    (Seq<ValueView>, int),
    DecodeError,
>
    decreases n,
{
    if n == 0 {
        Ok((Seq::empty(), at))
    } else {
        match answers(asked, body, at, (n - 1) as nat) {
            Err(e) => Err(e),
            Ok((vs, p)) => match answer(asked[n - 1], body, p) {
                Err(e) => Err(e),
                Ok((v, q)) => Ok((vs.push(v), q)),
            },
        }
    }
}

/// Once reading the values of a response has failed, asking for more of
/// them fails in the same way.
pub proof fn lemma_answers_fail(asked: Seq<Parameter>, body: Seq<u8>, at: int, i: nat, n: nat)
    requires
        i <= n,
        answers(asked, body, at, i) is Err,
    ensures
        answers(asked, body, at, n) == answers(asked, body, at, i),
    decreases n,
{
    if i < n {
        lemma_answers_fail(asked, body, at, i, (n - 1) as nat);
    }
}

/// The values of a response follow the parameters of the request: there
/// is one value for each parameter, and the value at place `i` is the one
/// read for the parameter at place `i`, from the bytes that begin where the
/// values in front of it end.
pub proof fn law_answers_follow_request(
    asked: Seq<Parameter>,
    body: Seq<u8>,
    at: int,
    n: nat,
    i: int,
)
    requires
        0 <= i < n,
        answers(asked, body, at, n) is Ok,
    ensures
        answers(asked, body, at, n)->Ok_0.0.len() == n,
        answers(asked, body, at, i as nat) is Ok,
        answers(asked, body, at, (i + 1) as nat) is Ok,
        answer(asked[i], body, answers(asked, body, at, i as nat)->Ok_0.1) == Ok::<
            (ValueView, int),
            DecodeError,
        >(
            (
                answers(asked, body, at, n)->Ok_0.0[i],
                answers(asked, body, at, (i + 1) as nat)->Ok_0.1,
            ),
        ),
    decreases n,
{
    lemma_answers_len(asked, body, at, n);
    if i + 1 < n {
        law_answers_follow_request(asked, body, at, (n - 1) as nat, i);
    } else {
        lemma_answers_len(asked, body, at, (n - 1) as nat);
    }
}

/// There are as many values as parameters were asked for.
pub proof fn lemma_answers_len(asked: Seq<Parameter>, body: Seq<u8>, at: int, n: nat)
    requires
        answers(asked, body, at, n) is Ok,
    ensures
        answers(asked, body, at, n)->Ok_0.0.len() == n,
    decreases n,
{
    if n > 0 {
        lemma_answers_len(asked, body, at, (n - 1) as nat);
    }
}

/// The response to a request to read parameters.
#[derive(Debug)]
pub struct ParamReadDynResponse<'sdb> {
    pub error_code: u16,
    /// The instrument's clock, in milliseconds.
    pub timestamp: u32,
    /// The values, in the order of the request.
    pub data: Vec<Value>,
    pub query_set: ParamQuerySet<'sdb>,
}

impl<'sdb> ReadPayload for ParamReadDynResponse<'sdb> {
    type Args = ParamQuerySet<'sdb>;

    open spec fn reads(
        args: ReadArgs<ParamQuerySet<'sdb>>,
        body: Seq<u8>,
        got: Result<(Self, usize), DecodeError>,
    ) -> bool {
        let asked = args.args.0@;
        if body.len() < VALUES_AT {
            got == Err::<(Self, usize), DecodeError>(DecodeError::Truncated)
        } else {
            match answers(asked, body, VALUES_AT as int, asked.len()) {
                Err(e) => got == Err::<(Self, usize), DecodeError>(e),
                Ok((vs, end)) => match got {
                    Ok((p, n)) => {
                        &&& p.error_code == be16(body, 0)
                        &&& p.timestamp == be32(body, 2)
                        &&& same_values(p.data@, vs)
                        &&& p.query_set.0@ == asked
                        &&& n == end
                    },
                    Err(_) => false,
                },
            }
        }
    }

    fn read(args: ReadArgs<ParamQuerySet<'sdb>>, body: &[u8]) -> (r: Result<
        (Self, usize),
        DecodeError,
    >) {
        if body.len() < VALUES_AT {
            return Err(DecodeError::Truncated);
        }
        let error_code = match read_be16(body, 0) {
            Some(v) => v,
            None => 0,
        };
        let timestamp = match read_be32(body, 2) {
            Some(v) => v,
            None => 0,
        };
        let ghost asked = args.args.0@;
        let ghost mut ws: Seq<ValueView> = Seq::empty();
        let mut data: Vec<Value> = Vec::new();
        let mut pos: usize = VALUES_AT;
        let mut i: usize = 0;
        while i < args.args.0.len()
            invariant
                i <= asked.len(),
                asked == args.args.0@,
                VALUES_AT <= pos <= body@.len(),
                same_values(data@, ws),
                answers(asked, body@, VALUES_AT as int, i as nat) == Ok::<
                    (Seq<ValueView>, int),
                    DecodeError,
                >((ws, pos as int)),
            decreases asked.len() - i,
        {
            let p = &args.args.0[i];
            let ti = p.type_info();
            let size = ti.response_len();
            if pos == body.len() {
                proof {
                    lemma_answers_fail(asked, body@, VALUES_AT as int, (i + 1) as nat, asked.len());
                }
                return Err(DecodeError::Truncated);
            }
            if body[pos] != VALUE_MARKER {
                proof {
                    lemma_answers_fail(asked, body@, VALUES_AT as int, (i + 1) as nat, asked.len());
                }
                return Err(DecodeError::BadMarker);
            }
            if size > body.len() - pos - 1 {
                proof {
                    lemma_answers_fail(asked, body@, VALUES_AT as int, (i + 1) as nat, asked.len());
                }
                return Err(DecodeError::Truncated);
            }
            let end: usize = pos + 1 + size;
            match Value::parse(slice_subrange(body, pos + 1, end), &ti) {
                Err(e) => {
                    proof {
                        lemma_answers_fail(
                            asked,
                            body@,
                            VALUES_AT as int,
                            (i + 1) as nat,
                            asked.len(),
                        );
                    }
                    return Err(e);
                },
                Ok(v) => {
                    proof {
                        ws = ws.push(v@);
                    }
                    data.push(v);
                    pos = end;
                    i = i + 1;
                },
            }
        }
        Ok((ParamReadDynResponse { error_code, timestamp, data, query_set: args.args }, pos))
    }
}

impl<'sdb> ParamReadDynResponse<'sdb> {
    /// The status of the response as a fault, if it is one.
    pub fn status(&self) -> (r: Result<(), WireError>)
        ensures
            r == if self.error_code == 0 {
                Ok::<(), WireError>(())
            } else {
                Err::<(), WireError>(WireError::BadStatus(self.error_code))
            },
    {
        if self.error_code == 0 {
            Ok(())
        } else {
            Err(WireError::BadStatus(self.error_code))
        }
    }

    /// Each parameter that was asked for beside its value, in the order of
    /// the request.
    pub fn iter(&self) -> (r: Vec<(&Parameter<'sdb>, &Value)>)
        ensures
            r@.len() == if self.query_set.0@.len() <= self.data@.len() {
                self.query_set.0@.len()
            } else {
                self.data@.len()
            },
            forall|i: int|
                0 <= i < r@.len() ==> *(#[trigger] r@[i]).0 == self.query_set.0@[i] && *r@[i].1
                    == self.data@[i],
    {
        let mut v: Vec<(&Parameter<'sdb>, &Value)> = Vec::new();
        let mut i: usize = 0;
        while i < self.query_set.0.len() && i < self.data.len()
            invariant
                i <= self.query_set.0@.len(),
                i <= self.data@.len(),
                v@.len() == i,
                forall|j: int|
                    0 <= j < i ==> *(#[trigger] v@[j]).0 == self.query_set.0@[j] && *v@[j].1
                        == self.data@[j],
            decreases self.data@.len() - i,
        {
            v.push((&self.query_set.0[i], &self.data[i]));
            i = i + 1;
        }
        v
    }
}

/// Collects the parameters of a request to read them.
#[derive(Debug)]
pub struct ParamQuerySetBuilder<'sdb>(Vec<Parameter<'sdb>>, &'sdb Sdb);

impl<'sdb> ParamQuerySetBuilder<'sdb> {
    /// The parameters collected so far, in the order in which they came.
    pub closed spec fn collected(&self) -> Seq<Parameter<'sdb>> {
        self.0@
    }

    /// The catalog in which names are looked up.
    pub closed spec fn catalog(&self) -> SdbView {
        self.1@
    }

    pub fn new(sdb: &'sdb Sdb) -> (r: Self)
        ensures
            r.collected() == Seq::<Parameter<'sdb>>::empty(),
            r.catalog() == sdb@,
    {
        Self(Vec::new(), sdb.get_ref())
    }

    /// Adds the first parameter of the catalog that is called `name`, or
    /// leaves the collection as it is where there is none.
    pub fn add(&mut self, name: &str) -> (r: Result<(), NotFound>)
        ensures
            final(self).catalog() == old(self).catalog(),
            match r {
                Ok(_) => {
                    &&& old(self).catalog().first_named(name@) < old(self).catalog().params.len()
                    &&& final(self).collected().len() == old(self).collected().len() + 1
                    &&& final(self).collected().drop_last() == old(self).collected()
                    &&& final(self).collected().last().catalog() == old(self).catalog()
                    &&& final(self).collected().last().index() == old(self).catalog().first_named(
                        name@,
                    )
                },
                Err(e) => {
                    &&& old(self).catalog().first_named(name@) == old(
                        self,
                    ).catalog().params.len()
                    &&& final(self).collected() == old(self).collected()
                    &&& e.0@ == name@
                },
            },
    {
        match self.1.param_by_name(name) {
            Ok(p) => {
                self.0.push(p);
                assert(self.0@.drop_last() =~= old(self).0@);
                Ok(())
            },
            Err(e) => Err(e),
        }
    }

    /// Adds `param` behind the parameters collected so far.
    pub fn add_param(&mut self, param: Parameter<'sdb>)
        ensures
            final(self).catalog() == old(self).catalog(),
            final(self).collected() == old(self).collected().push(param),
    {
        self.0.push(param);
    }

    /// The frame that asks for the collected parameters, in their order:
    /// a command marked as a poll, with one entry for each parameter and
    /// the catalog's id at the end.
    pub fn into_query_packet(self) -> (r: PacketCC<ParamsReadQuery<'sdb>>)
        ensures
            r.hdr == (PacketCCHeader {
                one_if_data_poll_maybe: 1,
                ..PacketCCHeader::spec_new_cmd()
            }),
            r.tail@ == Seq::<u8>::empty(),
            r.payload.asked() == self.collected(),
            r.payload.closing_id() == self.catalog().sdb_id,
            r.payload.items().len() == self.collected().len(),
            forall|i: int|
                0 <= i < self.collected().len() ==> {
                    &&& (#[trigger] r.payload.items()[i]).id() == self.collected()[i].record().id
                    &&& r.payload.items()[i].len()
                        == self.collected()[i].type_record().type_size
                },
    {
        let mut p = PacketCC::new(ParamsReadQuery::new(self.1, ParamQuerySet(self.0)));
        p.hdr.one_if_data_poll_maybe = 1;
        p
    }

    pub fn is_empty(&self) -> (r: bool)
        ensures
            r == (self.collected().len() == 0),
    {
        self.0.len() == 0
    }
}

} // verus!
