//! The bodies of the commands that need no catalog, and of their
//! responses, as seen in captured traffic.

use vstd::prelude::*;
use crate::packets::{PacketCC, QueryPacket, ReadArgs, ReadPayload, WritePayload};
use crate::value_format::DecodeError;
use crate::wire::{be16, be32, copy_range, read_be16, read_be32};

verus! {

/// The file name that the two download commands carry: two NUL bytes, the
/// length 14, the name `DOWNLOAD.SDB`, and two NUL bytes.
pub open spec fn download_name() -> Seq<u8> {
    seq![
        0x00u8, 0x00u8, 0x0eu8, 0x44u8, 0x4fu8, 0x57u8, 0x4eu8, 0x4cu8, 0x4fu8, 0x41u8, 0x44u8,
        0x2eu8, 0x53u8, 0x44u8, 0x42u8, 0x00u8, 0x00u8,
    ]
}

/// Appends an opcode and the file name of the database.
fn push_download_command(out: &mut Vec<u8>, opcode: u8)
    ensures
        final(out)@ == old(out)@ + (seq![opcode] + download_name()),
{
    out.push(opcode);
    out.push(0x00);
    out.push(0x00);
    out.push(0x0e);
    out.push(0x44);
    out.push(0x4f);
    out.push(0x57);
    out.push(0x4e);
    out.push(0x4c);
    out.push(0x4f);
    out.push(0x41);
    out.push(0x44);
    out.push(0x2e);
    out.push(0x53);
    out.push(0x44);
    out.push(0x42);
    out.push(0x00);
    out.push(0x00);
    assert(out@ =~= old(out)@ + (seq![opcode] + download_name()));
}

/// Asks the instrument for its version.
#[derive(Clone, Copy, Debug)]
pub struct InstrumentVersionQuery;

impl WritePayload for InstrumentVersionQuery {
    open spec fn writable(&self) -> bool {
        true
    }

    open spec fn body(&self) -> Seq<u8> {
        seq![0x11u8]
    }

    fn write_body(&self, out: &mut Vec<u8>) -> (ok: bool) {
        out.push(0x11);
        assert(out@ =~= old(out)@ + seq![0x11u8]);
        true
    }
}

impl QueryPacket for InstrumentVersionQuery {
    type Response = InstrumentVersionResponse;

    open spec fn is_read_arg(&self, arg: ()) -> bool {
        true
    }

    fn get_response_read_arg(&self) -> (r: ()) {
    }
}

/// The instrument's version: a status, the version of its database, a word
/// of unknown meaning, and a description that fills the rest of the body.
#[derive(Debug)]
pub struct InstrumentVersionResponse {
    pub error_code: u16,
    pub sdb_version: u32,
    pub u32_0: u32,
    pub str_descr: Vec<u8>,
}

impl ReadPayload for InstrumentVersionResponse {
    type Args = ();

    open spec fn reads(
        args: ReadArgs<()>,
        body: Seq<u8>,
        got: Result<(Self, usize), DecodeError>,
    ) -> bool {
        if body.len() < 10 || args.hdr.payload_len < 10 || body.len() < args.hdr.payload_len {
            got == Err::<(Self, usize), DecodeError>(DecodeError::Truncated)
        } else {
            match got {
                Ok((p, n)) => {
                    &&& p.error_code == be16(body, 0)
                    &&& p.sdb_version == be32(body, 2)
                    &&& p.u32_0 == be32(body, 6)
                    &&& p.str_descr@ == body.subrange(10, args.hdr.payload_len as int)
                    &&& n == args.hdr.payload_len
                },
                Err(_) => false,
            }
        }
    }

    fn read(args: ReadArgs<()>, body: &[u8]) -> (r: Result<(Self, usize), DecodeError>) {
        let len = args.hdr.payload_len as usize;
        if body.len() < 10 || len < 10 || body.len() < len {
            return Err(DecodeError::Truncated);
        }
        let error_code = match read_be16(body, 0) {
            Some(v) => v,
            None => 0,
        };
        let sdb_version = match read_be32(body, 2) {
            Some(v) => v,
            None => 0,
        };
        let u32_0 = match read_be32(body, 6) {
            Some(v) => v,
            None => 0,
        };
        let str_descr = copy_range(body, 10, len);
        Ok((InstrumentVersionResponse { error_code, sdb_version, u32_0, str_descr }, len))
    }
}

/// Asks for the size of the database.
#[derive(Clone, Copy, Debug)]
pub struct SdbVersionQuery {}

impl SdbVersionQuery {
    pub fn new() -> (r: Self)
        ensures
            r.body() == seq![0x34u8] + download_name(),
    {
        SdbVersionQuery {  }
    }

    /// The command as a frame: the header of a command, nothing behind the
    /// body.
    pub fn pkt() -> (r: PacketCC<Self>)
        ensures
            r.hdr == crate::packets::PacketCCHeader::spec_new_cmd(),
            r.tail@ == Seq::<u8>::empty(),
            r.frame() == Ok::<Seq<u8>, crate::packets::WireError>(
                crate::packets::PacketCCHeader::spec_new_cmd().wire(18) + (seq![0x34u8]
                    + download_name()),
            ),
    {
        PacketCC::new(Self::new())
    }
}

impl WritePayload for SdbVersionQuery {
    open spec fn writable(&self) -> bool {
        true
    }

    open spec fn body(&self) -> Seq<u8> {
        seq![0x34u8] + download_name()
    }

    fn write_body(&self, out: &mut Vec<u8>) -> (ok: bool) {
        push_download_command(out, 0x34);
        true
    }
}

impl QueryPacket for SdbVersionQuery {
    type Response = SdbVersionResponse;

    open spec fn is_read_arg(&self, arg: ()) -> bool {
        true
    }

    fn get_response_read_arg(&self) -> (r: ()) {
    }
}

/// The size of the database: a status, the size in bytes, and sixteen bytes
/// of unknown meaning.
#[derive(Clone, Copy, Debug)]
pub struct SdbVersionResponse {
    pub error_code: u16,
    pub sbd_size: u32,
    pub data: [u8; 16],
}

impl ReadPayload for SdbVersionResponse {
    type Args = ();

    open spec fn reads(
        args: ReadArgs<()>,
        body: Seq<u8>,
        got: Result<(Self, usize), DecodeError>,
    ) -> bool {
        if body.len() < 22 {
            got == Err::<(Self, usize), DecodeError>(DecodeError::Truncated)
        } else {
            match got {
                Ok((p, n)) => {
                    &&& p.error_code == be16(body, 0)
                    &&& p.sbd_size == be32(body, 2)
                    &&& p.data@ == body.subrange(6, 22)
                    &&& n == 22
                },
                Err(_) => false,
            }
        }
    }

    fn read(args: ReadArgs<()>, body: &[u8]) -> (r: Result<(Self, usize), DecodeError>) {
        if body.len() < 22 {
            return Err(DecodeError::Truncated);
        }
        let error_code = match read_be16(body, 0) {
            Some(v) => v,
            None => 0,
        };
        let sbd_size = match read_be32(body, 2) {
            Some(v) => v,
            None => 0,
        };
        let mut data: [u8; 16] = [0u8; 16];
        let mut i: usize = 0;
        while i < 16
            invariant
                i <= 16,
                body@.len() >= 22,
                forall|j: int| 0 <= j < i ==> data@[j] == body@[6 + j],
            decreases 16 - i,
        {
            data[i] = body[6 + i];
            i = i + 1;
        }
        assert(data@ =~= body@.subrange(6, 22));
        Ok((SdbVersionResponse { error_code, sbd_size, data }, 22))
    }
}

/// Asks the instrument to begin sending its database.
#[derive(Clone, Copy, Debug)]
pub struct SdbDownloadRequest {}

impl SdbDownloadRequest {
    pub fn new() -> (r: Self)
        ensures
            r.body() == seq![0x31u8] + download_name(),
    {
        SdbDownloadRequest {  }
    }

    /// The command as a frame: the header of a command, nothing behind the
    /// body.
    pub fn pkt() -> (r: PacketCC<Self>)
        ensures
            r.hdr == crate::packets::PacketCCHeader::spec_new_cmd(),
            r.tail@ == Seq::<u8>::empty(),
            r.frame() == Ok::<Seq<u8>, crate::packets::WireError>(
                crate::packets::PacketCCHeader::spec_new_cmd().wire(18) + (seq![0x31u8]
                    + download_name()),
            ),
    {
        PacketCC::new(Self::new())
    }
}

impl WritePayload for SdbDownloadRequest {
    open spec fn writable(&self) -> bool {
        true
    }

    open spec fn body(&self) -> Seq<u8> {
        seq![0x31u8] + download_name()
    }

    fn write_body(&self, out: &mut Vec<u8>) -> (ok: bool) {
        push_download_command(out, 0x31);
        true
    }
}

impl QueryPacket for SdbDownloadRequest {
    type Response = SdbDownload;

    open spec fn is_read_arg(&self, arg: ()) -> bool {
        true
    }

    fn get_response_read_arg(&self) -> (r: ()) {
    }
}

/// Asks the instrument for the next part of its database.
#[derive(Clone, Copy, Debug)]
pub struct SdbDownloadContinue;

impl SdbDownloadContinue {
    /// The command as a frame: the header of a command, nothing behind the
    /// body.
    pub fn pkt() -> (r: PacketCC<Self>)
        ensures
            r.hdr == crate::packets::PacketCCHeader::spec_new_cmd(),
            r.tail@ == Seq::<u8>::empty(),
            r.frame() == Ok::<Seq<u8>, crate::packets::WireError>(
                crate::packets::PacketCCHeader::spec_new_cmd().wire(1) + seq![0x32u8],
            ),
    {
        PacketCC::new(SdbDownloadContinue)
    }
}

impl WritePayload for SdbDownloadContinue {
    open spec fn writable(&self) -> bool {
        true
    }

    open spec fn body(&self) -> Seq<u8> {
        seq![0x32u8]
    }

    fn write_body(&self, out: &mut Vec<u8>) -> (ok: bool) {
        out.push(0x32);
        assert(out@ =~= old(out)@ + seq![0x32u8]);
        true
    }
}

impl QueryPacket for SdbDownloadContinue {
    type Response = SdbDownload;

    open spec fn is_read_arg(&self, arg: ()) -> bool {
        true
    }

    fn get_response_read_arg(&self) -> (r: ()) {
    }
}

/// One part of the database: whether more parts follow, the length of this
/// part, and its bytes.
#[derive(Debug)]
pub struct SdbDownload {
    /// `false` if this is the last packet
    pub continues: bool,
    pub pkt_sdb_part_len: u16,
    pub sdb_part: Vec<u8>,
}

impl ReadPayload for SdbDownload {
    type Args = ();

    open spec fn reads(
        args: ReadArgs<()>,
        body: Seq<u8>,
        got: Result<(Self, usize), DecodeError>,
    ) -> bool {
        if body.len() < 4 {
            got == Err::<(Self, usize), DecodeError>(DecodeError::Truncated)
        } else if be32(body, 0) > 1 {
            got == Err::<(Self, usize), DecodeError>(DecodeError::BadMarker)
        } else if body.len() < 6 || body.len() < 6 + be16(body, 4) {
            got == Err::<(Self, usize), DecodeError>(DecodeError::Truncated)
        } else {
            match got {
                Ok((p, n)) => {
                    &&& p.continues == (be32(body, 0) == 1)
                    &&& p.pkt_sdb_part_len == be16(body, 4)
                    &&& p.sdb_part@ == body.subrange(6, 6 + be16(body, 4))
                    &&& n == 6 + be16(body, 4)
                },
                Err(_) => false,
            }
        }
    }

    fn read(args: ReadArgs<()>, body: &[u8]) -> (r: Result<(Self, usize), DecodeError>) {
        let flag = match read_be32(body, 0) {
            Some(v) => v,
            None => {
                return Err(DecodeError::Truncated);
            },
        };
        if flag > 1 {
            return Err(DecodeError::BadMarker);
        }
        let pkt_sdb_part_len = match read_be16(body, 4) {
            Some(v) => v,
            None => {
                return Err(DecodeError::Truncated);
            },
        };
        let end: usize = 6 + pkt_sdb_part_len as usize;
        if body.len() < end {
            return Err(DecodeError::Truncated);
        }
        let sdb_part = copy_range(body, 6, end);
        Ok((SdbDownload { continues: flag == 1, pkt_sdb_part_len, sdb_part }, end))
    }
}

} // verus!
