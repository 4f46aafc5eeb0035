//! The conversation with the instrument, as far as it is decided here.
//!
//! The socket itself is the caller's. What this module holds is every
//! decision of the conversation: in which order the parts of one exchange
//! follow each other, how many bytes to wait for, what the acknowledgement
//! looks like, and when the download of the database continues, ends or is
//! given up. Each decision is a function from the state of the conversation
//! and what has just happened to the next state and what to do next.

use vstd::prelude::*;
use crate::packets::{PacketCCHeader, WireError};

verus! {

/// The TCP port on which the instrument listens.
pub const PORT: u16 = 1202;

/// The time to wait for the connection, in seconds.
pub const CONNECT_TIMEOUT_SECS: u64 = 1;

/// The time to wait for each answer, in seconds.
pub const READ_TIMEOUT_SECS: u64 = 2;

/// The number of bytes of an acknowledgement, either way.
pub const ACK_LEN: usize = 24;

/// The frame that the client sends after every exchange.
pub open spec fn ack_request() -> Seq<u8> {
    seq![
        0x66u8, 0x66u8, 0x00u8, 0x01u8, 0x00u8, 0x00u8, 0x00u8, 0x00u8, 0x00u8, 0x00u8, 0x00u8,
        0x00u8, 0x00u8, 0x00u8, 0x00u8, 0x00u8, 0x00u8, 0x00u8, 0x00u8, 0x01u8, 0x02u8, 0x00u8,
        0x00u8, 0x04u8,
    ]
}

/// The frame with which the instrument is expected to answer it.
pub open spec fn ack_reply() -> Seq<u8> {
    seq![
        0x66u8, 0x66u8, 0x00u8, 0x00u8, 0x00u8, 0x00u8, 0x00u8, 0x00u8, 0x00u8, 0x00u8, 0x00u8,
        0x00u8, 0x00u8, 0x00u8, 0x00u8, 0x19u8, 0x00u8, 0x00u8, 0x00u8, 0x00u8, 0x00u8, 0x00u8,
        0x00u8, 0x04u8,
    ]
}

/// The frame that the client sends after every exchange.
pub fn ack_frame() -> (r: Vec<u8>)
    ensures
        r@ == ack_request(),
{
    let r = vec![
        0x66u8, 0x66u8, 0x00u8, 0x01u8, 0x00u8, 0x00u8, 0x00u8, 0x00u8, 0x00u8, 0x00u8, 0x00u8,
        0x00u8, 0x00u8, 0x00u8, 0x00u8, 0x00u8, 0x00u8, 0x00u8, 0x00u8, 0x01u8, 0x02u8, 0x00u8,
        0x00u8, 0x04u8,
    ];
    assert(r@ =~= ack_request());
    r
}

/// Whether the instrument answered the acknowledgement as expected.
pub fn is_expected_ack(reply: &[u8]) -> (r: bool)
    ensures
        r == (reply@ == ack_reply()),
{
    if reply.len() != ACK_LEN {
        return false;
    }
    let expected = vec![
        0x66u8, 0x66u8, 0x00u8, 0x00u8, 0x00u8, 0x00u8, 0x00u8, 0x00u8, 0x00u8, 0x00u8, 0x00u8,
        0x00u8, 0x00u8, 0x00u8, 0x00u8, 0x19u8, 0x00u8, 0x00u8, 0x00u8, 0x00u8, 0x00u8, 0x00u8,
        0x00u8, 0x04u8,
    ];
    assert(expected@ =~= ack_reply());
    let mut i: usize = 0;
    while i < ACK_LEN
        invariant
            i <= ACK_LEN,
            reply@.len() == ACK_LEN,
            expected@ == ack_reply(),
            forall|j: int| 0 <= j < i ==> reply@[j] == expected@[j],
        decreases ACK_LEN - i,
    {
        if reply[i] != expected[i] {
            return false;
        }
        i = i + 1;
    }
    assert(reply@ =~= ack_reply());
    true
}

/// Where one exchange stands.
#[derive(Copy, Clone, Debug, PartialEq, Eq, Structural)]
pub enum ExchangeState {
    /// Nothing has been sent.
    Idle,
    /// The request is out; the header of the response is awaited.
    AwaitingHeader,
    /// The header is in; the body of the response is awaited.
    AwaitingBody { payload_len: u16 },
    /// The response is in and in order. The acknowledgement is out; the
    /// instrument's answer to it is awaited.
    AwaitingAck,
    /// The response was at fault. The acknowledgement is out all the same;
    /// the instrument's answer to it is awaited.
    AwaitingAckAfterFault { fault: WireError },
    /// The exchange is complete.
    Done,
    /// The exchange has failed. The connection should be dropped.
    Failed,
}

/// What has just happened in an exchange.
#[derive(Copy, Clone, Debug, PartialEq, Eq, Structural)]
pub enum ExchangeEvent {
    /// The caller wants to send a request.
    Start,
    /// The first 24 bytes of the response have arrived and are this
    /// header.
    Header(PacketCCHeader),
    /// The first 24 bytes of the response have arrived and are no header.
    BadHeader(WireError),
    /// Bytes of the body have arrived, `len` in number.
    Body { len: usize },
    /// The answer to the acknowledgement has arrived; `expected` says
    /// whether it is the one that is expected.
    Ack { expected: bool },
}

/// What to do next in an exchange.
#[derive(Copy, Clone, Debug, PartialEq, Eq, Structural)]
pub enum ExchangeAction {
    /// Send the request, then wait for the 24 bytes of a header.
    SendRequest,
    /// Wait for this many bytes of body.
    ReadBody(u16),
    /// Send the acknowledgement, then wait for the 24 bytes of its answer.
    SendAck,
    /// Hand the response to the caller. `ack_ok` says whether the
    /// instrument's acknowledgement was the expected one; if it was not,
    /// that is worth a note and nothing more.
    Deliver { ack_ok: bool },
    /// Give up and report the fault.
    Fail(WireError),
}

/// The next state of an exchange and what to do next.
pub open spec fn spec_exchange_step(state: ExchangeState, event: ExchangeEvent) -> (
    ExchangeState,
    ExchangeAction,
) {
    match (state, event) {
        (ExchangeState::Idle, ExchangeEvent::Start) => (
            ExchangeState::AwaitingHeader,
            ExchangeAction::SendRequest,
        ),
        (ExchangeState::AwaitingHeader, ExchangeEvent::Header(hdr)) => (
            ExchangeState::AwaitingBody { payload_len: hdr.payload_len },
            ExchangeAction::ReadBody(hdr.payload_len),
        ),
        (ExchangeState::AwaitingHeader, ExchangeEvent::BadHeader(e)) => (
            ExchangeState::AwaitingAckAfterFault { fault: e },
            ExchangeAction::SendAck,
        ),
        (ExchangeState::AwaitingBody { payload_len }, ExchangeEvent::Body { len }) => (
            if len == payload_len {
                ExchangeState::AwaitingAck
            } else {
                ExchangeState::AwaitingAckAfterFault { fault: WireError::BadLength }
            },
            ExchangeAction::SendAck,
        ),
        (ExchangeState::AwaitingAck, ExchangeEvent::Ack { expected }) => (
            ExchangeState::Done,
            ExchangeAction::Deliver { ack_ok: expected },
        ),
        (ExchangeState::AwaitingAckAfterFault { fault }, ExchangeEvent::Ack { expected }) => (
            ExchangeState::Failed,
            ExchangeAction::Fail(fault),
        ),
        _ => (ExchangeState::Failed, ExchangeAction::Fail(WireError::OutOfOrder)),
    }
}

/// Decides how an exchange goes on.
pub fn exchange_step(state: ExchangeState, event: ExchangeEvent) -> (r: (
    ExchangeState,
    ExchangeAction,
))
    ensures
        r == spec_exchange_step(state, event),
{
    match (state, event) {
        (ExchangeState::Idle, ExchangeEvent::Start) => (
            ExchangeState::AwaitingHeader,
            ExchangeAction::SendRequest,
        ),
        (ExchangeState::AwaitingHeader, ExchangeEvent::Header(hdr)) => (
            ExchangeState::AwaitingBody { payload_len: hdr.payload_len },
            ExchangeAction::ReadBody(hdr.payload_len),
        ),
        (ExchangeState::AwaitingHeader, ExchangeEvent::BadHeader(e)) => (
            ExchangeState::AwaitingAckAfterFault { fault: e },
            ExchangeAction::SendAck,
        ),
        (ExchangeState::AwaitingBody { payload_len }, ExchangeEvent::Body { len }) => {
            if len == payload_len as usize {
                (ExchangeState::AwaitingAck, ExchangeAction::SendAck)
            } else {
                (
                    ExchangeState::AwaitingAckAfterFault { fault: WireError::BadLength },
                    ExchangeAction::SendAck,
                )
            }
        },
        (ExchangeState::AwaitingAck, ExchangeEvent::Ack { expected }) => (
            ExchangeState::Done,
            ExchangeAction::Deliver { ack_ok: expected },
        ),
        (ExchangeState::AwaitingAckAfterFault { fault }, ExchangeEvent::Ack { expected }) => (
            ExchangeState::Failed,
            ExchangeAction::Fail(fault),
        ),
        _ => (ExchangeState::Failed, ExchangeAction::Fail(WireError::OutOfOrder)),
    }
}

/// A request leaves the client only when no exchange is under way, and a
/// response is handed out only after its acknowledgement has been answered.
pub proof fn law_one_exchange_at_a_time(state: ExchangeState, event: ExchangeEvent)
    ensures
        spec_exchange_step(state, event).1 == ExchangeAction::SendRequest ==> state
            == ExchangeState::Idle,
        spec_exchange_step(state, event).1 is Deliver ==> state == ExchangeState::AwaitingAck
            && event is Ack,
        spec_exchange_step(state, event).0 == ExchangeState::Done ==> spec_exchange_step(
            state,
            event,
        ).1 is Deliver,
{
}

/// The commands of the download.
#[derive(Copy, Clone, Debug, PartialEq, Eq, Structural)]
pub enum DownloadQuery {
    /// Ask for the size of the database.
    Version,
    /// Ask for the first part.
    Begin,
    /// Ask for the next part.
    Continue,
}

/// Where the download of the database stands.
#[derive(Copy, Clone, Debug, PartialEq, Eq, Structural)]
pub enum DownloadState {
    Idle,
    /// The size of the database has been asked for.
    AwaitingVersion,
    /// The first part has been asked for.
    AwaitingFirst { sdb_len: u32 },
    /// `received` parts are stored; more than `limit` will not be taken.
    Streaming { received: u64, limit: u64 },
    Done,
    Failed,
}

/// What has just happened in the download.
#[derive(Copy, Clone, Debug, PartialEq, Eq, Structural)]
pub enum DownloadEvent {
    /// The caller wants the database.
    Start,
    /// The instrument has stated the size of its database.
    Version { sbd_size: u32 },
    /// A part of `len` bytes has arrived; `continues` says whether the
    /// instrument has more.
    Part { continues: bool, len: u16 },
}

/// What to do next in the download.
#[derive(Copy, Clone, Debug, PartialEq, Eq, Structural)]
pub enum DownloadAction {
    /// Send this command in an exchange of its own.
    Query(DownloadQuery),
    /// Store the part that has arrived, then ask for the next.
    StoreAndContinue,
    /// Store the part that has arrived; the database is complete.
    StoreAndFinish,
    /// Store the part that has arrived, then give up and report the fault.
    StoreAndFail(WireError),
    /// Give up and report the fault.
    Fail(WireError),
}

impl DownloadAction {
    /// Whether the action stores the part that has just arrived.
    pub open spec fn stores(self) -> bool {
        self == DownloadAction::StoreAndContinue || self == DownloadAction::StoreAndFinish
            || self is StoreAndFail
    }
}

/// The most parts that are taken for a database of `sdb_len` bytes whose
/// first part has `first_len` bytes: twice the number that parts of that
/// length would come to.
pub open spec fn part_limit(sdb_len: u32, first_len: u16) -> int
    recommends
        first_len > 0,
{
    2 * (sdb_len as int / first_len as int + 1)
}

/// The next state of the download and what to do next.
pub open spec fn spec_download_step(state: DownloadState, event: DownloadEvent) -> (
    DownloadState,
    DownloadAction,
) {
    match (state, event) {
        (DownloadState::Idle, DownloadEvent::Start) => (
            DownloadState::AwaitingVersion,
            DownloadAction::Query(DownloadQuery::Version),
        ),
        (DownloadState::AwaitingVersion, DownloadEvent::Version { sbd_size }) => (
            DownloadState::AwaitingFirst { sdb_len: sbd_size },
            DownloadAction::Query(DownloadQuery::Begin),
        ),
        (DownloadState::AwaitingFirst { sdb_len }, DownloadEvent::Part { continues, len }) => {
            if len == 0 {
                (DownloadState::Failed, DownloadAction::Fail(WireError::BadLength))
            } else if continues {
                (
                    DownloadState::Streaming {
                        received: 1,
                        limit: part_limit(sdb_len, len) as u64,
                    },
                    DownloadAction::StoreAndContinue,
                )
            } else {
                (DownloadState::Done, DownloadAction::StoreAndFinish)
            }
        },
        (DownloadState::Streaming { received, limit }, DownloadEvent::Part { continues, len }) => {
            if received >= limit {
                (DownloadState::Failed, DownloadAction::StoreAndFail(WireError::BadLength))
            } else if continues {
                (
                    DownloadState::Streaming { received: (received + 1) as u64, limit },
                    DownloadAction::StoreAndContinue,
                )
            } else {
                (DownloadState::Done, DownloadAction::StoreAndFinish)
            }
        },
        _ => (DownloadState::Failed, DownloadAction::Fail(WireError::OutOfOrder)),
    }
}

/// Decides how the download goes on.
pub fn download_step(state: DownloadState, event: DownloadEvent) -> (r: (
    DownloadState,
    DownloadAction,
))
    ensures
        r == spec_download_step(state, event),
{
    match (state, event) {
        (DownloadState::Idle, DownloadEvent::Start) => (
            DownloadState::AwaitingVersion,
            DownloadAction::Query(DownloadQuery::Version),
        ),
        (DownloadState::AwaitingVersion, DownloadEvent::Version { sbd_size }) => (
            DownloadState::AwaitingFirst { sdb_len: sbd_size },
            DownloadAction::Query(DownloadQuery::Begin),
        ),
        (DownloadState::AwaitingFirst { sdb_len }, DownloadEvent::Part { continues, len }) => {
            if len == 0 {
                (DownloadState::Failed, DownloadAction::Fail(WireError::BadLength))
            } else if continues {
                let parts: u64 = (sdb_len / (len as u32)) as u64 + 1;
                (
                    DownloadState::Streaming { received: 1, limit: 2 * parts },
                    DownloadAction::StoreAndContinue,
                )
            } else {
                (DownloadState::Done, DownloadAction::StoreAndFinish)
            }
        },
        (DownloadState::Streaming { received, limit }, DownloadEvent::Part { continues, len }) => {
            if received >= limit {
                (DownloadState::Failed, DownloadAction::StoreAndFail(WireError::BadLength))
            } else if continues {
                (
                    DownloadState::Streaming { received: received + 1, limit },
                    DownloadAction::StoreAndContinue,
                )
            } else {
                (DownloadState::Done, DownloadAction::StoreAndFinish)
            }
        },
        _ => (DownloadState::Failed, DownloadAction::Fail(WireError::OutOfOrder)),
    }
}

/// The event that a part with these bytes is.
pub open spec fn part_event(part: (bool, Seq<u8>)) -> DownloadEvent {
    DownloadEvent::Part { continues: part.0, len: part.1.len() as u16 }
}

/// Where the download stands after the given parts have arrived one after
/// the other, each with its flag, and what has been stored by then.
pub open spec fn stream(state: DownloadState, parts: Seq<(bool, Seq<u8>)>) -> (
    DownloadState,
    Seq<Seq<u8>>,
)
    decreases parts.len(),
{
    if parts.len() == 0 {
        (state, Seq::empty())
    } else {
        let (before, stored) = stream(state, parts.drop_last());
        let (after, action) = spec_download_step(before, part_event(parts.last()));
        (
            after,
            if action.stores() {
                stored.push(parts.last().1)
            } else {
                stored
            },
        )
    }
}

/// While the instrument says that more parts follow, and the limit is not
/// reached, every part is stored and the next one is asked for.
pub proof fn lemma_stream_goes_on(sdb_len: u32, parts: Seq<(bool, Seq<u8>)>, k: int)
    requires
        1 <= k <= parts.len(),
        0 < parts[0].1.len() <= u16::MAX,
        forall|i: int| 0 <= i < k ==> (#[trigger] parts[i]).0 && parts[i].1.len() <= u16::MAX,
        k <= part_limit(sdb_len, parts[0].1.len() as u16),
    ensures
        stream(DownloadState::AwaitingFirst { sdb_len }, parts.subrange(0, k)) == (
            DownloadState::Streaming {
                received: k as u64,
                limit: part_limit(sdb_len, parts[0].1.len() as u16) as u64,
            },
            Seq::new(k as nat, |i: int| parts[i].1),
        ),
    decreases k,
{
    let start = DownloadState::AwaitingFirst { sdb_len };
    let head = parts.subrange(0, k);
    assert(head.drop_last() =~= parts.subrange(0, k - 1));
    assert(head.last() == parts[k - 1]);
    let limit = part_limit(sdb_len, parts[0].1.len() as u16);
    assert(2 <= limit <= 2 * (u32::MAX + 1)) by (nonlinear_arith)
        requires
            limit == 2 * (sdb_len as int / (parts[0].1.len() as u16) as int + 1),
            0 < (parts[0].1.len() as u16),
            0 <= sdb_len <= u32::MAX,
    ;
    if k == 1 {
        assert(parts.subrange(0, 0) =~= Seq::<(bool, Seq<u8>)>::empty());
        assert(stream(start, parts.subrange(0, 0)) == (start, Seq::<Seq<u8>>::empty()));
        assert(stream(start, head).1 =~= Seq::new(1, |i: int| parts[i].1));
    } else {
        lemma_stream_goes_on(sdb_len, parts, k - 1);
        assert(stream(start, head).1 =~= Seq::new(k as nat, |i: int| parts[i].1));
    }
}

/// A download in which the instrument sends its parts, says of each but the
/// last that more follow, and stays within the limit, ends complete: every
/// part has been stored, once and in order, and nothing else.
pub proof fn law_download_completes(sdb_len: u32, parts: Seq<(bool, Seq<u8>)>)
    requires
        parts.len() >= 1,
        0 < parts[0].1.len(),
        forall|i: int| 0 <= i < parts.len() ==> (#[trigger] parts[i]).1.len() <= u16::MAX,
        forall|i: int| 0 <= i < parts.len() - 1 ==> (#[trigger] parts[i]).0,
        !parts.last().0,
        parts.len() <= part_limit(sdb_len, parts[0].1.len() as u16),
    ensures
        stream(DownloadState::AwaitingFirst { sdb_len }, parts) == (
            DownloadState::Done,
            Seq::new(parts.len(), |i: int| parts[i].1),
        ),
{
    let start = DownloadState::AwaitingFirst { sdb_len };
    let n = parts.len() - 1;
    if n == 0 {
        assert(parts.drop_last() =~= Seq::<(bool, Seq<u8>)>::empty());
        assert(stream(start, parts.drop_last()) == (start, Seq::<Seq<u8>>::empty()));
        assert(stream(start, parts).1 =~= Seq::new(parts.len(), |i: int| parts[i].1));
    } else {
        lemma_stream_goes_on(sdb_len, parts, n);
        assert(parts.drop_last() =~= parts.subrange(0, n));
        assert(stream(start, parts).1 =~= Seq::new(parts.len(), |i: int| parts[i].1));
    }
}

} // verus!
