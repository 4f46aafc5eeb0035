use leybold_opc_rs::packets::{PacketCCHeader, WireError};
use leybold_opc_rs::plc_connection::{
    ack_frame, download_step, exchange_step, is_expected_ack, DownloadAction, DownloadEvent,
    DownloadQuery, DownloadState, ExchangeAction, ExchangeEvent, ExchangeState, ACK_LEN,
    CONNECT_TIMEOUT_SECS, PORT, READ_TIMEOUT_SECS,
};

const ACK_REQUEST: [u8; 24] = [
    0x66, 0x66, 0x00, 0x01, 0, 0, 0, 0, 0, 0, 0, 0, 0, 0, 0, 0, 0x00, 0x00, 0x00, 0x01, 0x02,
    0x00, 0x00, 0x04,
];

const ACK_REPLY: [u8; 24] = [
    0x66, 0x66, 0x00, 0x00, 0, 0, 0, 0, 0, 0, 0, 0, 0, 0, 0, 0x19, 0x00, 0x00, 0x00, 0x00, 0x00,
    0x00, 0x00, 0x04,
];

#[test]
fn endpoint_and_timeouts() {
    assert_eq!(PORT, 1202);
    assert_eq!(CONNECT_TIMEOUT_SECS, 1);
    assert_eq!(READ_TIMEOUT_SECS, 2);
    assert_eq!(ACK_LEN, 24);
}

#[test]
fn acknowledgement_frames() {
    assert_eq!(ack_frame(), ACK_REQUEST.to_vec());
    assert!(is_expected_ack(&ACK_REPLY));
    assert!(!is_expected_ack(&ACK_REQUEST));
    assert!(!is_expected_ack(&ACK_REPLY[..23]));
    assert!(!is_expected_ack(&[]));
    let mut longer = ACK_REPLY.to_vec();
    longer.push(0);
    assert!(!is_expected_ack(&longer));
    for i in 0..24 {
        let mut other = ACK_REPLY;
        other[i] ^= 1;
        assert!(!is_expected_ack(&other));
    }
}

fn header(payload_len: u16) -> PacketCCHeader {
    PacketCCHeader { payload_len, len2: payload_len, b17: 0x27, ..PacketCCHeader::default() }
}

#[test]
fn an_exchange_runs_request_response_acknowledgement() {
    let (s, a) = exchange_step(ExchangeState::Idle, ExchangeEvent::Start);
    assert_eq!((s, a), (ExchangeState::AwaitingHeader, ExchangeAction::SendRequest));
    let (s, a) = exchange_step(s, ExchangeEvent::Header(header(11)));
    assert_eq!(s, ExchangeState::AwaitingBody { payload_len: 11 });
    assert_eq!(a, ExchangeAction::ReadBody(11));
    let (s, a) = exchange_step(s, ExchangeEvent::Body { len: 11 });
    assert_eq!((s, a), (ExchangeState::AwaitingAck, ExchangeAction::SendAck));
    let (s, a) = exchange_step(s, ExchangeEvent::Ack { expected: true });
    assert_eq!((s, a), (ExchangeState::Done, ExchangeAction::Deliver { ack_ok: true }));
}

#[test]
fn an_unexpected_acknowledgement_is_not_fatal() {
    let (s, a) = exchange_step(ExchangeState::AwaitingAck, ExchangeEvent::Ack { expected: false });
    assert_eq!((s, a), (ExchangeState::Done, ExchangeAction::Deliver { ack_ok: false }));
}

#[test]
fn a_faulty_response_is_acknowledged_and_then_reported() {
    let (s, a) =
        exchange_step(ExchangeState::AwaitingHeader, ExchangeEvent::BadHeader(WireError::BadMagic));
    assert_eq!(s, ExchangeState::AwaitingAckAfterFault { fault: WireError::BadMagic });
    assert_eq!(a, ExchangeAction::SendAck);
    let (s, a) = exchange_step(s, ExchangeEvent::Ack { expected: true });
    assert_eq!((s, a), (ExchangeState::Failed, ExchangeAction::Fail(WireError::BadMagic)));

    let (s, a) = exchange_step(
        ExchangeState::AwaitingBody { payload_len: 4 },
        ExchangeEvent::Body { len: 3 },
    );
    assert_eq!(s, ExchangeState::AwaitingAckAfterFault { fault: WireError::BadLength });
    assert_eq!(a, ExchangeAction::SendAck);
    let (s, a) = exchange_step(s, ExchangeEvent::Ack { expected: false });
    assert_eq!((s, a), (ExchangeState::Failed, ExchangeAction::Fail(WireError::BadLength)));
}

#[test]
fn an_empty_body_is_a_body() {
    let (s, a) = exchange_step(ExchangeState::AwaitingHeader, ExchangeEvent::Header(header(0)));
    assert_eq!(a, ExchangeAction::ReadBody(0));
    let (s, _) = exchange_step(s, ExchangeEvent::Body { len: 0 });
    assert_eq!(s, ExchangeState::AwaitingAck);
}

#[test]
fn nothing_is_sent_while_an_exchange_is_under_way() {
    let states = [
        ExchangeState::AwaitingHeader,
        ExchangeState::AwaitingBody { payload_len: 1 },
        ExchangeState::AwaitingAck,
        ExchangeState::AwaitingAckAfterFault { fault: WireError::BadLength },
        ExchangeState::Done,
        ExchangeState::Failed,
    ];
    for s in states {
        let out = exchange_step(s, ExchangeEvent::Start);
        assert_eq!(out, (ExchangeState::Failed, ExchangeAction::Fail(WireError::OutOfOrder)));
    }
    let events = [
        ExchangeEvent::Header(header(1)),
        ExchangeEvent::BadHeader(WireError::BadMagic),
        ExchangeEvent::Body { len: 1 },
        ExchangeEvent::Ack { expected: true },
    ];
    for e in events {
        let out = exchange_step(ExchangeState::Idle, e);
        assert_eq!(out, (ExchangeState::Failed, ExchangeAction::Fail(WireError::OutOfOrder)));
    }
    let out = exchange_step(ExchangeState::AwaitingHeader, ExchangeEvent::Body { len: 1 });
    assert_eq!(out.1, ExchangeAction::Fail(WireError::OutOfOrder));
    let out = exchange_step(ExchangeState::AwaitingAck, ExchangeEvent::Header(header(1)));
    assert_eq!(out.1, ExchangeAction::Fail(WireError::OutOfOrder));
}

/// Plays the instrument: answers the commands of a download with the given
/// parts and counts what the client does.
struct Mock {
    parts: Vec<(bool, Vec<u8>)>,
    next: usize,
    sink: Vec<Vec<u8>>,
    acks: usize,
    chunk_acks: usize,
    queries: Vec<DownloadQuery>,
}

impl Mock {
    fn new(parts: Vec<(bool, Vec<u8>)>) -> Self {
        Mock { parts, next: 0, sink: Vec::new(), acks: 0, chunk_acks: 0, queries: Vec::new() }
    }

    /// One full exchange, driven by the exchange's own decisions.
    fn exchange(&mut self, body_len: u16) {
        let (s, a) = exchange_step(ExchangeState::Idle, ExchangeEvent::Start);
        assert_eq!(a, ExchangeAction::SendRequest);
        let (s, a) = exchange_step(s, ExchangeEvent::Header(header(body_len)));
        assert_eq!(a, ExchangeAction::ReadBody(body_len));
        let (s, a) = exchange_step(s, ExchangeEvent::Body { len: body_len as usize });
        assert_eq!(a, ExchangeAction::SendAck);
        self.acks += 1;
        let (s, a) = exchange_step(s, ExchangeEvent::Ack { expected: true });
        assert_eq!(a, ExchangeAction::Deliver { ack_ok: true });
        assert_eq!(s, ExchangeState::Done);
    }

    fn run(&mut self, sdb_len: u32) -> (DownloadState, DownloadAction) {
        let (mut state, mut action) = download_step(DownloadState::Idle, DownloadEvent::Start);
        let mut pending: Option<Vec<u8>> = None;
        loop {
            match action {
                DownloadAction::Query(q) => {
                    self.queries.push(q);
                    let event = match q {
                        DownloadQuery::Version => {
                            self.exchange(22);
                            DownloadEvent::Version { sbd_size: sdb_len }
                        }
                        DownloadQuery::Begin | DownloadQuery::Continue => self.send_part(&mut pending),
                    };
                    let out = download_step(state, event);
                    state = out.0;
                    action = out.1;
                }
                DownloadAction::StoreAndContinue => {
                    self.sink.push(pending.take().unwrap());
                    self.queries.push(DownloadQuery::Continue);
                    let event = self.send_part(&mut pending);
                    let out = download_step(state, event);
                    state = out.0;
                    action = out.1;
                }
                DownloadAction::StoreAndFinish | DownloadAction::StoreAndFail(_) => {
                    self.sink.push(pending.take().unwrap());
                    return (state, action);
                }
                DownloadAction::Fail(_) => return (state, action),
            }
        }
    }

    fn send_part(&mut self, pending: &mut Option<Vec<u8>>) -> DownloadEvent {
        let (continues, data) = self.parts[self.next % self.parts.len()].clone();
        self.next += 1;
        self.exchange(6 + data.len() as u16);
        self.chunk_acks += 1;
        let len = data.len() as u16;
        *pending = Some(data);
        DownloadEvent::Part { continues, len }
    }
}

#[test]
fn two_parts_of_a_kilobyte_are_stored_and_acknowledged() {
    let first: Vec<u8> = (0..600u32).map(|i| i as u8).collect();
    let second: Vec<u8> = (0..424u32).map(|i| (i * 7) as u8).collect();
    let mut mock = Mock::new(vec![(true, first.clone()), (false, second.clone())]);
    let (state, action) = mock.run(1024);
    assert_eq!(state, DownloadState::Done);
    assert_eq!(action, DownloadAction::StoreAndFinish);
    assert_eq!(mock.sink.len(), 2);
    let all: Vec<u8> = mock.sink.concat();
    assert_eq!(all.len(), 1024);
    assert_eq!(all, [first, second].concat());
    // one acknowledgement for each part, and one for asking the size
    assert_eq!(mock.chunk_acks, 2);
    assert_eq!(mock.acks, 3);
    assert_eq!(
        mock.queries,
        vec![DownloadQuery::Version, DownloadQuery::Begin, DownloadQuery::Continue]
    );
}

#[test]
fn every_part_is_stored_once_and_in_order() {
    for n in [0usize, 1, 2, 5, 19] {
        let mut parts: Vec<(bool, Vec<u8>)> =
            (0..n).map(|i| (true, vec![i as u8; 10])).collect();
        parts.push((false, vec![0xEE; 3]));
        let payload: Vec<u8> = parts.iter().flat_map(|p| p.1.clone()).collect();
        let mut mock = Mock::new(parts);
        let (state, _) = mock.run(payload.len() as u32);
        assert_eq!(state, DownloadState::Done);
        assert_eq!(mock.sink.len(), n + 1);
        assert_eq!(mock.sink.concat(), payload);
        assert_eq!(mock.chunk_acks, n + 1);
    }
}

#[test]
fn a_single_part_completes_the_download() {
    let (s, a) = download_step(
        DownloadState::AwaitingFirst { sdb_len: 5 },
        DownloadEvent::Part { continues: false, len: 5 },
    );
    assert_eq!((s, a), (DownloadState::Done, DownloadAction::StoreAndFinish));
}

#[test]
fn the_limit_is_twice_the_expected_number_of_parts() {
    let (s, a) = download_step(
        DownloadState::AwaitingFirst { sdb_len: 1024 },
        DownloadEvent::Part { continues: true, len: 100 },
    );
    // 1024 / 100 + 1 = 11 parts are expected
    assert_eq!(s, DownloadState::Streaming { received: 1, limit: 22 });
    assert_eq!(a, DownloadAction::StoreAndContinue);
    let (s, _) = download_step(
        DownloadState::AwaitingFirst { sdb_len: 0 },
        DownloadEvent::Part { continues: true, len: 1 },
    );
    assert_eq!(s, DownloadState::Streaming { received: 1, limit: 2 });
    let (s, _) = download_step(
        DownloadState::AwaitingFirst { sdb_len: u32::MAX },
        DownloadEvent::Part { continues: true, len: 1 },
    );
    assert_eq!(s, DownloadState::Streaming { received: 1, limit: 8589934592 });
    let (s, _) = download_step(
        DownloadState::AwaitingFirst { sdb_len: 65535 },
        DownloadEvent::Part { continues: true, len: 65535 },
    );
    assert_eq!(s, DownloadState::Streaming { received: 1, limit: 4 });
}

#[test]
fn a_stuck_instrument_is_given_up() {
    // the instrument says "more" for ever
    let mut mock = Mock::new(vec![(true, vec![1; 100])]);
    let (state, action) = mock.run(250);
    assert_eq!(state, DownloadState::Failed);
    assert_eq!(action, DownloadAction::StoreAndFail(WireError::BadLength));
    // 250 / 100 + 1 = 3 parts expected, six taken, the seventh is one too many
    assert_eq!(mock.sink.len(), 7);
    let (s, a) = download_step(
        DownloadState::Streaming { received: 5, limit: 6 },
        DownloadEvent::Part { continues: false, len: 1 },
    );
    assert_eq!((s, a), (DownloadState::Done, DownloadAction::StoreAndFinish));
    let (s, a) = download_step(
        DownloadState::Streaming { received: 6, limit: 6 },
        DownloadEvent::Part { continues: false, len: 1 },
    );
    assert_eq!(s, DownloadState::Failed);
    assert_eq!(a, DownloadAction::StoreAndFail(WireError::BadLength));
}

#[test]
fn an_empty_first_part_gives_no_estimate() {
    for continues in [false, true] {
        let (s, a) = download_step(
            DownloadState::AwaitingFirst { sdb_len: 10 },
            DownloadEvent::Part { continues, len: 0 },
        );
        assert_eq!((s, a), (DownloadState::Failed, DownloadAction::Fail(WireError::BadLength)));
    }
    // later parts may be empty
    let (s, a) = download_step(
        DownloadState::Streaming { received: 1, limit: 4 },
        DownloadEvent::Part { continues: true, len: 0 },
    );
    assert_eq!(s, DownloadState::Streaming { received: 2, limit: 4 });
    assert_eq!(a, DownloadAction::StoreAndContinue);
}

#[test]
fn download_events_out_of_order_fail() {
    let fail = (DownloadState::Failed, DownloadAction::Fail(WireError::OutOfOrder));
    assert_eq!(download_step(DownloadState::Idle, DownloadEvent::Version { sbd_size: 1 }), fail);
    assert_eq!(
        download_step(DownloadState::Idle, DownloadEvent::Part { continues: false, len: 1 }),
        fail
    );
    assert_eq!(download_step(DownloadState::AwaitingVersion, DownloadEvent::Start), fail);
    assert_eq!(download_step(DownloadState::Done, DownloadEvent::Start), fail);
    assert_eq!(
        download_step(DownloadState::Done, DownloadEvent::Part { continues: false, len: 1 }),
        fail
    );
    assert_eq!(
        download_step(DownloadState::AwaitingFirst { sdb_len: 1 }, DownloadEvent::Start),
        fail
    );
    assert_eq!(
        download_step(DownloadState::AwaitingVersion, DownloadEvent::Version { sbd_size: 9 }),
        (DownloadState::AwaitingFirst { sdb_len: 9 }, DownloadAction::Query(DownloadQuery::Begin))
    );
}
