use tftpd::dispatch::{prepare_read, prepare_write};
use tftpd::engine::{Action, RrqTransfer, WrqTransfer};
use tftpd::packet::Packet;

fn pairs(ps: &[(&[u8], &[u8])]) -> Vec<(Vec<u8>, Vec<u8>)> {
    ps.iter().map(|(n, v)| (n.to_vec(), v.to_vec())).collect()
}

/// Drives a read session to completion, acknowledging every block, and
/// returns the payload of every data packet sent.
fn run_read(mut t: RrqTransfer) -> Vec<Vec<u8>> {
    let mut sent: Vec<Vec<u8>> = Vec::new();
    let (mut block, mut payload) = t.current_data();
    loop {
        sent.push(payload.clone());
        match t.on_ack(block) {
            Action::SendData { block: b, payload: p } => {
                block = b;
                payload = p;
            }
            Action::Finish => break,
            other => panic!("unexpected action {:?}", other),
        }
        assert!(sent.len() <= 70000, "transfer does not terminate");
    }
    assert!(t.finished());
    sent
}

#[test]
fn single_short_block() {
    let t = RrqTransfer::begin(b"hi\n".to_vec(), 512, false);
    let (block, payload) = t.current_data();
    assert_eq!(block, 1);
    assert_eq!(payload, b"hi\n");
    let sent = run_read(t);
    assert_eq!(sent.len(), 1);
}

#[test]
fn empty_file_sends_one_empty_block() {
    let t = RrqTransfer::begin(Vec::new(), 512, false);
    let sent = run_read(t);
    assert_eq!(sent.len(), 1);
    assert_eq!(sent[0], Vec::<u8>::new());
}

#[test]
fn exact_blocksize_file_sends_two_blocks() {
    let data = vec![7u8; 512];
    let t = RrqTransfer::begin(data.clone(), 512, false);
    let sent = run_read(t);
    assert_eq!(sent.len(), 2);
    assert_eq!(sent[0], data);
    assert_eq!(sent[1], Vec::<u8>::new());
}

#[test]
fn block_count_is_ceiling_of_length_over_blocksize() {
    let t = RrqTransfer::begin(vec![1u8; 1000], 512, false);
    let sent = run_read(t);
    assert_eq!(sent.len(), 2);
    assert_eq!(sent[0].len(), 512);
    assert_eq!(sent[1].len(), 488);
}

#[test]
fn duplicate_ack_is_ignored() {
    let mut t = RrqTransfer::begin(vec![1u8; 1000], 512, false);
    let (block, _) = t.current_data();
    assert_eq!(block, 1);
    assert_eq!(t.on_ack(0), Action::Ignore);
    assert_eq!(t.on_ack(2), Action::Ignore);
    match t.on_ack(1) {
        Action::SendData { block: 2, .. } => (),
        other => panic!("unexpected action {:?}", other),
    }
}

#[test]
fn five_transmissions_then_abort() {
    let mut t = RrqTransfer::begin(b"abc".to_vec(), 512, false);
    // The initial send is the first transmission; four retransmissions may
    // follow, so five timeouts in a row end the session.
    for _ in 0..4 {
        assert_eq!(t.on_timeout(), Action::Retransmit);
    }
    match t.on_timeout() {
        Action::SendError { code, .. } => assert_eq!(code, 0),
        other => panic!("unexpected action {:?}", other),
    }
    assert!(t.failed());
}

#[test]
fn progress_resets_the_retransmission_budget() {
    let mut t = RrqTransfer::begin(vec![2u8; 2000], 512, false);
    for _ in 0..4 {
        assert_eq!(t.on_timeout(), Action::Retransmit);
    }
    match t.on_ack(1) {
        Action::SendData { block: 2, .. } => (),
        other => panic!("unexpected action {:?}", other),
    }
    for _ in 0..4 {
        assert_eq!(t.on_timeout(), Action::Retransmit);
    }
}

#[test]
fn foreign_sender_rejected_session_continues() {
    let mut t = RrqTransfer::begin(b"abc".to_vec(), 512, false);
    match t.on_foreign_sender() {
        Action::SendError { code, message } => {
            assert_eq!(code, 5);
            assert_eq!(message, b"Unknown transfer ID");
        }
        other => panic!("unexpected action {:?}", other),
    }
    // The session still completes normally afterwards.
    assert_eq!(t.on_ack(1), Action::Finish);
}

#[test]
fn peer_error_closes_silently() {
    let mut t = RrqTransfer::begin(b"abc".to_vec(), 512, false);
    assert_eq!(t.on_peer_error(), Action::CloseSilent);
    assert!(t.failed());
}

#[test]
fn block_numbers_wrap_across_sixteen_bits() {
    // 8-byte blocks over 65536 full blocks and a final short one: the
    // transfer runs past 65535 * blksize bytes and the block numbers wrap
    // from 0xffff to 0 and keep going.
    let len = 8 * 65536 + 4;
    let mut t = RrqTransfer::begin(vec![9u8; len], 8, false);
    let mut expected_block: u16 = 1;
    let (mut block, mut payload) = t.current_data();
    let mut count: usize = 0;
    loop {
        assert_eq!(block, expected_block, "block numbers must be contiguous mod 2^16");
        count += 1;
        match t.on_ack(block) {
            Action::SendData { block: b, payload: p } => {
                block = b;
                payload = p;
                expected_block = expected_block.wrapping_add(1);
            }
            Action::Finish => break,
            other => panic!("unexpected action {:?}", other),
        }
    }
    assert_eq!(payload.len(), 4);
    assert_eq!(count, 65537);
    assert!(t.finished());
}

/// Feeds every sent block of a read transfer into a write transfer and
/// returns the bytes the write side accepted, in order.
fn run_write(t: &mut WrqTransfer, blocks: &[Vec<u8>]) -> Vec<u8> {
    let mut written: Vec<u8> = Vec::new();
    let mut nr: u16 = 1;
    for b in blocks {
        match t.on_data(nr, b) {
            Action::SendAck { block } => {
                assert_eq!(block, nr);
                written.extend_from_slice(b);
            }
            other => panic!("unexpected action {:?}", other),
        }
        nr = nr.wrapping_add(1);
    }
    written
}

#[test]
fn write_transfer_continues_across_block_number_wrap() {
    let original = vec![6u8; 8 * 65536 + 4];
    let blocks = run_read(RrqTransfer::begin(original.clone(), 8, false));
    assert_eq!(blocks.len(), 65537);
    let mut w = WrqTransfer::begin(8);
    let stored = run_write(&mut w, &blocks);
    assert!(w.finished());
    assert_eq!(stored, original);
}

#[test]
fn upload_then_download_is_byte_identical() {
    let original: Vec<u8> = (0..2000u32).map(|i| (i % 251) as u8).collect();
    // Upload: a write session accepts the client's blocks.
    let mut w = WrqTransfer::begin(512);
    let client_blocks = run_read(RrqTransfer::begin(original.clone(), 512, false));
    let stored = run_write(&mut w, &client_blocks);
    assert!(w.finished());
    assert_eq!(stored, original);
    // Download: a read session serves the stored bytes again.
    let served = run_read(RrqTransfer::begin(stored, 512, false));
    let rejoined: Vec<u8> = served.concat();
    assert_eq!(rejoined, original);
}

#[test]
fn duplicate_data_is_acknowledged_without_rewriting() {
    let mut w = WrqTransfer::begin(512);
    let full = vec![3u8; 512];
    match w.on_data(1, &full) {
        Action::SendAck { block: 1 } => (),
        other => panic!("unexpected action {:?}", other),
    }
    // The same block again: acknowledged again, not written again.
    assert_eq!(w.on_data(1, &full), Action::RepeatAck { block: 1 });
    // A block from the future is ignored.
    assert_eq!(w.on_data(3, &full), Action::Ignore);
    match w.on_data(2, b"end") {
        Action::SendAck { block: 2 } => (),
        other => panic!("unexpected action {:?}", other),
    }
    assert!(w.finished());
}

#[test]
fn write_timeout_budget_exhausts() {
    let mut w = WrqTransfer::begin(512);
    for _ in 0..4 {
        assert_eq!(w.on_timeout(), Action::Retransmit);
    }
    match w.on_timeout() {
        Action::SendError { code, .. } => assert_eq!(code, 0),
        other => panic!("unexpected action {:?}", other),
    }
    assert!(w.failed());
}

#[test]
fn oversize_payload_is_ignored() {
    let mut w = WrqTransfer::begin(8);
    assert_eq!(w.on_data(1, &vec![0u8; 9]), Action::Ignore);
}

#[test]
fn read_with_options_waits_for_ack_zero() {
    // A 10000-byte file with blksize 8192 and tsize 0: the option reply
    // carries the clamped block size and the true file size, and after the
    // acknowledgement of block 0 the file goes out in blocks of 8192 and
    // 1808 bytes.
    let data = vec![5u8; 10000];
    let opts = pairs(&[(b"blksize", b"8192"), (b"tsize", b"0")]);
    let (mut t, timeout, reply) = prepare_read(data, &opts);
    assert_eq!(timeout, 5);
    assert_eq!(
        reply,
        Some(Packet::Oack { options: pairs(&[(b"blksize", b"8192"), (b"tsize", b"10000")]) })
    );
    match t.on_ack(0) {
        Action::SendData { block: 1, payload } => assert_eq!(payload.len(), 8192),
        other => panic!("unexpected action {:?}", other),
    }
    match t.on_ack(1) {
        Action::SendData { block: 2, payload } => assert_eq!(payload.len(), 1808),
        other => panic!("unexpected action {:?}", other),
    }
    assert_eq!(t.on_ack(2), Action::Finish);
}

#[test]
fn read_without_options_sends_at_once() {
    let (t, timeout, reply) = prepare_read(b"hi\n".to_vec(), &Vec::new());
    assert_eq!(timeout, 5);
    assert_eq!(reply, None);
    let (block, payload) = t.current_data();
    assert_eq!((block, payload.as_slice()), (1, b"hi\n".as_slice()));
}

#[test]
fn write_without_options_acknowledges_block_zero() {
    let (w, timeout, reply) = prepare_write(&Vec::new());
    assert_eq!(timeout, 5);
    assert_eq!(reply, Packet::Ack { block: 0 });
    drop(w);
}

#[test]
fn write_with_blocksize_option_stores_a_short_transfer() {
    let opts = pairs(&[(b"blksize", b"1024")]);
    let (mut w, _timeout, reply) = prepare_write(&opts);
    assert_eq!(reply, Packet::Oack { options: pairs(&[(b"blksize", b"1024")]) });
    let payload = vec![0xabu8; 600];
    match w.on_data(1, &payload) {
        Action::SendAck { block: 1 } => (),
        other => panic!("unexpected action {:?}", other),
    }
    assert!(w.finished());
}
