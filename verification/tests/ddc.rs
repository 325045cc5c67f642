use mon_osd::ddc::{
    build_packet, checksum, decode_vcp_reply, error_message, failure_message, get_vcp_payload,
    set_vcp_payload, DdcAction, DdcError, DdcEvent, DdcExchange, DdcFailure, CHIP_ADDRESS_7BIT,
    DATA_ADDRESS, NUM_RETRY_ATTEMPTS, READ_SLEEP_US, RETRY_SLEEP_US, VCP_CONTRAST, VCP_LUMINANCE,
    VCP_MUTE, VCP_VOLUME, WRITE_SLEEP_US,
};

#[test]
fn checksum_is_xor_fold_starting_from_seed() {
    assert_eq!(checksum(0x00, &[]), 0x00);
    assert_eq!(checksum(0xFF, &[0xFF]), 0x00);
    assert_eq!(checksum(0x50, &[0x01, 0x02]), 0x50 ^ 0x01 ^ 0x02);
}

#[test]
fn get_packet_has_expected_shape() {
    let packet = build_packet(&[VCP_VOLUME]);
    assert_eq!(packet.len(), 4);
    assert_eq!(packet[0], 0x82);
    assert_eq!(packet[1], 1);
    assert_eq!(packet[2], VCP_VOLUME);
    let seed = CHIP_ADDRESS_7BIT << 1;
    let expected = checksum(seed, &packet[..3]);
    assert_eq!(packet[3], expected);
}

#[test]
fn set_packet_has_expected_shape() {
    let send = [VCP_LUMINANCE, 0x12, 0x34];
    let packet = build_packet(&send);
    assert_eq!(packet.len(), 6);
    assert_eq!(packet[0], 0x84);
    assert_eq!(packet[1], 3);
    assert_eq!(&packet[2..5], &send);
    let seed = (CHIP_ADDRESS_7BIT << 1) ^ (DATA_ADDRESS as u8);
    let expected = checksum(seed, &packet[..5]);
    assert_eq!(packet[5], expected);
}

#[test]
fn packet_never_includes_a_literal_source_address_byte() {
    let packet = build_packet(&[VCP_VOLUME]);
    assert_ne!(packet[0], 0x51, "packet must not start with a literal source address byte");
}

#[test]
fn vcp_codes_are_distinct() {
    let codes = [VCP_LUMINANCE, VCP_CONTRAST, VCP_VOLUME, VCP_MUTE];
    for i in 0..codes.len() {
        for j in (i + 1)..codes.len() {
            assert_ne!(codes[i], codes[j]);
        }
    }
}

#[test]
fn built_packet_checksums_to_zero() {
    for send in [vec![0x10u8], vec![0x62, 0x00, 0x32], vec![]] {
        let packet = build_packet(&send);
        let seed = if send.len() == 1 { 0x6e } else { 0x3f };
        assert_eq!(checksum(seed, &packet), 0);
    }
}

#[test]
fn get_packet_exact_bytes() {
    // 0x6e ^ 0x82 ^ 0x01 ^ 0x10 = 0xfd
    assert_eq!(build_packet(&[0x10]), vec![0x82, 0x01, 0x10, 0xfd]);
}

#[test]
fn set_payload_splits_value_into_bytes() {
    assert_eq!(set_vcp_payload(0x10, 0x1234), vec![0x10, 0x12, 0x34]);
    assert_eq!(set_vcp_payload(0x62, 75), vec![0x62, 0x00, 75]);
    assert_eq!(get_vcp_payload(0x12), vec![0x12]);
}

#[test]
fn decode_reply_reads_max_then_current_big_endian() {
    let reply = [0x6e, 0x88, 0x02, 0x00, 0x10, 0x00, 0x01, 0x2c, 0x00, 0x64, 0x00];
    let r = decode_vcp_reply(&reply);
    assert_eq!(r.max, 300);
    assert_eq!(r.current, 100);
}

fn valid_reply() -> Vec<u8> {
    let mut reply = vec![0x6e, 0x88, 0x02, 0x00, 0x62, 0x00, 0x00, 0x64, 0x00, 0x32];
    let c = checksum(0x50, &reply);
    reply.push(c);
    reply
}

#[test]
fn exchange_reads_back_a_valid_reply() {
    let (mut ex, a) = DdcExchange::new(&[VCP_VOLUME], 11);
    assert!(matches!(a, DdcAction::Sleep { micros } if micros == WRITE_SLEEP_US));
    assert!(matches!(ex.step(DdcEvent::Slept), DdcAction::Write { data_address: 0x51 }));
    assert!(matches!(ex.step(DdcEvent::WriteDone { ok: true }), DdcAction::Sleep { micros } if micros == WRITE_SLEEP_US));
    assert!(matches!(ex.step(DdcEvent::Slept), DdcAction::Write { .. }));
    assert!(matches!(ex.step(DdcEvent::WriteDone { ok: false }), DdcAction::Sleep { micros } if micros == READ_SLEEP_US));
    assert!(matches!(ex.step(DdcEvent::Slept), DdcAction::Read { offset: 0, len: 11 }));
    let reply = valid_reply();
    match ex.step(DdcEvent::ReadDone(Ok(reply.clone()))) {
        DdcAction::Complete(Ok(r)) => assert_eq!(r, reply),
        _ => panic!("expected the reply"),
    }
    assert!(ex.is_finished());
}

#[test]
fn exchange_retries_bad_checksums_then_gives_up() {
    let (mut ex, _) = DdcExchange::new(&[VCP_VOLUME], 11);
    let mut bad = valid_reply();
    bad[10] ^= 1;
    let mut sleeps_before_retry = 0;
    let mut action = ex.step(DdcEvent::Slept);
    let mut steps = 1;
    loop {
        action = match action {
            DdcAction::Sleep { micros } => {
                if micros == RETRY_SLEEP_US {
                    sleeps_before_retry += 1;
                }
                ex.step(DdcEvent::Slept)
            }
            DdcAction::Write { .. } => ex.step(DdcEvent::WriteDone { ok: true }),
            DdcAction::Read { .. } => ex.step(DdcEvent::ReadDone(Ok(bad.clone()))),
            DdcAction::Complete(r) => {
                match r {
                    Err(e) => {
                        assert_eq!(e.attempts, NUM_RETRY_ATTEMPTS);
                        assert!(matches!(e.last, DdcFailure::ChecksumMismatch { .. }));
                    }
                    Ok(_) => panic!("a bad checksum must not be accepted"),
                }
                break;
            }
        };
        steps += 1;
    }
    assert_eq!(sleeps_before_retry, 5);
    assert!(steps <= 35);
}

#[test]
fn exchange_without_reply_finishes_after_successful_write() {
    let (mut ex, _) = DdcExchange::new(&[VCP_VOLUME, 0, 30], 0);
    ex.step(DdcEvent::Slept);
    ex.step(DdcEvent::WriteDone { ok: false });
    ex.step(DdcEvent::Slept);
    match ex.step(DdcEvent::WriteDone { ok: true }) {
        DdcAction::Complete(Ok(r)) => assert!(r.is_empty()),
        _ => panic!("expected completion"),
    }
}

#[test]
fn exchange_repeats_the_pending_action_on_an_unexpected_event() {
    let (mut ex, _) = DdcExchange::new(&[VCP_VOLUME], 11);
    assert!(matches!(ex.step(DdcEvent::WriteDone { ok: true }), DdcAction::Sleep { micros } if micros == WRITE_SLEEP_US));
    assert!(matches!(ex.step(DdcEvent::Slept), DdcAction::Write { .. }));
    assert!(matches!(ex.step(DdcEvent::Slept), DdcAction::Write { .. }));
}

#[test]
fn exchange_packet_is_the_built_packet() {
    let (ex, _) = DdcExchange::new(&[VCP_LUMINANCE, 0x00, 0x32], 0);
    assert_eq!(ex.packet(), build_packet(&[VCP_LUMINANCE, 0x00, 0x32]).as_slice());
}

#[test]
fn failure_messages_read_as_before() {
    assert_eq!(failure_message(&DdcFailure::WriteFailed), "write_i2c failed");
    assert_eq!(failure_message(&DdcFailure::ShortReply { len: 3 }), "short reply: 3 bytes");
    assert_eq!(
        failure_message(&DdcFailure::ReadFailed { code: -536870212 }),
        format!("read_i2c failed with IOReturn {:#x}", -536870212i32)
    );
    let reply = vec![0x01u8, 0xab, 0x00];
    assert_eq!(
        failure_message(&DdcFailure::ChecksumMismatch { got: 0, expected: 0xab, reply: reply.clone() }),
        format!("checksum mismatch (got {:#x}, expected {:#x}) -- reply: {reply:02x?}", 0u8, 0xabu8)
    );
    let e = DdcError { attempts: 5, last: DdcFailure::WriteFailed };
    assert_eq!(
        error_message(&e),
        "DDC communication failed after 5 attempts, last error: write_i2c failed"
    );
}
