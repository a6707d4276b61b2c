use heapless::Vec;
use ook_radio::{
    consts::{MAX_MESSAGE_LENGTH, MESSAGE_OFFSET, MESSAGE_START_BYTE, SYNC_BYTE, SYNC_SEQUENCE_BIT_LENGTH},
    data_coding::radio_head_4b6b::decode_in_place,
    driver::transmitter::{Transmitter, TxState},
    mock_pin::MockPin,
};

const TICKS_PER_BIT: u8 = 5;

/// One tick of the transmitter, with its output applied to `pin`.
fn tick<const T: u8>(driver: &mut Transmitter<T>, pin: &mut MockPin) {
    if let Some(level) = driver.transmit() {
        pin.set_state(level);
    }
}

/// Advance the transmitter by exactly one bit period and return the
/// pin state that was set at the *start* of that period.
fn tick_one_bit(driver: &mut Transmitter<TICKS_PER_BIT>, pin: &mut MockPin) -> bool {
    // First tick: transmitter sets the pin and increments internal tick counter
    tick(driver, pin);
    let state = pin.is_high();

    // Remaining ticks: transmitter holds state (no-ops internally)
    for _ in 1..TICKS_PER_BIT {
        tick(driver, pin);
        // Pin must stay stable during the hold ticks
        assert_eq!(pin.is_high(), state, "Pin changed mid-bit-period");
    }

    state
}

fn bits_to_byte_lsb(bits: &[bool]) -> u8 {
    assert!(bits.len() <= 8);
    bits.iter()
        .enumerate()
        .fold(0u8, |acc, (i, &b)| acc | ((b as u8) << i))
}

// ── sync ────────────────────────────────────────────────────────────────

#[test]
fn sync_bits() {
    let mut driver = Transmitter::<TICKS_PER_BIT>::new();
    let mut pin = MockPin::new();
    driver.set_state(TxState::Syncing);

    for _ in 0..(SYNC_SEQUENCE_BIT_LENGTH / 8) {
        let bits: Vec<bool, 8> = (0..8).map(|_| tick_one_bit(&mut driver, &mut pin)).collect();

        let byte = bits_to_byte_lsb(&bits);
        assert_eq!(
            byte, SYNC_BYTE,
            "Sync byte mismatch: got 0x{byte:02x}, expected 0x{SYNC_BYTE:02x}"
        );
    }

    assert!(
        matches!(driver.state(), TxState::SendingStartByte),
        "Expected SendingStartByte after sync, got {:?}",
        driver.state()
    );
}

// ── start byte ──────────────────────────────────────────────────────────

#[test]
fn message_start_byte() {
    let mut driver = Transmitter::<TICKS_PER_BIT>::new();
    let mut pin = MockPin::new();
    driver.set_state(TxState::SendingStartByte);

    let bits: Vec<bool, 8> = (0..8).map(|_| tick_one_bit(&mut driver, &mut pin)).collect();
    let byte = bits_to_byte_lsb(&bits);

    assert_eq!(
        byte, MESSAGE_START_BYTE,
        "Start byte mismatch: got 0x{byte:02x}, expected 0x{MESSAGE_START_BYTE:02x}"
    );

    assert!(
        matches!(driver.state(), TxState::SendingData),
        "Expected SendingData after start byte, got {:?}",
        driver.state()
    );
}

// ── data ────────────────────────────────────────────────────────────────

#[test]
fn message_data() {
    // Values chosen to check all 6 useful bits (encoding uses bits 0–5 only)
    const DATA: [u8; 5] = [0x01, 0x10, 0x38, 0x3f, 0x00];

    let bit_length = DATA.len() * 6; // matches what `send()` would set

    let mut driver = Transmitter::<TICKS_PER_BIT>::new();
    let mut pin = MockPin::new();
    driver.set_state(TxState::SendingData);
    driver.load_frame(&DATA, bit_length);

    let mut received = [0u8; DATA.len()];

    // send_data sends bits 0–5 of each byte and skips bits 6–7
    for byte_i in 0..DATA.len() {
        for bit_i in 0..6usize {
            let state = tick_one_bit(&mut driver, &mut pin);
            received[byte_i] |= (state as u8) << bit_i;
        }
    }

    assert_eq!(
        DATA, received,
        "Received data {received:?} does not match source {DATA:?}"
    );

    assert!(
        matches!(driver.state(), TxState::DataSent),
        "Expected DataSent after all data bits, got {:?}",
        driver.state()
    );
}

#[test]
fn data_sent_transitions_to_idle() {
    let mut driver = Transmitter::<TICKS_PER_BIT>::new();
    let mut pin = MockPin::new();
    driver.set_state(TxState::DataSent);

    // One full bit period in DataSent should trigger cleanup -> Idle
    tick_one_bit(&mut driver, &mut pin);

    assert!(
        matches!(driver.state(), TxState::Idle),
        "Expected Idle after DataSent tick, got {:?}",
        driver.state()
    );
}

// ── ticks_per_bit ───────────────────────────────────────────────────────

#[test]
fn ticks_per_bit() {
    const TICKS: u8 = 8;
    const DATA: [u8; 1] = [0xaa];
    let bit_length = DATA.len() * 6;

    let mut driver = Transmitter::<TICKS>::new();
    let mut pin = MockPin::new();
    driver.set_state(TxState::SendingData);
    driver.load_frame(&DATA, bit_length);

    for bit_i in 0..6usize {
        let expected = (DATA[0] >> bit_i) & 0x1;

        for tick_i in 0..TICKS {
            tick(&mut driver, &mut pin);
            let actual = pin.is_high() as u8;
            assert_eq!(
                actual, expected,
                "tick {tick_i} of bit {bit_i}: expected {expected}, got {actual}"
            );
        }
    }
}

// ── send() integration ──────────────────────────────────────────────────

#[test]
fn send_encodes_and_sets_state() {
    const DATA: &[u8] = b"Hello, there!";

    let mut driver = Transmitter::<TICKS_PER_BIT>::new();
    let n = driver.send(DATA).expect("send() returned None");

    assert_eq!(n, DATA.len(), "send() reported wrong byte count");
    assert!(
        matches!(driver.state(), TxState::Syncing),
        "Expected Syncing after send(), got {:?}",
        driver.state()
    );

    // Decode the buffer and verify contents
    const ENCODED_LEN: usize = (DATA.len() + 1) * 2;
    let mut decoded = [0u8; ENCODED_LEN];
    decoded.copy_from_slice(&driver.buffer()[..ENCODED_LEN]);

    decode_in_place(&mut decoded).expect("decode_in_place failed");

    assert_eq!(
        decoded[0],
        DATA.len() as u8,
        "Length byte mismatch: expected {}, got {}",
        DATA.len(),
        decoded[0]
    );
    assert_eq!(
        &decoded[MESSAGE_OFFSET..MESSAGE_OFFSET + DATA.len()],
        DATA,
        "Decoded payload does not match source"
    );
}

#[test]
fn send_truncates_oversized_message() {
    let oversized: Vec<u8, { MAX_MESSAGE_LENGTH + 1 }> =
        (0..MAX_MESSAGE_LENGTH + 1).map(|i| i as u8).collect();

    let mut driver = Transmitter::<TICKS_PER_BIT>::new();
    let n = driver.send(&oversized).expect("send() returned None");

    assert_eq!(
        n, MAX_MESSAGE_LENGTH,
        "send() should truncate to MAX_MESSAGE_LENGTH"
    );
}

// ── full round-trip ─────────────────────────────────────────────────────

/// Drive the transmitter through entire sending process and decode
/// every bit off the wire, then verify the recovered payload.
#[test]
fn full_transmission_round_trip() {
    const DATA: &[u8] = b"round trip!";

    let mut driver = Transmitter::<TICKS_PER_BIT>::new();
    let mut pin = MockPin::new();
    driver.send(DATA).unwrap();

    // Skip sync bits
    for _ in 0..SYNC_SEQUENCE_BIT_LENGTH {
        tick_one_bit(&mut driver, &mut pin);
    }

    assert!(
        matches!(driver.state(), TxState::SendingStartByte),
        "Driver should be in a 'SendingStartByte' phase, but is in: '{:?}'",
        driver.state()
    );

    // Skip start byte
    for _ in 0..8 {
        tick_one_bit(&mut driver, &mut pin);
    }

    assert!(
        matches!(driver.state(), TxState::SendingData),
        "Driver should be in a 'SendingStartByte' phase, but is in: '{:?}'",
        driver.state()
    );

    // Collect encoded payload bytes (6 bits each, LSB first)
    let n_encoded_bytes = (DATA.len() + 1) * 2;
    let mut encoded_bytes = Vec::<u8, 64>::new();

    for _ in 0..n_encoded_bytes {
        let mut byte = 0u8;

        for bit_i in 0..6usize {
            let state = tick_one_bit(&mut driver, &mut pin);
            byte |= (state as u8) << bit_i;
        }

        encoded_bytes.push(byte).unwrap();
    }

    assert!(
        matches!(driver.state(), TxState::DataSent),
        "Transmitter state should be 'DataSent', but is {:?}",
        driver.state()
    );

    // Next tick should be cleanup
    driver.transmit();

    assert!(
        matches!(driver.state(), TxState::Idle),
        "Transmitter state should be 'Idle', but is {:?}",
        driver.state()
    );

    let decoded_size = match decode_in_place(&mut encoded_bytes) {
        Ok(n) => n,
        Err(e) => panic!("Error occured during decoding: {e:?}"),
    };

    let data_and_length_byte_size = DATA.len() + 1;

    assert_eq!(
        decoded_size, data_and_length_byte_size,
        "Length byte mismatch"
    );

    assert_eq!(
        &encoded_bytes[1..decoded_size],
        DATA,
        "Payload mismatch after round-trip"
    );
}

// ── further cases ───────────────────────────────────────────────────────

#[test]
fn idle_transmitter_leaves_line_alone() {
    let mut driver = Transmitter::<TICKS_PER_BIT>::new();
    assert!(driver.is_idle());
    for _ in 0..20 {
        assert_eq!(driver.transmit(), None);
    }
    assert!(driver.is_idle());
}

#[test]
fn transmission_length_in_ticks() {
    // sync + start byte + encoded message, each bit held TICKS_PER_BIT ticks,
    // plus one bit period in DataSent
    const DATA: &[u8] = b"abc";
    let mut driver = Transmitter::<TICKS_PER_BIT>::new();
    driver.send(DATA).unwrap();
    let mut n_ticks = 0usize;
    while !driver.is_idle() {
        driver.transmit();
        n_ticks += 1;
    }
    let n_bits = SYNC_SEQUENCE_BIT_LENGTH as usize + 8 + (DATA.len() + 1) * 12;
    assert_eq!(n_ticks, (n_bits + 1) * TICKS_PER_BIT as usize - (TICKS_PER_BIT as usize - 1));
}

#[test]
fn cleanup_stops_transmission() {
    let mut driver = Transmitter::<TICKS_PER_BIT>::new();
    driver.send(b"xyz").unwrap();
    assert!(!driver.is_idle());
    driver.cleanup();
    assert!(driver.is_idle());
}

#[test]
fn send_empty_message() {
    let mut driver = Transmitter::<TICKS_PER_BIT>::new();
    assert_eq!(driver.send(&[]), Some(0));
    let mut decoded = [0u8; 2];
    decoded.copy_from_slice(&driver.buffer()[..2]);
    assert_eq!(decode_in_place(&mut decoded), Ok(1));
    assert_eq!(decoded[0], 0);
}
