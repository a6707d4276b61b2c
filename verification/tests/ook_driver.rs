use heapless::Vec;
use ook_radio::{
    consts::{MAX_MESSAGE_LENGTH, MESSAGE_OFFSET, PREAMBLE_SIZE, SYNC_SEQUENCE},
    data_coding::radio_head_4b6b::{decode_in_place, RunningDecoder, RunningDecoderError},
    mock_pin::MockPin,
    ook_driver::{FatalReceiverError, OokDriver, OokMode, ReceiverError},
};

/// One tick of the driver: samples `rx` and applies the output to `tx`.
fn tick(driver: &mut OokDriver, tx: &mut MockPin, rx: &MockPin) {
    if let Some(level) = driver.tick(rx.is_high()) {
        tx.set_state(level);
    }
}

#[test]
fn tx_buf_correct_size_message() {
    let mut driver = OokDriver::new();

    let data = b"Hello there";
    let n_sent_bytes = driver.send(data);

    assert!(n_sent_bytes == data.len());
    assert!(driver.mode() == OokMode::Transmit);

    let mut tx_buf = driver.tx_buffer().to_vec();
    decode_in_place(&mut tx_buf).expect("Unable to decode tx_buf");

    assert!(&tx_buf[1..data.len() + 1] == data);

    let data_size = tx_buf[0];
    assert!(data_size == data.len() as u8);
}

const TOO_LARGE_MESSAGE_SIZE: usize = MAX_MESSAGE_LENGTH + 1;

#[test]
fn tx_buf_message_too_large() {
    let mut driver = OokDriver::new();

    let mut data = Vec::<u8, TOO_LARGE_MESSAGE_SIZE>::new();
    data.resize(TOO_LARGE_MESSAGE_SIZE, b'^').unwrap();

    let n_sent_bytes = driver.send(data.as_slice());

    let mut tx_buf = driver.tx_buffer().to_vec();
    decode_in_place(&mut tx_buf).expect("Unable to decode tx_buf");

    assert!(n_sent_bytes == MAX_MESSAGE_LENGTH, "{}", n_sent_bytes);
    assert!(&tx_buf[1..n_sent_bytes + 1] == &data[..MAX_MESSAGE_LENGTH]);
}

#[test]
fn transmit_ticking() {
    let mut driver = OokDriver::new();
    let mut tx = MockPin::new();
    let rx = MockPin::new();

    let data = b"Hello there!";

    let n_bytes_sent = driver.send(data);

    let mut transmitted_data = Vec::<u8, MAX_MESSAGE_LENGTH>::new();
    let mut current_byte = 0u8;
    let mut nth_bit = 0u8;
    let mut n_ticks = 0u8;

    let mut n_bytes = 0usize;

    let mut decoder = RunningDecoder::new();

    while driver.mode() == OokMode::Transmit {
        tick(&mut driver, &mut tx, &rx);

        n_ticks += 1;

        current_byte |= (tx.is_high() as u8) << (5 - nth_bit);

        if n_ticks < driver.ticks_per_bit() {
            continue;
        }

        n_ticks = 0;

        nth_bit += 1;

        if nth_bit >= 6 {
            nth_bit = 0;

            // After sync bytes and message start byte
            if n_bytes >= PREAMBLE_SIZE {
                match decoder.next_nibble(current_byte) {
                    Ok(byte) => transmitted_data.push(byte).unwrap(),
                    Err(err) => match err {
                        RunningDecoderError::ByteNotReady => {}
                        RunningDecoderError::UnknownSymbol(s) => {
                            panic!("Unable to decode incoming data, unknown symbol: 0x{:x}", s);
                        }
                    },
                }
            }

            current_byte = 0;
            n_bytes += 1;
        }
    }

    assert!(
        &transmitted_data[MESSAGE_OFFSET..] == data,
        "{:?}",
        transmitted_data
    );
    assert!(&transmitted_data[MESSAGE_OFFSET - 1] == &(n_bytes_sent as u8));
}

const MESSAGES: [&[u8]; 3] = [
    b"Hello there!",
    b"It's been a while",
    b"abcdefghijklmnopqrstuwxyz",
];

#[test]
fn transmit_multiple_messages() {
    let mut transmitter = OokDriver::new();
    let mut tx = MockPin::new();
    let rx = MockPin::new();

    for message in MESSAGES {
        let expected_tick_count = (
            // Encoded data and length byte, with 6 bits per byte
            (message.len() + 1) * 2 * 6
            // Preamble with 6 bits per byte
            + PREAMBLE_SIZE * 6
        ) * transmitter.ticks_per_bit() as usize;

        let mut n_ticks = 0usize;

        transmitter.send(message);

        while transmitter.mode() == OokMode::Transmit {
            tick(&mut transmitter, &mut tx, &rx);

            assert!(
                n_ticks < expected_tick_count,
                "Transmitter ticked too many times to send a message\n"
            );

            n_ticks += 1;
        }

        assert!(
            n_ticks == expected_tick_count,
            "Transmitter ticked incorrect number of times to send a message"
        );
    }
}

#[test]
fn receiver_test() {
    let mut transmitter = OokDriver::new();
    let mut receiver = OokDriver::new();
    let mut transmitter_tx = MockPin::new();
    let transmitter_rx = MockPin::new();
    let mut receiver_tx = MockPin::new();
    let mut receiver_rx = MockPin::new();

    let data = b"^Hello there!";

    let n_bytes = transmitter.send(data);

    // Prime receiver
    receiver.start_receiving();

    loop {
        // Return if message ready
        if receiver.get_message().is_ok() {
            break;
        }

        tick(&mut transmitter, &mut transmitter_tx, &transmitter_rx);

        if let Some(err) = receiver.get_read_error() {
            match err {
                FatalReceiverError::UnknownReceiverSymbol(sym) => {
                    panic!(
                        "Error while reading data, unknown symbol: 0x{:x}\nrx: {:?}\ntx: {:?}",
                        sym,
                        receiver.rx_buffer(),
                        transmitter.tx_buffer()
                    )
                }
            }
        }

        // Sync state on receiver's rx pin and transmitter's tx pin
        receiver_rx.sync_with(&transmitter_tx);
        tick(&mut receiver, &mut receiver_tx, &receiver_rx);
    }
    let msg = receiver.get_message().unwrap();

    // Check if length matches
    assert!(msg[0] as usize == n_bytes, "{:?}", msg);
    // Check if data was transmitted successfully
    assert!(&msg[1..] == data, "{:?}\n{:?}", &msg[1..], data);
}

#[test]
fn syncing() {
    let mut possible_preceding_bytes: [u8; 256] = [0; 256];
    (0..=255)
        .enumerate()
        .for_each(|(i, byte)| possible_preceding_bytes[i] = byte);

    for possible_byte in possible_preceding_bytes {
        let signal = [possible_byte, SYNC_SEQUENCE[0], SYNC_SEQUENCE[1]];

        let mut receiver = OokDriver::new();

        for byte in signal {
            let mut bit_index = 0;

            while bit_index < 8 {
                receiver.get_synced((byte >> (7 - bit_index)) & 0x1);
                bit_index += 1;
            }
        }

        assert!(
            receiver.is_synced(),
            "Receiver not synced with byte {:x} preceeding the sync signal",
            possible_byte
        );
    }
}

// ── further cases ───────────────────────────────────────────────────────

#[test]
fn ook_send_empty_message() {
    let mut driver = OokDriver::new();
    assert_eq!(driver.send(&[]), 0);
    assert!(driver.is_idle());
    assert!(driver.tx_buffer().is_empty());
}

#[test]
fn message_not_ready() {
    let mut driver = OokDriver::new();
    assert_eq!(driver.get_message(), Err(ReceiverError::MessageNotReady));
    assert!(driver.start_receiving());
    assert_eq!(driver.mode(), OokMode::Receive);
    assert_eq!(driver.get_message(), Err(ReceiverError::MessageNotReady));
    // A receiving driver is not available for a new reception
    assert!(driver.start_receiving());
    assert!(driver.get_read_error().is_none());
}

#[test]
fn busy_driver_does_not_receive() {
    let mut driver = OokDriver::new();
    driver.send(b"busy");
    assert!(!driver.start_receiving());
    assert_eq!(driver.mode(), OokMode::Transmit);
}

#[test]
fn idle_driver_does_nothing() {
    let mut driver = OokDriver::new();
    for _ in 0..10 {
        assert_eq!(driver.tick(true), None);
    }
    assert!(driver.is_idle());
}

/// Ticks a transmitting and a receiving driver together, the receiver's
/// input joined to the transmitter's output; returns the number of ticks
/// until both are idle.
fn run_link(transmitter: &mut OokDriver, receiver: &mut OokDriver) -> usize {
    let mut line = false;
    let mut ticks = 0usize;
    while transmitter.mode() == OokMode::Transmit {
        assert_eq!(receiver.mode(), OokMode::Receive);
        assert!(receiver.get_message().is_err());
        line = match transmitter.tick(false) {
            Some(level) => level,
            None => line,
        };
        receiver.tick(line);
        ticks += 1;
    }
    ticks
}

#[test]
fn message_delivered_in_transmission_time() {
    let mut transmitter = OokDriver::new();
    let mut receiver = OokDriver::new();
    assert_eq!(transmitter.send(b"Hi!"), 3);
    assert!(receiver.start_receiving());

    let ticks = run_link(&mut transmitter, &mut receiver);

    assert_eq!(ticks, ((3 + 1) * 12 + PREAMBLE_SIZE * 6) * 8);
    assert!(transmitter.is_idle());
    assert!(receiver.is_idle());
    assert!(receiver.get_read_error().is_none());
    assert_eq!(receiver.get_message(), Ok(&[3u8, b'H', b'i', b'!'][..]));
}

#[test]
fn long_message_delivered_cut() {
    let mut transmitter = OokDriver::new();
    let mut receiver = OokDriver::new();
    let data: std::vec::Vec<u8> = (0..100u8).collect();
    assert_eq!(transmitter.send(&data), MAX_MESSAGE_LENGTH);
    assert!(receiver.start_receiving());

    let ticks = run_link(&mut transmitter, &mut receiver);

    assert_eq!(ticks, ((MAX_MESSAGE_LENGTH + 1) * 12 + PREAMBLE_SIZE * 6) * 8);
    let msg = receiver.get_message().unwrap();
    assert_eq!(msg[0] as usize, MAX_MESSAGE_LENGTH);
    assert_eq!(&msg[1..], &data[..MAX_MESSAGE_LENGTH]);
}

#[test]
fn second_message_delivered_after_first() {
    let mut transmitter = OokDriver::new();
    let mut receiver = OokDriver::new();
    for message in MESSAGES {
        let n = transmitter.send(message);
        assert!(receiver.start_receiving());
        assert!(receiver.rx_buffer().is_empty());
        run_link(&mut transmitter, &mut receiver);
        let msg = receiver.get_message().unwrap();
        assert_eq!(msg[0] as usize, n);
        assert_eq!(&msg[1..], message);
    }
}

#[test]
fn sync_after_noise() {
    let mut receiver = OokDriver::new();
    // Noise, ending in two equal bits, then the sync sequence
    let signal = [0x5Au8, 0xFF, 0x03, SYNC_SEQUENCE[0], SYNC_SEQUENCE[1]];
    let mut n_bits = 0usize;
    for byte in signal {
        for bit_index in 0..8 {
            receiver.get_synced((byte >> (7 - bit_index)) & 0x1);
            n_bits += 1;
            if n_bits <= 24 {
                assert!(!receiver.is_synced());
            }
        }
    }
    assert!(receiver.is_synced());
}

#[test]
fn empty_message_clears_tx_buffer() {
    let mut driver = OokDriver::new();
    assert_eq!(driver.send(b"abc"), 3);
    assert_eq!(driver.tx_buffer().len(), 8);
    assert_eq!(driver.send(&[]), 0);
    assert!(driver.tx_buffer().is_empty());
    // The preamble symbol in progress is the last one sent
    for _ in 0..6 * 8 {
        assert!(driver.can_tick());
        assert_eq!(driver.mode(), OokMode::Transmit);
        driver.tick(false);
    }
    assert!(driver.is_idle());
}

#[test]
fn receiver_started_early_gets_message() {
    let mut transmitter = OokDriver::new();
    let mut receiver = OokDriver::new();
    assert!(receiver.start_receiving());
    // The line stays low before the transmission
    for _ in 0..37 {
        assert_eq!(receiver.tick(false), None);
    }
    assert_eq!(transmitter.send(b"early"), 5);
    run_link(&mut transmitter, &mut receiver);
    assert_eq!(receiver.get_message(), Ok(&[5u8, b'e', b'a', b'r', b'l', b'y'][..]));
}
