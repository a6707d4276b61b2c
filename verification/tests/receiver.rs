use ook_radio::{
    consts::{MESSAGE_START_BYTE, SYNC_SEQUENCE, SYNC_SEQUENCE_BIT_LENGTH},
    data_coding::radio_head_4b6b::{encode_in_place, RunningDecoderError},
    driver::receiver::{Receiver, ReceiverError, RxState},
    mock_pin::MockPin,
};

const TICKS_PER_BIT: u8 = 5;

fn get_default_receiver() -> Receiver<TICKS_PER_BIT> {
    Receiver::<TICKS_PER_BIT>::new()
}

/// Advance the receiver by exactly one bit period, sampling `pin`,
/// return `Err` if error was returned in the meantime
fn tick_one_bit(driver: &mut Receiver<TICKS_PER_BIT>, pin: &MockPin) -> Result<(), ReceiverError> {
    for _ in 0..TICKS_PER_BIT {
        match driver.receive(pin.is_high()) {
            Err(ReceiverError::MessageNotReady) => {}
            Ok(_) => {}
            Err(err) => return Err(err),
        }
    }

    Ok(())
}

#[test]
fn move_from_idle() {
    let mut driver = get_default_receiver();
    let pin = MockPin::new();

    let message_status = driver.receive(pin.is_high());

    assert!(
        matches!(message_status, Err(ReceiverError::MessageNotReady)),
        "Receiver::receive() returned wrong error type: {message_status:?}"
    );

    assert!(
        !matches!(driver.state(), RxState::Idle),
        "Driver is still in Idle state"
    );
}

#[test]
fn syncing_with_correct_signal() {
    let mut driver = get_default_receiver();
    let mut pin = MockPin::new();
    driver.set_state(RxState::Syncing);

    for i in 0..SYNC_SEQUENCE_BIT_LENGTH {
        let value = i & 0x1 != 1;
        pin.set_state(value);

        match tick_one_bit(&mut driver, &pin) {
            Err(err) => panic!("Error encoutered during syncing on bit {i}: {err:?}"),
            Ok(_) => {}
        }
    }

    assert!(
        !matches!(driver.state(), RxState::Syncing),
        "Driver not moved to the next state after syncing"
    );
}

#[test]
fn syncing_with_incorrect_signal() {
    let mut driver = get_default_receiver();
    let mut pin = MockPin::new();
    driver.set_state(RxState::Syncing);

    let mut error_flag = false;

    for _ in 0..SYNC_SEQUENCE_BIT_LENGTH {
        let value = true;
        pin.set_state(value);

        if matches!(tick_one_bit(&mut driver, &pin), Err(_)) {
            error_flag = true;
            break;
        }
    }

    assert!(error_flag, "There was no error during syncing");

    assert!(
        matches!(driver.state(), RxState::Idle),
        "Driver not cleaned up after sync error"
    );
}

#[test]
fn read_correct_message_start() {
    let mut driver = get_default_receiver();
    let mut pin = MockPin::new();
    driver.set_state(RxState::WaitingForStartByte);

    for i in 0..8 {
        let bit = (MESSAGE_START_BYTE >> i) & 0x1;
        pin.set_state(bit == 1);

        let res = tick_one_bit(&mut driver, &pin);

        assert!(matches!(res, Ok(_)), "Error occured on bit #{i}: {bit}");
    }

    assert!(
        !matches!(driver.state(), RxState::WaitingForStartByte),
        "Driver not moved to the next state from `RxState::WaitingForStartByte`"
    )
}

#[test]
fn read_incorrect_message_start() {
    let mut driver = get_default_receiver();
    let mut pin = MockPin::new();
    driver.set_state(RxState::WaitingForStartByte);

    let mut error_flag = false;

    for i in 0..8 {
        let bit = (0xff >> i) & 0x1;
        pin.set_state(bit == 1);

        match tick_one_bit(&mut driver, &pin) {
            Ok(_) => {}
            Err(_) => {
                error_flag = true;
                break;
            }
        }
    }

    assert!(error_flag, "No error on incorrect start byte");

    assert!(
        matches!(driver.state(), RxState::Idle),
        "Driver not cleaned up after message start byte error"
    );
}

#[test]
fn read_message_size() {
    let mut driver = get_default_receiver();
    let mut pin = MockPin::new();
    driver.set_state(RxState::ReadingSize);

    let size = 25u8;
    let mut encoded_size = [size, 0];
    encode_in_place(&mut encoded_size, 1).expect("Size buffer is too short for some reason?");

    for bit_n in 0..encoded_size.len() * 6 {
        let bit_i = bit_n % 6;
        let byte_i = bit_n / 6;

        let bit = (encoded_size[byte_i] >> bit_i) & 0x1;

        pin.set_state(bit == 1);

        match tick_one_bit(&mut driver, &pin) {
            Err(ReceiverError::DecoderError(err)) => {
                panic!("Decoder error on byte: {byte_i} on bit: {bit_i}. {err:?}")
            }
            _ => {}
        }
    }

    match driver.state() {
        RxState::ReadingMessage { message_size } => {
            assert!(
                message_size == size,
                "Decoded size ({message_size}) does not equal initial size ({size})"
            );
        }
        state => {
            panic!("Driver is in incorrect state: {state:?}")
        }
    }
}

#[test]
fn read_message() {
    const MESSAGE: &[u8] = b"A test message";
    let mut encoded_message = [0; MESSAGE.len() * 2];
    encoded_message[0..MESSAGE.len()].copy_from_slice(MESSAGE);
    encode_in_place(&mut encoded_message, MESSAGE.len())
        .expect("Unable to encode message for some reason");

    let mut driver = get_default_receiver();
    let mut pin = MockPin::new();

    driver.set_state(RxState::ReadingMessage {
        message_size: MESSAGE.len() as u8,
    });

    for bit_n in 0..encoded_message.len() * 6 {
        let bit_i = bit_n % 6;
        let byte_i = bit_n / 6;

        let bit = (encoded_message[byte_i] >> bit_i) & 0x1;

        pin.set_state(bit == 1);

        match tick_one_bit(&mut driver, &pin) {
            Err(ReceiverError::DecoderError(err)) => {
                panic!("Decoder error on byte: {byte_i} on bit: {bit_i}. {err:?}")
            }
            _ => {}
        }
    }

    assert!(
        !matches!(driver.state(), RxState::ReadingMessage { .. }),
        "Driver didn't move to the next state"
    );

    assert!(
        &driver.buffer()[0..MESSAGE.len()] == MESSAGE,
        "Initial message and decoded message are not the same
        Initial: {MESSAGE:?}
        Decoded: {:?}",
        &driver.buffer()[0..MESSAGE.len()]
    );
}

#[test]
fn full_receiver_test() {
    // === SETUP === //
    const DATA_MESSAGE_OFFSET: usize = 5;
    const MESSAGE: &[u8] = b"This is a test message";
    // Sync sequence size + message start byte + size byte (encoded on 2 bytes) + encoded message size
    const FULL_DATA_LENGTH: usize = SYNC_SEQUENCE.len() + 1 + 2 + MESSAGE.len() * 2;
    let mut full_data = [0u8; FULL_DATA_LENGTH];
    // Put expected byte sequence
    full_data[0] = 0b01010101;
    full_data[1] = 0b01010101;
    full_data[2] = MESSAGE_START_BYTE;
    // Put message size
    full_data[3] = MESSAGE.len() as u8;
    // Encode message size
    encode_in_place(&mut full_data[3..5], 1).expect("Unable to encode message size");
    // Put message
    full_data[DATA_MESSAGE_OFFSET..DATA_MESSAGE_OFFSET + MESSAGE.len()].copy_from_slice(MESSAGE);
    // Encode message part
    encode_in_place(&mut full_data[DATA_MESSAGE_OFFSET..], MESSAGE.len())
        .expect("Unable to encode message");

    // === TEST === //
    let mut driver = get_default_receiver();
    let mut pin = MockPin::new();
    // Prime the driver
    let _ = driver.receive(pin.is_high());

    for byte_i in 0..full_data.len() {
        // Number of bits in a 'byte'
        // 8 for sync and start_byte,
        // 6 for encoded data
        let n_bits_from_byte = if byte_i < 3 { 8 } else { 6 };

        for bit_i in 0..n_bits_from_byte {
            let state = (full_data[byte_i] >> bit_i) & 0x1;
            pin.set_state(state == 1);

            match tick_one_bit(&mut driver, &pin) {
                Ok(_) => {}
                Err(err) => {
                    panic!("Receiver ecountered an error on byte {byte_i} in bit {bit_i}: {err:?}");
                }
            }
        }
    }

    let message = driver
        .receive(pin.is_high())
        .expect("Error occured when message should be present");

    assert!(
        message == MESSAGE,
        "Messages are different
        Initial:  {MESSAGE:?}
        Received: {message:?}"
    );
}

// ── further cases ───────────────────────────────────────────────────────

#[test]
fn message_too_long() {
    let mut driver = get_default_receiver();
    let mut pin = MockPin::new();
    driver.set_state(RxState::ReadingSize);

    let mut encoded_size = [200u8, 0];
    encode_in_place(&mut encoded_size, 1).unwrap();

    let mut too_long = false;
    for bit_n in 0..encoded_size.len() * 6 {
        let bit = (encoded_size[bit_n / 6] >> (bit_n % 6)) & 0x1;
        pin.set_state(bit == 1);
        if let Err(ReceiverError::MessageTooLong) = tick_one_bit(&mut driver, &pin) {
            too_long = true;
        }
    }
    assert!(too_long);
    assert_eq!(driver.state(), RxState::ReadingSize);
}

#[test]
fn decoder_error_cleans_up() {
    let mut driver = get_default_receiver();
    let mut pin = MockPin::new();
    driver.set_state(RxState::ReadingSize);

    // 0b000000 is not a symbol
    let mut error = None;
    for _ in 0..6 {
        pin.set_state(false);
        if let Err(e) = tick_one_bit(&mut driver, &pin) {
            error = Some(e);
        }
    }
    assert_eq!(
        error,
        Some(ReceiverError::DecoderError(RunningDecoderError::UnknownSymbol(0)))
    );
    assert_eq!(driver.state(), RxState::Idle);
}

#[test]
fn cleanup_makes_idle() {
    let mut driver = get_default_receiver();
    driver.set_state(RxState::WaitingForStartByte);
    driver.cleanup();
    assert_eq!(driver.state(), RxState::Idle);
}
