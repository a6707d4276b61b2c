use ook_radio::{
    driver::{
        receiver::{Receiver, ReceiverError, ReceiverError::MessageNotReady},
        transmitter::Transmitter,
    },
    mock_pin::MockPin,
};

const TICKS_PER_BIT: u8 = 5;

fn synchronize_pins(src: &MockPin, dst: &mut MockPin) {
    dst.set_state(src.is_high());
}

#[test]
fn transmit_and_receive() {
    const MESSAGE: &[u8] = b"This is a test message, a long one, but could be longer!";

    let mut transmitter = Transmitter::<TICKS_PER_BIT>::new();
    let mut receiver = Receiver::<TICKS_PER_BIT>::new();
    let mut transmitter_pin = MockPin::new();
    let mut receiver_pin = MockPin::new();

    // Prime the receiver
    let _ = receiver.receive(receiver_pin.is_high());

    transmitter.send(MESSAGE);

    loop {
        if let Some(level) = transmitter.transmit() {
            transmitter_pin.set_state(level);
        }

        if transmitter.is_idle() {
            break;
        }

        synchronize_pins(&transmitter_pin, &mut receiver_pin);

        match receiver.receive(receiver_pin.is_high()) {
            Err(MessageNotReady) => {}
            Err(err) => panic!("Receiver error encoutered: {err:?}"),
            Ok(message) => panic!("Message received too early: {message:?}"),
        }
    }

    let message = receiver
        .receive(receiver_pin.is_high())
        .expect("Error encouterd when message should be present");

    assert!(
        message == MESSAGE,
        "Messages are different
        Initial:  {MESSAGE:?}
        Received: {message:?}"
    );
}

#[test]
fn mock_pin_levels() {
    let mut pin = MockPin::new();
    assert!(pin.is_low());
    pin.set_high();
    assert!(pin.is_high());
    pin.set_low();
    assert!(!pin.is_high());
    let other = MockPin::with_state(true);
    pin.sync_with(&other);
    assert!(pin.is_high());
}

/// Sends `message` from a transmitter to a receiver that samples the line
/// after each transmitter tick, `primed` ticks of a low line earlier on the
/// receiver's side; returns the first answer of the receiver that is not
/// `MessageNotReady`, asking once more after the transmitter is idle.
fn link<const T: u8>(message: &[u8], primed: usize) -> Result<Vec<u8>, ReceiverError> {
    let mut transmitter = Transmitter::<T>::new();
    let mut receiver = Receiver::<T>::new();
    for _ in 0..primed {
        let answer = receiver.receive(false).map(|m| m.to_vec());
        if answer != Err(MessageNotReady) {
            return answer;
        }
    }
    transmitter.send(message);
    let mut line = false;
    loop {
        if let Some(level) = transmitter.transmit() {
            line = level;
        }
        if transmitter.is_idle() {
            break;
        }
        let answer = receiver.receive(line).map(|m| m.to_vec());
        if answer != Err(MessageNotReady) {
            return answer;
        }
    }
    receiver.receive(line).map(|m| m.to_vec())
}

#[test]
fn in_phase_receiver_gets_message() {
    const MESSAGE: &[u8] = b"in phase";
    assert_eq!(link::<2>(MESSAGE, 0), Ok(MESSAGE.to_vec()));
    assert_eq!(link::<5>(MESSAGE, 0), Ok(MESSAGE.to_vec()));
    assert_eq!(link::<8>(MESSAGE, 0), Ok(MESSAGE.to_vec()));
    assert_eq!(link::<140>(MESSAGE, 0), Ok(MESSAGE.to_vec()));
    assert_eq!(link::<180>(MESSAGE, 0), Ok(MESSAGE.to_vec()));
}

#[test]
fn out_of_phase_receiver_may_lose_sync() {
    // One tick out of phase, the PLL does not lock onto two-tick bits
    assert_eq!(link::<2>(b"Hi", 1), Err(ReceiverError::SyncError));
    // but it does onto five-tick bits
    assert_eq!(link::<5>(b"Hi", 1), Ok(b"Hi".to_vec()));
}
