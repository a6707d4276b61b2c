//! The receiving side: a state machine, advanced once per sample of the input
//! line, that recovers bits with a PLL, waits for the sync sequence and the
//! start byte, then decodes the length byte and the message.
use vstd::prelude::*;

use crate::consts::{MAX_BUFFER_SIZE, MAX_MESSAGE_LENGTH, MESSAGE_START_BYTE, SYNC_SEQUENCE_BIT_LENGTH};
use crate::data_coding::radio_head_4b6b::{decoder_step, RunningDecoder, RunningDecoderError};
use crate::driver::pll::Pll;

verus! {

#[derive(Debug, Clone, Copy, PartialEq, Eq, Structural)]
pub enum RxState {
    Idle,
    WaitingForOne,
    Syncing,
    WaitingForStartByte,
    ReadingSize,
    ReadingMessage { message_size: u8 },
    MessageReceived { message_size: u8 },
}

#[derive(Debug, Clone, Copy, PartialEq, Eq, Structural)]
pub enum ReceiverError {
    /// Not an error per se, but an information
    MessageNotReady,
    /// Sync signal is not a repeating sequence of 1s and 0s
    SyncError,
    WrongStartByte,
    MessageTooLong,
    DecoderError(RunningDecoderError),
}

/// What the receiver holds, as plain values.
pub struct RxModel<const TICKS_PER_BIT: u8> {
    pub state: RxState,
    pub bit_index: nat,
    pub ticks: nat,
    pub current_byte: u8,
    pub buffer: Seq<u8>,
    pub buffer_byte_index: nat,
    /// The low half of the byte the decoder has in progress
    pub pending: Option<u8>,
    pub pll: Pll<TICKS_PER_BIT>,
}

/// `byte` with `bit` put at position `index` (0 is the least significant).
pub open spec fn with_bit(byte: u8, bit: u8, index: nat) -> u8 {
    byte | (bit << (index as u8))
}

/// The last eight bits of the sync sequence, least significant first, when
/// its last bit was `last` (the sync sequence alternates).
pub open spec fn sync_tail(last: u8) -> u8 {
    if last == 0 {
        0x55u8
    } else {
        0xAAu8
    }
}

/// The last eight bits received, least significant first, after `bit` arrives.
pub open spec fn shifted_in(window: u8, bit: u8) -> u8 {
    (window >> 1u8) | (bit << 7u8)
}

/// The receiver after `cleanup`: idle, with every counter and the decoder and
/// PLL cleared; the buffer keeps its bytes.
pub open spec fn cleaned<const TICKS_PER_BIT: u8>(m: RxModel<TICKS_PER_BIT>) -> RxModel<
    TICKS_PER_BIT,
> {
    RxModel {
        state: RxState::Idle,
        bit_index: 0,
        ticks: 0,
        current_byte: 0,
        buffer_byte_index: 0,
        pending: None,
        pll: Pll::<TICKS_PER_BIT>::cleared(),
        ..m
    }
}

/// A completed 6-bit symbol `symbol` read while the size or the message is
/// being read: the receiver after handing it to the decoder, with the
/// decoder's outcome.
pub open spec fn symbol_read<const TICKS_PER_BIT: u8>(
    m: RxModel<TICKS_PER_BIT>,
    symbol: u8,
) -> (RxModel<TICKS_PER_BIT>, Result<u8, RunningDecoderError>) {
    let (pending, outcome) = decoder_step(m.pending, symbol);
    (RxModel { bit_index: 0, current_byte: 0, pending, ..m }, outcome)
}

/// What the receiver does with a bit `b` of the PLL while it syncs, waits
/// for the start byte or reads: the receiver after it and what `receive` returns.
pub open spec fn rx_on_bit<const TICKS_PER_BIT: u8>(m: RxModel<TICKS_PER_BIT>, b: u8) -> (
    RxModel<TICKS_PER_BIT>,
    Result<Seq<u8>, ReceiverError>,
) {
    let not_ready = Err(ReceiverError::MessageNotReady);
    match m.state {
        RxState::Syncing => {
            if b == m.current_byte {
                (cleaned(m), Err(ReceiverError::SyncError))
            } else if m.bit_index + 1 >= SYNC_SEQUENCE_BIT_LENGTH {
                (
                    RxModel {
                        state: RxState::WaitingForStartByte,
                        bit_index: 0,
                        current_byte: sync_tail(b),
                        ..m
                    },
                    not_ready,
                )
            } else {
                (RxModel { bit_index: m.bit_index + 1, current_byte: b, ..m }, not_ready)
            }
        },
        RxState::WaitingForStartByte => {
            let c = shifted_in(m.current_byte, b);
            if c == MESSAGE_START_BYTE {
                (
                    RxModel {
                        state: RxState::ReadingSize,
                        bit_index: 0,
                        current_byte: 0,
                        ..m
                    },
                    not_ready,
                )
            } else if m.bit_index + 1 >= 8 {
                (cleaned(m), Err(ReceiverError::WrongStartByte))
            } else {
                (RxModel { bit_index: m.bit_index + 1, current_byte: c, ..m }, not_ready)
            }
        },
        RxState::ReadingSize => {
            let c = with_bit(m.current_byte, b, m.bit_index);
            if m.bit_index + 1 >= 6 {
                let (m2, outcome) = symbol_read(m, c);
                match outcome {
                    Err(RunningDecoderError::ByteNotReady) => (m2, not_ready),
                    Err(e) => (cleaned(m2), Err(ReceiverError::DecoderError(e))),
                    Ok(size) => if size > MAX_MESSAGE_LENGTH {
                        (m2, Err(ReceiverError::MessageTooLong))
                    } else {
                        (
                            RxModel {
                                state: RxState::ReadingMessage { message_size: size },
                                ..m2
                            },
                            not_ready,
                        )
                    },
                }
            } else {
                (RxModel { bit_index: m.bit_index + 1, current_byte: c, ..m }, not_ready)
            }
        },
        RxState::ReadingMessage { message_size } => {
            let c = with_bit(m.current_byte, b, m.bit_index);
            if m.bit_index + 1 >= 6 {
                let (m2, outcome) = symbol_read(m, c);
                match outcome {
                    Err(RunningDecoderError::ByteNotReady) => (m2, not_ready),
                    Err(e) => (cleaned(m2), Err(ReceiverError::DecoderError(e))),
                    Ok(byte) => {
                        let buffer = m.buffer.update(m.buffer_byte_index as int, byte);
                        if m.buffer_byte_index + 1 >= message_size {
                            (
                                RxModel {
                                    state: RxState::MessageReceived { message_size },
                                    buffer,
                                    buffer_byte_index: 0,
                                    ..m2
                                },
                                not_ready,
                            )
                        } else {
                            (
                                RxModel {
                                    buffer,
                                    buffer_byte_index: m.buffer_byte_index + 1,
                                    ..m2
                                },
                                not_ready,
                            )
                        }
                    },
                }
            } else {
                (RxModel { bit_index: m.bit_index + 1, current_byte: c, ..m }, not_ready)
            }
        },
        _ => (m, not_ready),
    }
}

/// One call of `receive` with the line at level `pin`: the receiver after it
/// and what the call returns (the message, or an error).
pub open spec fn rx_step<const TICKS_PER_BIT: u8>(m: RxModel<TICKS_PER_BIT>, pin: bool) -> (
    RxModel<TICKS_PER_BIT>,
    Result<Seq<u8>, ReceiverError>,
) {
    let bit = m.pll.tick_output(pin);
    let m1 = RxModel { pll: m.pll.ticked(pin), ..m };
    let not_ready = Err(ReceiverError::MessageNotReady);
    match m.state {
        RxState::Idle => (RxModel { state: RxState::WaitingForOne, ..m1 }, not_ready),
        RxState::WaitingForOne => if pin {
            (RxModel { state: RxState::Syncing, ticks: m.ticks + 1, ..m1 }, not_ready)
        } else {
            (m1, not_ready)
        },
        RxState::MessageReceived { message_size } => (
            cleaned(m1),
            Ok(m.buffer.take(message_size as int)),
        ),
        _ => match bit {
            None => (m1, not_ready),
            Some(b) => rx_on_bit(m1, b),
        },
    }
}

/// Every error but `MessageNotReady` and `MessageTooLong` leaves the receiver
/// cleaned up: idle, with its counters, decoder and PLL cleared.
pub proof fn lemma_error_resets<const TICKS_PER_BIT: u8>(m: RxModel<TICKS_PER_BIT>, pin: bool)
    ensures
        ({
            let (after, out) = rx_step(m, pin);
            out matches Err(e) && e != ReceiverError::MessageNotReady && e
                != ReceiverError::MessageTooLong ==> after == cleaned(after)
        }),
{
}

pub struct Receiver<const TICKS_PER_BIT: u8> {
    buffer: [u8; MAX_BUFFER_SIZE],
    buffer_byte_index: usize,
    bit_index: usize,
    state: RxState,
    ticks: u8,
    current_byte: u8,
    decoder: RunningDecoder,
    pll: Pll<TICKS_PER_BIT>,
}

impl<const TICKS_PER_BIT: u8> View for Receiver<TICKS_PER_BIT> {
    type V = RxModel<TICKS_PER_BIT>;

    closed spec fn view(&self) -> RxModel<TICKS_PER_BIT> {
        RxModel {
            state: self.state,
            bit_index: self.bit_index as nat,
            ticks: self.ticks as nat,
            current_byte: self.current_byte,
            buffer: self.buffer@,
            buffer_byte_index: self.buffer_byte_index as nat,
            pending: self.decoder.pending(),
            pll: self.pll,
        }
    }
}

/// The message sizes that a state can carry.
pub open spec fn state_size_ok(state: RxState) -> bool {
    match state {
        RxState::ReadingMessage { message_size } => message_size <= MAX_MESSAGE_LENGTH,
        RxState::MessageReceived { message_size } => message_size <= MAX_MESSAGE_LENGTH,
        _ => true,
    }
}

impl<const TICKS_PER_BIT: u8> Receiver<TICKS_PER_BIT> {
    #[verifier::type_invariant]
    spec fn inv(self) -> bool {
        &&& (Pll::<TICKS_PER_BIT>::ticks_supported() ==> self.pll.wf())
        &&& self.bit_index < 16
        &&& (self.state == RxState::Idle || self.state == RxState::WaitingForOne) ==> (
        self.bit_index == 0 && self.ticks == 0)
        &&& self.ticks <= 1
        &&& (self.state == RxState::WaitingForStartByte ==> self.bit_index < 8)
        &&& (self.state == RxState::ReadingSize ==> self.bit_index < 6)
        &&& state_size_ok(self.state)
        &&& match self.state {
            RxState::ReadingMessage { message_size } => self.bit_index < 6 && (
            self.buffer_byte_index < message_size || self.buffer_byte_index == 0),
            _ => self.buffer_byte_index == 0,
        }
    }

    /// An idle receiver with a zeroed buffer.
    pub fn new() -> (res: Self)
        ensures
            res@ == cleaned(
                RxModel {
                    state: RxState::Idle,
                    bit_index: 0,
                    ticks: 0,
                    current_byte: 0,
                    buffer: Seq::new(MAX_BUFFER_SIZE as nat, |i: int| 0u8),
                    buffer_byte_index: 0,
                    pending: None,
                    pll: Pll::<TICKS_PER_BIT>::cleared(),
                },
            ),
    {
        let res = Self {
            buffer: [0; MAX_BUFFER_SIZE],
            bit_index: 0,
            state: RxState::Idle,
            ticks: 0,
            current_byte: 0,
            buffer_byte_index: 0,
            decoder: RunningDecoder::new(),
            pll: Pll::new(),
        };
        assert(res.buffer@ =~= Seq::new(MAX_BUFFER_SIZE as nat, |i: int| 0u8));
        res
    }

    pub fn state(&self) -> (res: RxState)
        ensures
            res == self@.state,
    {
        self.state
    }

    /// The receive buffer; the message is at its start once received.
    pub fn buffer(&self) -> (res: &[u8; MAX_BUFFER_SIZE])
        ensures
            res@ == self@.buffer,
    {
        &self.buffer
    }

    /// Starts the phase `state` from its first bit.
    pub fn set_state(&mut self, state: RxState)
        requires
            state_size_ok(state),
        ensures
            final(self)@ == (RxModel {
                state,
                bit_index: 0,
                ticks: 0,
                current_byte: 0,
                buffer_byte_index: 0,
                ..old(self)@
            }),
    {
        proof {
            use_type_invariant(&*self);
        }
        self.bit_index = 0;
        self.ticks = 0;
        self.current_byte = 0;
        self.buffer_byte_index = 0;
        self.state = state;
    }

    /// Makes the receiver idle and clears its counters, decoder and PLL.
    pub fn cleanup(&mut self)
        ensures
            final(self)@ == cleaned(old(self)@),
    {
        proof {
            use_type_invariant(&*self);
        }
        self.bit_index = 0;
        self.ticks = 0;
        self.current_byte = 0;
        self.buffer_byte_index = 0;
        self.state = RxState::Idle;
        self.decoder.reset();
        self.pll.clear();
    }

    /// Takes one sample of the input line (`pin_state`, high is `true`).
    /// Returns the message once it has been received, or why not: not ready
    /// yet, or an error. An idle receiver starts listening.
    pub fn receive(&mut self, pin_state: bool) -> (res: Result<&[u8], ReceiverError>)
        requires
            Pll::<TICKS_PER_BIT>::ticks_supported(),
        ensures
            ({
                let (m, out) = rx_step(old(self)@, pin_state);
                &&& final(self)@ == m
                &&& match res {
                    Ok(v) => out == Ok::<Seq<u8>, ReceiverError>(v@),
                    Err(e) => out == Err::<Seq<u8>, ReceiverError>(e),
                }
            }),
            res matches Ok(v) ==> old(self)@.state matches RxState::MessageReceived {
                message_size,
            } && v@.len() == message_size,
            res matches Err(e) ==> (e == ReceiverError::MessageNotReady || e
                == ReceiverError::MessageTooLong || final(self)@.state == RxState::Idle),
    {
        proof {
            use_type_invariant(&*self);
        }
        let bit = self.pll.tick(pin_state);

        match self.state {
            RxState::Idle => {
                self.state = RxState::WaitingForOne;
            },
            RxState::WaitingForOne => {
                // If one detected move to the next state
                if pin_state {
                    // Tick was already from the transmitter's sync sequence
                    self.state = RxState::Syncing;
                    self.ticks = self.ticks + 1;
                }
            },
            RxState::Syncing => match self.sync(bit) {
                // Move to the next state
                Ok(true) => self.state = RxState::WaitingForStartByte,
                // Wait for more bits
                Ok(false) => {},
                // Failed
                Err(err) => {
                    self.cleanup();
                    return Err(err);
                },
            },
            RxState::WaitingForStartByte => match self.wait_start_byte(bit) {
                Ok(true) => self.state = RxState::ReadingSize,
                Ok(false) => {},
                Err(err) => {
                    self.cleanup();
                    return Err(err);
                },
            },
            RxState::ReadingSize => match self.read_message_size(bit) {
                Ok((true, size)) => {
                    if size as usize > MAX_MESSAGE_LENGTH {
                        return Err(ReceiverError::MessageTooLong);
                    }
                    self.state = RxState::ReadingMessage { message_size: size };
                },
                Ok((false, _)) => {},
                Err(err) => {
                    self.cleanup();
                    return Err(err);
                },
            },
            RxState::ReadingMessage { message_size } => {
                match self.read_message(message_size, bit) {
                    Ok(true) => self.state = RxState::MessageReceived { message_size },
                    Ok(false) => {},
                    Err(err) => {
                        self.cleanup();
                        return Err(err);
                    },
                }
            },
            RxState::MessageReceived { message_size } => {
                self.cleanup();
                return Ok(vstd::slice::slice_subrange(self.buffer.as_slice(), 0, message_size as usize));
            },
        }

        Err(ReceiverError::MessageNotReady)
    }

    /// Waits for a repeating sequence of 1s and 0s.
    /// If bits are not alternating returns `SyncError`,
    /// if not enough bits are present to sync returns `false`,
    /// otherwise returns `true`.
    fn sync(&mut self, bit: Option<u8>) -> (res: Result<bool, ReceiverError>)
        requires
            old(self).state == RxState::Syncing,
        ensures
            ({
                let m = old(self)@;
                match bit {
                    None => res == Ok::<bool, ReceiverError>(false) && final(self)@ == m,
                    Some(b) => if b == m.current_byte {
                        res == Err::<bool, ReceiverError>(ReceiverError::SyncError) && final(self)@
                            == m
                    } else if m.bit_index + 1 >= SYNC_SEQUENCE_BIT_LENGTH {
                        res == Ok::<bool, ReceiverError>(true) && final(self)@ == (RxModel {
                            bit_index: 0,
                            current_byte: sync_tail(b),
                            ..m
                        })
                    } else {
                        res == Ok::<bool, ReceiverError>(false) && final(self)@ == (RxModel {
                            bit_index: m.bit_index + 1,
                            current_byte: b,
                            ..m
                        })
                    },
                }
            }),
    {
        proof {
            use_type_invariant(&*self);
        }
        // Get bit from ticks
        let state = match bit {
            Some(state) => state,
            None => {
                return Ok(false);
            },
        };

        // If current state is the same as previous one return an error
        if self.current_byte == state {
            return Err(ReceiverError::SyncError);
        }

        let next = self.bit_index + 1;
        if next as u8 >= SYNC_SEQUENCE_BIT_LENGTH {
            // Is synced: keep the last eight sync bits, the start byte is
            // looked for in the bits that follow them
            self.bit_index = 0;
            self.current_byte = if state == 0 {
                0x55
            } else {
                0xAA
            };
            Ok(true)
        } else {
            // Not synced yet
            self.current_byte = state;
            self.bit_index = next;
            Ok(false)
        }
    }

    /// Shifts the next bit into the last eight bits received: `true` once
    /// they are `MESSAGE_START_BYTE`, `Err(WrongStartByte)` when eight bits
    /// came without it, `false` while waiting.
    fn wait_start_byte(&mut self, bit: Option<u8>) -> (res: Result<bool, ReceiverError>)
        requires
            old(self).state == RxState::WaitingForStartByte,
            bit matches Some(b) ==> b < 2,
        ensures
            ({
                let m = old(self)@;
                match bit {
                    None => res == Ok::<bool, ReceiverError>(false) && final(self)@ == m,
                    Some(b) => {
                        let c = shifted_in(m.current_byte, b);
                        if c == MESSAGE_START_BYTE {
                            res == Ok::<bool, ReceiverError>(true) && final(self)@ == (RxModel {
                                bit_index: 0,
                                current_byte: 0,
                                ..m
                            })
                        } else if m.bit_index + 1 >= 8 {
                            res == Err::<bool, ReceiverError>(ReceiverError::WrongStartByte)
                                && final(self)@.buffer == m.buffer && final(self)@.pll == m.pll
                        } else {
                            res == Ok::<bool, ReceiverError>(false) && final(self)@ == (RxModel {
                                bit_index: m.bit_index + 1,
                                current_byte: c,
                                ..m
                            })
                        }
                    },
                }
            }),
            final(self).state == old(self).state,
    {
        proof {
            use_type_invariant(&*self);
        }
        let bit = match bit {
            Some(bit) => bit,
            None => {
                return Ok(false);
            },
        };
        let window = (self.current_byte >> 1) | (bit << 7);
        if window == MESSAGE_START_BYTE {
            self.current_byte = 0;
            self.bit_index = 0;
            return Ok(true);
        }
        let next = self.bit_index + 1;
        if next >= 8 {
            return Err(ReceiverError::WrongStartByte);
        }
        self.current_byte = window;
        self.bit_index = next;
        Ok(false)
    }

    /// Reads the message size from 2 incoming 6-bit symbols.
    /// Returns `(true, size)` when the decoder finishes decoding them,
    /// `(false, _)` before that, and `ReceiverError::DecoderError` when the
    /// decoder is unable to decode a symbol.
    fn read_message_size(&mut self, bit: Option<u8>) -> (res: Result<(bool, u8), ReceiverError>)
        requires
            old(self).state == RxState::ReadingSize,
            bit matches Some(b) ==> b < 2,
        ensures
            ({
                let m = old(self)@;
                match bit {
                    None => res == Ok::<(bool, u8), ReceiverError>((false, 0)) && final(self)@
                        == m,
                    Some(b) => {
                        let c = with_bit(m.current_byte, b, m.bit_index);
                        if m.bit_index + 1 >= 6 {
                            let (m2, outcome) = symbol_read(m, c);
                            final(self)@ == m2 && match outcome {
                                Err(RunningDecoderError::ByteNotReady) => res == Ok::<
                                    (bool, u8),
                                    ReceiverError,
                                >((false, 0)),
                                Err(e) => res == Err::<(bool, u8), ReceiverError>(
                                    ReceiverError::DecoderError(e),
                                ),
                                Ok(size) => res == Ok::<(bool, u8), ReceiverError>((true, size)),
                            }
                        } else {
                            res == Ok::<(bool, u8), ReceiverError>((false, 0)) && final(self)@ == (
                            RxModel { bit_index: m.bit_index + 1, current_byte: c, ..m })
                        }
                    },
                }
            }),
    {
        proof {
            use_type_invariant(&*self);
        }
        let bit = match bit {
            Some(bit) => bit,
            None => {
                return Ok((false, 0));
            },
        };
        let byte = self.current_byte | (bit << (self.bit_index as u8));
        let next = self.bit_index + 1;

        if next >= 6 {
            self.bit_index = 0;
            self.current_byte = 0;
            let decoder_res = self.decoder.next_nibble(byte);

            match decoder_res {
                Err(RunningDecoderError::ByteNotReady) => {
                    return Ok((false, 0));
                },
                Err(err) => {
                    return Err(ReceiverError::DecoderError(err));
                },
                Ok(size) => {
                    return Ok((true, size));
                },
            }
        }
        self.current_byte = byte;
        self.bit_index = next;
        Ok((false, 0))
    }

    /// Reads the message, one 6-bit symbol at a time, into the buffer.
    /// Returns `true` once `message_size` bytes have been stored.
    fn read_message(&mut self, message_size: u8, bit: Option<u8>) -> (res: Result<
        bool,
        ReceiverError,
    >)
        requires
            old(self).state == (RxState::ReadingMessage { message_size }),
            bit matches Some(b) ==> b < 2,
        ensures
            ({
                let m = old(self)@;
                match bit {
                    None => res == Ok::<bool, ReceiverError>(false) && final(self)@ == m,
                    Some(b) => {
                        let c = with_bit(m.current_byte, b, m.bit_index);
                        if m.bit_index + 1 >= 6 {
                            let (m2, outcome) = symbol_read(m, c);
                            match outcome {
                                Err(RunningDecoderError::ByteNotReady) => res == Ok::<
                                    bool,
                                    ReceiverError,
                                >(false) && final(self)@ == m2,
                                Err(e) => res == Err::<bool, ReceiverError>(
                                    ReceiverError::DecoderError(e),
                                ) && final(self)@.buffer == m.buffer,
                                Ok(byte) => {
                                    let buffer = m.buffer.update(
                                        m.buffer_byte_index as int,
                                        byte,
                                    );
                                    if m.buffer_byte_index + 1 >= message_size {
                                        res == Ok::<bool, ReceiverError>(true) && final(self)@ == (
                                        RxModel { buffer, buffer_byte_index: 0, ..m2 })
                                    } else {
                                        res == Ok::<bool, ReceiverError>(false) && final(self)@
                                            == (RxModel {
                                            buffer,
                                            buffer_byte_index: m.buffer_byte_index + 1,
                                            ..m2
                                        })
                                    }
                                },
                            }
                        } else {
                            res == Ok::<bool, ReceiverError>(false) && final(self)@ == (RxModel {
                                bit_index: m.bit_index + 1,
                                current_byte: c,
                                ..m
                            })
                        }
                    },
                }
            }),
            final(self).state == old(self).state,
    {
        proof {
            use_type_invariant(&*self);
        }
        let bit = match bit {
            Some(bit) => bit,
            None => {
                return Ok(false);
            },
        };
        let byte = self.current_byte | (bit << (self.bit_index as u8));
        let next = self.bit_index + 1;

        // 6-bit encoded symbol
        if next >= 6 {
            self.bit_index = 0;
            self.current_byte = 0;
            let decoder_res = self.decoder.next_nibble(byte);

            match decoder_res {
                Err(RunningDecoderError::ByteNotReady) => {
                    return Ok(false);
                },
                Err(err) => {
                    return Err(ReceiverError::DecoderError(err));
                },
                Ok(decoded) => {
                    self.buffer[self.buffer_byte_index] = decoded;
                    let index = self.buffer_byte_index + 1;
                    if index >= message_size as usize {
                        self.buffer_byte_index = 0;
                        return Ok(true);
                    }
                    self.buffer_byte_index = index;
                    return Ok(false);
                },
            }
        }
        self.current_byte = byte;
        self.bit_index = next;
        Ok(false)
    }
}

} // verus!
