//! The transmitting side: a state machine, advanced once per tick, that says
//! which level the output line takes. Each bit is held for `TICKS_PER_BIT`
//! ticks; the sync bytes, the start byte and the 6-bit symbols of the encoded
//! message go out least significant bit first.
use vstd::prelude::*;

use crate::consts::{MAX_BUFFER_SIZE, MAX_MESSAGE_LENGTH, MESSAGE_START_BYTE, SYNC_BYTE, SYNC_SEQUENCE_BIT_LENGTH};
use crate::data_coding::radio_head_4b6b::{
    byte_of_symbols,
    decoded_pair,
    encode_in_place,
    encoded,
    lemma_encode_then_decode,
    pairs_known,
};

verus! {

#[derive(Debug, Clone, Copy, PartialEq, Eq, Structural)]
pub enum TxState {
    Idle,
    Syncing,
    SendingStartByte,
    SendingData,
    DataSent,
}

/// Bit `i` (0 is the least significant) of `byte`.
pub open spec fn bit_of(byte: u8, i: nat) -> bool {
    (byte >> (i as u8)) & 1u8 == 1u8
}

/// What the transmitter holds, as plain values.
pub struct TxModel {
    pub buffer: Seq<u8>,
    pub message_bit_length: nat,
    pub bit_index: nat,
    pub byte_index: nat,
    pub state: TxState,
    pub ticks: nat,
}

/// `buffer` with the length byte `n` at position 0 and the first `n` bytes of
/// `bytes` after it.
pub open spec fn framed(buffer: Seq<u8>, bytes: Seq<u8>, n: int) -> Seq<u8> {
    Seq::new(
        buffer.len(),
        |i: int|
            if i == 0 {
                n as u8
            } else if i <= n {
                bytes[i - 1]
            } else {
                buffer[i]
            },
    )
}

/// The number of bytes that `send` takes from a message of length `len`.
pub open spec fn sent_length(len: int) -> int {
    if len > MAX_MESSAGE_LENGTH {
        MAX_MESSAGE_LENGTH as int
    } else {
        len
    }
}

/// One call of `transmit`: the transmitter after it, and the level it puts on
/// the line (`None` when the line is left alone).
pub open spec fn tx_step(m: TxModel, ticks_per_bit: int) -> (TxModel, Option<bool>) {
    if m.ticks != 0 {
        // Hold the state for the rest of the bit
        let t = m.ticks + 1;
        (
            TxModel {
                ticks: if t >= ticks_per_bit {
                    0
                } else {
                    t
                },
                ..m
            },
            None,
        )
    } else {
        let m1 = TxModel { ticks: 1, ..m };
        match m.state {
            TxState::Idle => (TxModel { ticks: 0, ..m }, None),
            TxState::Syncing => {
                let level = bit_of(SYNC_BYTE, m.bit_index % 8);
                if m.bit_index + 1 >= SYNC_SEQUENCE_BIT_LENGTH {
                    (
                        TxModel { bit_index: 0, state: TxState::SendingStartByte, ..m1 },
                        Some(level),
                    )
                } else {
                    (TxModel { bit_index: m.bit_index + 1, ..m1 }, Some(level))
                }
            },
            TxState::SendingStartByte => {
                let level = bit_of(MESSAGE_START_BYTE, m.bit_index);
                if m.bit_index + 1 >= 8 {
                    (TxModel { bit_index: 0, state: TxState::SendingData, ..m1 }, Some(level))
                } else {
                    (TxModel { bit_index: m.bit_index + 1, ..m1 }, Some(level))
                }
            },
            TxState::SendingData => {
                let level = bit_of(m.buffer[m.byte_index as int], m.bit_index);
                let next_bit: nat = if m.bit_index + 1 >= 6 {
                    0
                } else {
                    m.bit_index + 1
                };
                let next_byte: nat = if m.bit_index + 1 >= 6 {
                    m.byte_index + 1
                } else {
                    m.byte_index
                };
                if next_byte * 6 + next_bit >= m.message_bit_length {
                    (
                        TxModel { bit_index: 0, byte_index: 0, state: TxState::DataSent, ..m1 },
                        Some(level),
                    )
                } else {
                    (TxModel { bit_index: next_bit, byte_index: next_byte, ..m1 }, Some(level))
                }
            },
            TxState::DataSent => (
                TxModel {
                    bit_index: 0,
                    byte_index: 0,
                    message_bit_length: 0,
                    state: TxState::Idle,
                    ..m1
                },
                None,
            ),
        }
    }
}

/// The transmitter after `k` calls of `transmit`.
pub open spec fn tx_run(m: TxModel, ticks_per_bit: int, k: nat) -> TxModel
    decreases k,
{
    if k == 0 {
        m
    } else {
        tx_step(tx_run(m, ticks_per_bit, (k - 1) as nat), ticks_per_bit).0
    }
}

/// Once a bit has started (the tick counter is at 1), the line is left alone
/// for the next `ticks_per_bit - 1` calls of `transmit`, after which the
/// transmitter is ready for the next bit with nothing else changed: every
/// bit is held for `ticks_per_bit` ticks.
pub proof fn lemma_bit_held(m: TxModel, ticks_per_bit: int)
    requires
        ticks_per_bit >= 2,
        m.ticks == 1,
    ensures
        forall|j: nat|
            j < ticks_per_bit - 1 ==> (#[trigger] tx_step(tx_run(m, ticks_per_bit, j), ticks_per_bit)).1
                is None,
        tx_run(m, ticks_per_bit, (ticks_per_bit - 1) as nat) == (TxModel { ticks: 0, ..m }),
{
    lemma_holding(m, ticks_per_bit, (ticks_per_bit - 1) as nat);
}

proof fn lemma_holding(m: TxModel, ticks_per_bit: int, k: nat)
    requires
        ticks_per_bit >= 2,
        m.ticks == 1,
        k <= ticks_per_bit - 1,
    ensures
        tx_run(m, ticks_per_bit, k) == (TxModel {
            ticks: if k == ticks_per_bit - 1 {
                0
            } else {
                k + 1
            },
            ..m
        }),
        forall|j: nat|
            j < k ==> (#[trigger] tx_step(tx_run(m, ticks_per_bit, j), ticks_per_bit)).1 is None,
    decreases k,
{
    if k > 0 {
        lemma_holding(m, ticks_per_bit, (k - 1) as nat);
        assert forall|j: nat| j < k implies (#[trigger] tx_step(
            tx_run(m, ticks_per_bit, j),
            ticks_per_bit,
        )).1 is None by {
            if j < k - 1 {
            } else {
                assert(j == k - 1);
            }
        }
    }
}

/// The buffer that `send` encodes decodes to the length byte and the message.
proof fn lemma_sent_frame_decodes(buffer: Seq<u8>, bytes: Seq<u8>, n: int)
    requires
        buffer.len() == MAX_BUFFER_SIZE,
        0 <= n <= MAX_MESSAGE_LENGTH,
        n <= bytes.len(),
    ensures
        ({
            let e = encoded(framed(buffer, bytes, n), n + 1);
            &&& pairs_known(e, n + 1)
            &&& decoded_pair(e, 0) == n
            &&& forall|i: int| 1 <= i <= n ==> #[trigger] decoded_pair(e, i) == bytes[i - 1]
        }),
{
    let f = framed(buffer, bytes, n);
    let e = encoded(f, n + 1);
    lemma_encode_then_decode(f, n + 1);
    assert forall|k: int| 0 <= k < n + 1 implies (#[trigger] byte_of_symbols(
        e[2 * k],
        e[2 * k + 1],
    )) is Some by {
        assert(pairs_known(e, MAX_BUFFER_SIZE as int / 2));
    }
    assert forall|i: int| 1 <= i <= n implies #[trigger] decoded_pair(e, i) == bytes[i - 1] by {
        assert(f[i] == bytes[i - 1]);
    }
}

pub struct Transmitter<const TICKS_PER_BIT: u8> {
    buffer: [u8; MAX_BUFFER_SIZE],
    message_bit_length: usize,
    bit_index: usize,
    byte_index: usize,
    state: TxState,
    ticks: u8,
}

impl<const TICKS_PER_BIT: u8> View for Transmitter<TICKS_PER_BIT> {
    type V = TxModel;

    closed spec fn view(&self) -> TxModel {
        TxModel {
            buffer: self.buffer@,
            message_bit_length: self.message_bit_length as nat,
            bit_index: self.bit_index as nat,
            byte_index: self.byte_index as nat,
            state: self.state,
            ticks: self.ticks as nat,
        }
    }
}

impl<const TICKS_PER_BIT: u8> Transmitter<TICKS_PER_BIT> {
    #[verifier::type_invariant]
    spec fn inv(self) -> bool {
        &&& (self.ticks < 2 || self.ticks < TICKS_PER_BIT)
        &&& self.bit_index < 16
        &&& self.byte_index < MAX_BUFFER_SIZE
        &&& self.message_bit_length <= MAX_BUFFER_SIZE * 6
        &&& (self.state == TxState::SendingStartByte ==> self.bit_index < 8)
        &&& (self.state == TxState::SendingData ==> self.bit_index < 6)
    }

    /// An idle transmitter with a zeroed buffer.
    pub fn new() -> (res: Self)
        ensures
            res@ == (TxModel {
                buffer: Seq::new(MAX_BUFFER_SIZE as nat, |i: int| 0u8),
                message_bit_length: 0,
                bit_index: 0,
                byte_index: 0,
                state: TxState::Idle,
                ticks: 0,
            }),
    {
        let res = Self {
            buffer: [0; MAX_BUFFER_SIZE],
            message_bit_length: 0,
            bit_index: 0,
            byte_index: 0,
            state: TxState::Idle,
            ticks: 0,
        };
        assert(res.buffer@ =~= Seq::new(MAX_BUFFER_SIZE as nat, |i: int| 0u8));
        res
    }

    pub fn is_idle(&self) -> (res: bool)
        ensures
            res == (self@.state == TxState::Idle),
    {
        matches!(self.state, TxState::Idle)
    }

    /// The phase the transmitter is in.
    pub fn state(&self) -> (res: TxState)
        ensures
            res == self@.state,
    {
        self.state
    }

    /// The transmit buffer: the encoded length byte and message.
    pub fn buffer(&self) -> (res: &[u8; MAX_BUFFER_SIZE])
        ensures
            res@ == self@.buffer,
    {
        &self.buffer
    }

    /// Starts the phase `state` from its first bit.
    pub fn set_state(&mut self, state: TxState)
        ensures
            final(self)@ == (TxModel { state, bit_index: 0, byte_index: 0, ticks: 0, ..old(self)@ }),
    {
        proof {
            use_type_invariant(&*self);
        }
        self.bit_index = 0;
        self.byte_index = 0;
        self.ticks = 0;
        self.state = state;
    }

    /// Puts `frame` at the start of the buffer as the data to send, without
    /// encoding it, and sends `bit_length` bits of it.
    pub fn load_frame(&mut self, frame: &[u8], bit_length: usize)
        requires
            frame@.len() <= MAX_BUFFER_SIZE,
            bit_length <= MAX_BUFFER_SIZE * 6,
        ensures
            final(self)@ == (TxModel {
                buffer: frame@ + old(self)@.buffer.skip(frame@.len() as int),
                message_bit_length: bit_length as nat,
                ..old(self)@
            }),
    {
        proof {
            use_type_invariant(&*self);
        }
        let mut i: usize = 0;
        while i < frame.len()
            invariant
                i <= frame@.len() <= MAX_BUFFER_SIZE,
                self.buffer@ == frame@.take(i as int) + old(self)@.buffer.skip(i as int),
                self.message_bit_length == old(self)@.message_bit_length,
                self.bit_index == old(self)@.bit_index,
                self.byte_index == old(self)@.byte_index,
                self.state == old(self)@.state,
                self.ticks == old(self)@.ticks,
            decreases frame@.len() - i,
        {
            proof {
                use_type_invariant(&*self);
            }
            self.buffer[i] = frame[i];
            i += 1;
            assert(self.buffer@ =~= frame@.take(i as int) + old(self)@.buffer.skip(i as int));
        }
        assert(frame@.take(i as int) =~= frame@);
        self.message_bit_length = bit_length;
    }

    /// Stops sending and forgets the message.
    pub fn cleanup(&mut self)
        ensures
            final(self)@ == (TxModel {
                bit_index: 0,
                byte_index: 0,
                message_bit_length: 0,
                state: TxState::Idle,
                ..old(self)@
            }),
    {
        proof {
            use_type_invariant(&*self);
        }
        self.bit_index = 0;
        self.byte_index = 0;
        self.message_bit_length = 0;
        self.state = TxState::Idle;
    }

    /// Advances the transmitter by one tick; returns the level to put on the
    /// line when a new bit starts, `None` when the line keeps its level.
    pub fn transmit(&mut self) -> (res: Option<bool>)
        ensures
            (final(self)@, res) == tx_step(old(self)@, TICKS_PER_BIT as int),
    {
        proof {
            use_type_invariant(&*self);
        }
        // Hold state for TICKS_PER_BIT
        if self.ticks != 0 {
            let ticks = self.ticks + 1;
            self.ticks = if ticks >= TICKS_PER_BIT {
                0
            } else {
                ticks
            };
            return None;
        }
        self.ticks += 1;

        match self.state {
            TxState::Idle => {
                // Don't tick on idle
                self.ticks = 0;
                None
            },
            TxState::Syncing => {
                let level = self.send_sync();
                if self.bit_index == 0 {
                    self.state = TxState::SendingStartByte;
                }
                Some(level)
            },
            TxState::SendingStartByte => {
                let level = self.send_start_byte();
                if self.bit_index == 0 {
                    self.state = TxState::SendingData;
                }
                Some(level)
            },
            TxState::SendingData => {
                let (level, done) = self.send_data();
                if done {
                    self.state = TxState::DataSent;
                }
                Some(level)
            },
            TxState::DataSent => {
                self.cleanup();
                None
            },
        }
    }

    /// Sends the next bit of the synchronization bytes, least significant
    /// bit first; wraps `bit_index` to 0 when all are sent.
    fn send_sync(&mut self) -> (level: bool)
        requires
            old(self).state == TxState::Syncing,
        ensures
            level == bit_of(SYNC_BYTE, old(self).bit_index as nat % 8),
            final(self).bit_index == if old(self).bit_index + 1 >= SYNC_SEQUENCE_BIT_LENGTH {
                0
            } else {
                old(self).bit_index + 1
            },
            final(self).state == old(self).state,
            final(self).buffer == old(self).buffer,
            final(self).byte_index == old(self).byte_index,
            final(self).message_bit_length == old(self).message_bit_length,
            final(self).ticks == old(self).ticks,
    {
        proof {
            use_type_invariant(&*self);
        }
        // Extract 3 ls bits to not use % operator
        let index = self.bit_index;
        let bit = index & 0x7;
        assert(index & 0x7 == index % 8) by (bit_vector);
        let level = (SYNC_BYTE >> (bit as u8)) & 0x1 == 1;
        let next = self.bit_index + 1;
        // If synced clean bit_index and move along
        self.bit_index = if next >= SYNC_SEQUENCE_BIT_LENGTH as usize {
            0
        } else {
            next
        };
        level
    }

    /// Sends the next bit of the message start byte, least significant bit
    /// first; wraps `bit_index` to 0 when all are sent.
    fn send_start_byte(&mut self) -> (level: bool)
        requires
            old(self).state == TxState::SendingStartByte,
        ensures
            level == bit_of(MESSAGE_START_BYTE, old(self).bit_index as nat),
            final(self).bit_index == if old(self).bit_index + 1 >= 8 {
                0
            } else {
                old(self).bit_index + 1
            },
            final(self).state == old(self).state,
            final(self).buffer == old(self).buffer,
            final(self).byte_index == old(self).byte_index,
            final(self).message_bit_length == old(self).message_bit_length,
            final(self).ticks == old(self).ticks,
    {
        proof {
            use_type_invariant(&*self);
        }
        let level = (MESSAGE_START_BYTE >> (self.bit_index as u8)) & 0x1 == 1;
        let next = self.bit_index + 1;
        self.bit_index = if next >= 8 {
            0
        } else {
            next
        };
        level
    }

    /// Sends the next of the six low bits of the current buffer byte, least
    /// significant bit first; returns the level and whether the message is
    /// complete (then both indices are back at 0).
    fn send_data(&mut self) -> (res: (bool, bool))
        requires
            old(self).state == TxState::SendingData,
        ensures
            ({
                let (m, lvl) = tx_step(
                    TxModel { ticks: 0, ..old(self)@ },
                    TICKS_PER_BIT as int,
                );
                &&& res.0 == lvl->0
                &&& res.1 == (m.state == TxState::DataSent)
                &&& final(self).bit_index == m.bit_index
                &&& final(self).byte_index == m.byte_index
            }),
            final(self).state == old(self).state,
            final(self).buffer == old(self).buffer,
            final(self).message_bit_length == old(self).message_bit_length,
            final(self).ticks == old(self).ticks,
    {
        proof {
            use_type_invariant(&*self);
        }
        let level = (self.buffer[self.byte_index] >> (self.bit_index as u8)) & 0x1 == 1;
        let mut bit_index = self.bit_index + 1;
        let mut byte_index = self.byte_index;
        // Send 6 bits out of every byte, as encoding uses only 6 bits
        if bit_index >= 6 {
            bit_index = 0;
            byte_index += 1;
        }
        if byte_index * 6 + bit_index >= self.message_bit_length {
            self.bit_index = 0;
            self.byte_index = 0;
            return (level, true);
        }
        self.bit_index = bit_index;
        self.byte_index = byte_index;
        (level, false)
    }

    /// Puts the length byte and the first `min(bytes.len(), MAX_MESSAGE_LENGTH)`
    /// bytes of `bytes` into the buffer, encodes them and starts sending.
    /// Returns the number of message bytes taken.
    pub fn send(&mut self, bytes: &[u8]) -> (res: Option<usize>)
        ensures
            ({
                let n = sent_length(bytes@.len() as int);
                &&& res == Some(n as usize)
                &&& final(self)@ == (TxModel {
                    buffer: encoded(framed(old(self)@.buffer, bytes@, n), n + 1),
                    message_bit_length: ((n + 1) * 12) as nat,
                    state: TxState::Syncing,
                    ..old(self)@
                })
                &&& pairs_known(final(self)@.buffer, n + 1)
                &&& decoded_pair(final(self)@.buffer, 0) == n
                &&& forall|i: int|
                    1 <= i <= n ==> #[trigger] decoded_pair(final(self)@.buffer, i) == bytes@[i - 1]
            }),
    {
        proof {
            use_type_invariant(&*self);
        }
        // n_bytes = min(bytes.len(), MAX_MESSAGE_LENGTH)
        let n_bytes = if bytes.len() > MAX_MESSAGE_LENGTH {
            MAX_MESSAGE_LENGTH
        } else {
            bytes.len()
        };
        let ghost old_buffer = self.buffer@;
        // Set message length as first byte
        self.buffer[0] = n_bytes as u8;
        // Populate buffer
        let mut i: usize = 0;
        while i < n_bytes
            invariant
                n_bytes <= MAX_MESSAGE_LENGTH,
                n_bytes <= bytes@.len(),
                i <= n_bytes,
                self.buffer@.len() == MAX_BUFFER_SIZE,
                old_buffer.len() == MAX_BUFFER_SIZE,
                self.bit_index == old(self).bit_index,
                self.byte_index == old(self).byte_index,
                self.ticks == old(self).ticks,
                self.state == old(self).state,
                self.message_bit_length == old(self).message_bit_length,
                forall|p: int|
                    0 <= p < MAX_BUFFER_SIZE ==> #[trigger] self.buffer@[p] == if p == 0 {
                        n_bytes as u8
                    } else if p <= i {
                        bytes@[p - 1]
                    } else {
                        old_buffer[p]
                    },
            decreases n_bytes - i,
        {
            proof {
                use_type_invariant(&*self);
            }
            self.buffer[i + 1] = bytes[i];
            i += 1;
        }
        proof {
            use_type_invariant(&*self);
        }
        let ghost before_encoding = self.buffer@;
        assert(before_encoding =~= framed(old_buffer, bytes@, n_bytes as int));
        // (message size + byte for length) * encoded nibble size * nibbles per byte
        self.message_bit_length = (n_bytes + 1) * 6 * 2;

        // Encode data
        match encode_in_place(&mut self.buffer, n_bytes + 1) {
            Ok(_) => {
                self.state = TxState::Syncing;
                proof {
                    lemma_sent_frame_decodes(old_buffer, bytes@, n_bytes as int);
                }
                Some(n_bytes)
            },
            Err(_) => {
                // The buffer always has room for the encoding of the frame
                assert(false);
                None
            },
        }
    }
}

} // verus!
