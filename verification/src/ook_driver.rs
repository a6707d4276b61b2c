//! A half-duplex on-off keying driver that both sends and receives over one
//! pair of lines. It is advanced by `tick`, once per sample period; a bit
//! lasts `ticks_per_bit` ticks, and symbols travel most significant bit first.
//! Its transmit and receive buffers are `heapless` vectors.
use vstd::prelude::*;

use crate::consts::{MAX_BUFFER_SIZE, MAX_MESSAGE_LENGTH, MESSAGE_START_BYTE, PREAMBLE, PREAMBLE_SIZE, SYNC_SEQUENCE_BIT_LENGTH};
use crate::data_coding::radio_head_4b6b::{
    byte_of_symbols,
    decoded_pair,
    decoder_step,
    encode_in_place,
    encoded,
    lemma_encode_then_decode,
    pairs_known,
    RunningDecoder,
    RunningDecoderError,
};

verus! {

// ===== The buffers: heapless::Vec =====

#[verifier::external_type_specification]
#[verifier::external_body]
#[verifier::reject_recursive_types(T)]
pub struct ExHeaplessVec<T, const N: usize>(heapless::Vec<T, N>);

/// The bytes held by a byte buffer of capacity `MAX_BUFFER_SIZE`.
pub uninterp spec fn frame_contents(v: heapless::Vec<u8, MAX_BUFFER_SIZE>) -> Seq<u8>;

/// `heapless::Vec::new`: an empty vector.
#[verifier::external_body]
fn frame_new() -> (v: heapless::Vec<u8, MAX_BUFFER_SIZE>)
    ensures
        frame_contents(v) == Seq::<u8>::empty(),
{
    heapless::Vec::new()
}

/// `heapless::Vec::clear`: removes every element.
#[verifier::external_body]
fn frame_clear(v: &mut heapless::Vec<u8, MAX_BUFFER_SIZE>)
    ensures
        frame_contents(*final(v)) == Seq::<u8>::empty(),
{
    v.clear()
}

/// `heapless::Vec::push`: appends `item` when the vector is not full, and
/// otherwise hands it back unchanged.
#[verifier::external_body]
fn frame_push(v: &mut heapless::Vec<u8, MAX_BUFFER_SIZE>, item: u8) -> (res: Result<(), u8>)
    ensures
        frame_contents(*old(v)).len() < MAX_BUFFER_SIZE ==> res is Ok && frame_contents(*final(v))
            == frame_contents(*old(v)).push(item),
        frame_contents(*old(v)).len() >= MAX_BUFFER_SIZE ==> (res matches Err(back) && back == item)
            && frame_contents(*final(v)) == frame_contents(*old(v)),
{
    v.push(item)
}

/// `heapless::Vec::extend`: appends the items of `items`, in order. It
/// panics when they do not all fit, which the precondition rules out.
#[verifier::external_body]
fn frame_extend(v: &mut heapless::Vec<u8, MAX_BUFFER_SIZE>, items: &[u8])
    requires
        frame_contents(*old(v)).len() + items@.len() <= MAX_BUFFER_SIZE,
    ensures
        frame_contents(*final(v)) == frame_contents(*old(v)) + items@,
{
    v.extend(items.iter().copied())
}

/// `heapless::Vec::as_slice`: the elements, in order.
#[verifier::external_body]
fn frame_as_slice(v: &heapless::Vec<u8, MAX_BUFFER_SIZE>) -> (s: &[u8])
    ensures
        s@ == frame_contents(*v),
{
    v.as_slice()
}

/// `heapless::Vec::as_mut_slice`: the elements, to be changed in place; the
/// vector holds what the slice holds when the borrow ends.
#[verifier::external_body]
fn frame_as_mut_slice(v: &mut heapless::Vec<u8, MAX_BUFFER_SIZE>) -> (s: &mut [u8])
    ensures
        s@ == frame_contents(*old(v)),
        final(s)@ == frame_contents(*final(v)),
{
    v.as_mut_slice()
}

// ===== Types =====

#[derive(Debug, Clone, Copy, PartialEq, Eq, Structural)]
pub enum OokMode {
    Idle,
    Transmit,
    Receive,
}

#[derive(Debug, Clone, Copy, PartialEq, Eq, Structural)]
pub enum ReceiverError {
    MessageNotReady,
}

#[derive(Debug, Clone, Copy, PartialEq, Eq, Structural)]
pub enum FatalReceiverError {
    UnknownReceiverSymbol(u8),
}

/// What the driver holds, as plain values.
pub struct OokModel {
    pub tx_buf: Seq<u8>,
    pub tx_buf_index: nat,
    pub tx_bit_index: nat,
    pub tx_current_tick: nat,
    pub tx_preamble_sent: bool,
    pub rx_buf: Seq<u8>,
    pub rx_byte: u8,
    pub rx_bit_index: nat,
    pub rx_message_length: u8,
    pub rx_message_received: bool,
    pub rx_message_started: bool,
    pub rx_current_tick: nat,
    pub rx_n_ones_in_tick: nat,
    pub rx_detected_one: bool,
    pub rx_sync_n_correct_bits: nat,
    pub rx_sync_bits: u8,
    pub rx_synced: bool,
    /// The low half of the byte the decoder has in progress
    pub rx_pending: Option<u8>,
    pub rx_error: Option<FatalReceiverError>,
    pub mode: OokMode,
    pub ticks_per_bit: nat,
}

// ===== Model of each step =====

/// Bit `i` of the six low bits of `byte`, counted from the most significant.
pub open spec fn msb6_bit(byte: u8, i: nat) -> bool {
    (byte >> ((5 - i) as u8)) & 1u8 == 1u8
}

/// The driver after a transmission ends: idle, with the line low.
pub open spec fn ended(m: OokModel) -> OokModel {
    OokModel {
        tx_bit_index: 0,
        tx_buf_index: 0,
        mode: OokMode::Idle,
        tx_current_tick: 0,
        tx_preamble_sent: false,
        ..m
    }
}

/// One tick of transmission: the driver after it and the level of the line.
/// The preamble goes first, then the buffer; each 6-bit symbol is held for
/// `ticks_per_bit` ticks per bit.
pub open spec fn ook_transmit(m: OokModel) -> (OokModel, bool) {
    let byte = if !m.tx_preamble_sent {
        PREAMBLE@[m.tx_buf_index as int]
    } else {
        m.tx_buf[m.tx_buf_index as int]
    };
    let level = msb6_bit(byte, m.tx_bit_index);
    let tick = m.tx_current_tick + 1;
    if tick < m.ticks_per_bit {
        (OokModel { tx_current_tick: tick, ..m }, level)
    } else if m.tx_bit_index + 1 < 6 {
        (OokModel { tx_current_tick: 0, tx_bit_index: m.tx_bit_index + 1, ..m }, level)
    } else if !m.tx_preamble_sent && m.tx_buf_index + 1 == PREAMBLE_SIZE {
        (
            OokModel {
                tx_current_tick: 0,
                tx_bit_index: 0,
                tx_buf_index: 0,
                tx_preamble_sent: true,
                ..m
            },
            level,
        )
    } else if m.tx_buf_index + 1 >= m.tx_buf.len() {
        (ended(m), false)
    } else {
        (
            OokModel {
                tx_current_tick: 0,
                tx_bit_index: 0,
                tx_buf_index: m.tx_buf_index + 1,
                ..m
            },
            level,
        )
    }
}

/// One sample of the input line: a bit is 1 when at least half of its
/// `ticks_per_bit` samples were high.
pub open spec fn ook_get_bit(m: OokModel, state: bool) -> (OokModel, Option<u8>) {
    let ones = m.rx_n_ones_in_tick + if state {
        1nat
    } else {
        0nat
    };
    let tick = m.rx_current_tick + 1;
    if tick < m.ticks_per_bit {
        (OokModel { rx_n_ones_in_tick: ones, rx_current_tick: tick, ..m }, None)
    } else {
        (
            OokModel { rx_n_ones_in_tick: 0, rx_current_tick: 0, ..m },
            Some(
                if ones >= m.ticks_per_bit / 2 {
                    1u8
                } else {
                    0u8
                },
            ),
        )
    }
}

/// The number of high samples among `samples`.
pub open spec fn ones_among(samples: Seq<bool>) -> nat
    decreases samples.len(),
{
    if samples.len() == 0 {
        0
    } else {
        ones_among(samples.drop_last()) + if samples.last() {
            1nat
        } else {
            0nat
        }
    }
}

/// The receiver after the samples `samples` are counted in turn.
pub open spec fn get_bit_run(m: OokModel, samples: Seq<bool>) -> OokModel
    decreases samples.len(),
{
    if samples.len() == 0 {
        m
    } else {
        ook_get_bit(get_bit_run(m, samples.drop_last()), samples.last()).0
    }
}

proof fn lemma_bit_window_counts(m: OokModel, samples: Seq<bool>, k: int)
    requires
        m.rx_current_tick == 0,
        m.rx_n_ones_in_tick == 0,
        0 <= k < samples.len() == m.ticks_per_bit,
    ensures
        get_bit_run(m, samples.take(k)) == (OokModel {
            rx_current_tick: k as nat,
            rx_n_ones_in_tick: ones_among(samples.take(k)),
            ..m
        }),
        forall|i: int|
            0 <= i < k ==> (#[trigger] ook_get_bit(get_bit_run(m, samples.take(i)), samples[i])).1
                is None,
    decreases k,
{
    if k == 0 {
        assert(samples.take(0) =~= Seq::<bool>::empty());
    } else {
        lemma_bit_window_counts(m, samples, k - 1);
        assert(samples.take(k).drop_last() =~= samples.take(k - 1));
        assert(samples.take(k).last() == samples[k - 1]);
    }
}

/// The receiver reads a bit from `ticks_per_bit` samples: the first
/// `ticks_per_bit - 1` give no bit, the last gives the bit and starts the
/// count again, and the bit is 1 exactly when at least `ticks_per_bit / 2`
/// of the samples were high, wherever they fall in the bit.
pub proof fn lemma_bit_from_samples(m: OokModel, samples: Seq<bool>)
    requires
        m.rx_current_tick == 0,
        m.rx_n_ones_in_tick == 0,
        m.ticks_per_bit >= 1,
        samples.len() == m.ticks_per_bit,
    ensures
        forall|i: int|
            0 <= i < samples.len() - 1 ==> (#[trigger] ook_get_bit(
                get_bit_run(m, samples.take(i)),
                samples[i],
            )).1 is None,
        ook_get_bit(get_bit_run(m, samples.drop_last()), samples.last()) == (
            m,
            Some(
                if ones_among(samples) >= m.ticks_per_bit / 2 {
                    1u8
                } else {
                    0u8
                },
            ),
        ),
{
    let k = samples.len() - 1;
    lemma_bit_window_counts(m, samples, k);
    assert(samples.take(k) =~= samples.drop_last());
}

/// One bit of the sync sequence: the receiver is synchronized once
/// `SYNC_SEQUENCE_BIT_LENGTH - 1` bits in a row continued an alternating pattern.
pub open spec fn ook_get_synced(m: OokModel, bit: u8) -> (OokModel, bool) {
    if m.rx_synced {
        (m, true)
    } else {
        let bits = (m.rx_sync_bits << 1u8) | bit;
        if bits & 3u8 == 2u8 || bits & 7u8 == 5u8 {
            let n = m.rx_sync_n_correct_bits + 1;
            (
                OokModel {
                    rx_sync_bits: bits,
                    rx_sync_n_correct_bits: n,
                    rx_synced: n >= SYNC_SEQUENCE_BIT_LENGTH - 1,
                    ..m
                },
                false,
            )
        } else {
            (OokModel { rx_sync_bits: bits, rx_sync_n_correct_bits: 0, ..m }, false)
        }
    }
}

/// One bit while waiting for the start byte, most significant bit first: a
/// complete byte that is not the start byte is dropped.
pub open spec fn ook_message_started(m: OokModel, bit: u8) -> (OokModel, bool) {
    if m.rx_message_started {
        (m, true)
    } else {
        let byte = m.rx_byte | (bit << ((7 - m.rx_bit_index) as u8));
        let index = m.rx_bit_index + 1;
        if index >= 8 {
            if byte == MESSAGE_START_BYTE {
                (
                    OokModel { rx_message_started: true, rx_byte: 0, rx_bit_index: 0, ..m },
                    false,
                )
            } else {
                (OokModel { rx_byte: 0, rx_bit_index: 0, ..m }, false)
            }
        } else {
            (OokModel { rx_byte: byte, rx_bit_index: index, ..m }, false)
        }
    }
}

/// One bit of a 6-bit symbol, most significant bit first.
pub open spec fn ook_get_byte(m: OokModel, bit: u8) -> (OokModel, Option<u8>) {
    let byte = m.rx_byte | (bit << ((5 - m.rx_bit_index) as u8));
    if m.rx_bit_index + 1 >= 6 {
        (OokModel { rx_byte: byte, rx_bit_index: 0, ..m }, Some(byte))
    } else {
        (OokModel { rx_byte: byte, rx_bit_index: m.rx_bit_index + 1, ..m }, None)
    }
}

/// A complete symbol handed to the decoder: a decoded byte is stored (the
/// first one is the message length); the message is received once the length
/// byte and that many bytes are stored, or the buffer is full; an unknown
/// symbol is a fatal error.
pub open spec fn ook_symbol(m: OokModel) -> OokModel {
    let (pending, outcome) = decoder_step(m.rx_pending, m.rx_byte);
    let m1 = OokModel { rx_pending: pending, ..m };
    match outcome {
        Ok(decoded) => {
            let length = if m1.rx_message_length == 0 {
                decoded
            } else {
                m1.rx_message_length
            };
            let buf = m1.rx_buf.push(decoded);
            let m2 = OokModel { rx_byte: 0, rx_message_length: length, rx_buf: buf, ..m1 };
            if buf.len() >= length + 1 || buf.len() >= MAX_BUFFER_SIZE {
                OokModel { rx_message_received: true, mode: OokMode::Idle, ..m2 }
            } else {
                m2
            }
        },
        Err(RunningDecoderError::ByteNotReady) => OokModel { rx_byte: 0, ..m1 },
        Err(RunningDecoderError::UnknownSymbol(s)) => OokModel {
            rx_error: Some(FatalReceiverError::UnknownReceiverSymbol(s)),
            mode: OokMode::Idle,
            ..m1
        },
    }
}

/// What the receiver does with a bit: it syncs, then waits for the start
/// byte, then puts symbols together and decodes them.
pub open spec fn ook_on_bit(m: OokModel, bit: u8) -> OokModel {
    let (m2, synced) = ook_get_synced(m, bit);
    if !synced {
        m2
    } else {
        let (m3, started) = ook_message_started(m2, bit);
        if !started {
            m3
        } else {
            let (m4, byte) = ook_get_byte(m3, bit);
            match byte {
                None => m4,
                Some(_) => ook_symbol(m4),
            }
        }
    }
}

/// One tick of reception with the input line at level `state`.
pub open spec fn ook_receive(m: OokModel, state: bool) -> OokModel {
    if m.rx_error is Some {
        m
    } else if !m.rx_detected_one && !state {
        // Wait for at least one 1 to be detected
        m
    } else {
        let (m1, b) = ook_get_bit(OokModel { rx_detected_one: true, ..m }, state);
        match b {
            None => m1,
            Some(bit) => ook_on_bit(m1, bit),
        }
    }
}

/// One tick of the driver with the input line at `rx_level`: the driver after
/// it and the level put on the output line, if any.
pub open spec fn ook_tick(m: OokModel, rx_level: bool) -> (OokModel, Option<bool>) {
    match m.mode {
        OokMode::Receive => (ook_receive(m, rx_level), None),
        OokMode::Transmit => {
            let (m1, level) = ook_transmit(m);
            (m1, Some(level))
        },
        OokMode::Idle => (m, None),
    }
}

/// The transmit buffer before encoding, for a message of `n` bytes: the length
/// byte, the message, room for the encoding and a spare byte.
pub open spec fn ook_frame(bytes: Seq<u8>, n: int) -> Seq<u8> {
    seq![n as u8] + bytes.take(n) + bytes.take(n) + seq![0u8]
}

/// The number of message bytes that `send` takes out of `len` bytes.
pub open spec fn sent_count(len: int) -> int {
    if len > MAX_MESSAGE_LENGTH {
        MAX_MESSAGE_LENGTH as int
    } else {
        len
    }
}

/// The driver after `send(bytes)`: an empty message empties the transmit
/// buffer; any other is framed, encoded and made the transmission in progress.
pub open spec fn ook_sent(m: OokModel, bytes: Seq<u8>) -> OokModel {
    if bytes.len() == 0 {
        OokModel { tx_buf: Seq::empty(), ..m }
    } else {
        let n = sent_count(bytes.len() as int);
        OokModel {
            tx_buf: encoded(ook_frame(bytes, n), n + 1),
            mode: OokMode::Transmit,
            ..m
        }
    }
}

/// The driver after `start_receiving`: an idle driver is primed for a new
/// message, any other is left as it is.
pub open spec fn ook_started(m: OokModel) -> OokModel {
    if m.mode == OokMode::Idle {
        OokModel {
            mode: OokMode::Receive,
            rx_message_received: false,
            rx_message_length: 0,
            rx_current_tick: 0,
            rx_n_ones_in_tick: 0,
            rx_detected_one: false,
            rx_byte: 0,
            rx_message_started: false,
            rx_sync_bits: 0,
            rx_sync_n_correct_bits: 0,
            rx_synced: false,
            rx_pending: None,
            rx_error: None,
            rx_buf: Seq::empty(),
            ..m
        }
    } else {
        m
    }
}

/// `send` of a non-empty message makes the driver transmit, whatever it was
/// doing; an empty message leaves its mode alone.
pub proof fn lemma_send_starts_transmission(m: OokModel, bytes: Seq<u8>)
    ensures
        bytes.len() > 0 ==> ook_sent(m, bytes).mode == OokMode::Transmit,
        bytes.len() == 0 ==> ook_sent(m, bytes).mode == m.mode,
        ook_sent(m, bytes).rx_buf == m.rx_buf,
{
}

/// `start_receiving` leaves a driver that is not idle exactly as it was,
/// and primes an idle one: receiving, with an empty receive buffer, no
/// message, no error and nothing synchronized yet, its transmitter untouched.
pub proof fn lemma_start_receiving_only_when_idle(m: OokModel)
    ensures
        m.mode != OokMode::Idle ==> ook_started(m) == m,
        m.mode == OokMode::Idle ==> {
            let r = ook_started(m);
            &&& r.mode == OokMode::Receive
            &&& r.rx_buf.len() == 0
            &&& !r.rx_message_received
            &&& r.rx_error is None
            &&& !r.rx_synced
            &&& !r.rx_message_started
            &&& r.tx_buf == m.tx_buf
        },
{
}

/// Whether the next ticks can transmit without reading past the buffer: a
/// transmission in progress has a byte to read after the preamble.
pub open spec fn ook_transmit_safe(m: OokModel) -> bool {
    m.mode == OokMode::Transmit ==> {
        &&& (m.tx_preamble_sent ==> m.tx_buf_index < m.tx_buf.len())
        &&& (!m.tx_preamble_sent && m.tx_buf_index + 1 == PREAMBLE_SIZE ==> m.tx_buf.len() > 0)
    }
}

/// The transmit buffer that `send` encodes decodes to the length byte and the message.
proof fn lemma_frame_decodes(bytes: Seq<u8>, n: int)
    requires
        0 < n <= MAX_MESSAGE_LENGTH,
        n <= bytes.len(),
    ensures
        ({
            let e = encoded(ook_frame(bytes, n), n + 1);
            &&& pairs_known(e, n + 1)
            &&& decoded_pair(e, 0) == n
            &&& forall|i: int| 1 <= i <= n ==> #[trigger] decoded_pair(e, i) == bytes[i - 1]
        }),
{
    let f = ook_frame(bytes, n);
    let e = encoded(f, n + 1);
    assert(f.len() == 2 * n + 2);
    lemma_encode_then_decode(f, n + 1);
    assert forall|k: int| 0 <= k < n + 1 implies (#[trigger] byte_of_symbols(
        e[2 * k],
        e[2 * k + 1],
    )) is Some by {
        assert(pairs_known(e, f.len() as int / 2));
    }
    assert forall|i: int| 1 <= i <= n implies #[trigger] decoded_pair(e, i) == bytes[i - 1] by {
        assert(f[i] == bytes[i - 1]);
    }
}

/// The driver after `k` ticks (the input line does not matter while it transmits).
pub open spec fn ook_run(m: OokModel, k: nat) -> OokModel
    decreases k,
{
    if k == 0 {
        m
    } else {
        ook_tick(ook_run(m, (k - 1) as nat), false).0
    }
}

/// The number of ticks a transmission in progress still takes: the bits of
/// the symbols left (the rest of the preamble and the buffer, or the rest of
/// the buffer), `ticks_per_bit` ticks each, less the ticks of the current bit
/// already spent.
pub open spec fn ticks_left(m: OokModel) -> int {
    let symbols_left = if !m.tx_preamble_sent {
        (PREAMBLE_SIZE - m.tx_buf_index) + m.tx_buf.len()
    } else {
        m.tx_buf.len() - m.tx_buf_index
    };
    (symbols_left * 6 - m.tx_bit_index) * m.ticks_per_bit - m.tx_current_tick
}

/// One tick of a transmission takes one tick off what is left, and the tick
/// that takes the last one ends the transmission.
proof fn lemma_transmit_tick(m: OokModel)
    requires
        ook_wf(m),
        ook_transmit_safe(m),
        m.mode == OokMode::Transmit,
        m.tx_buf.len() > 0,
    ensures
        ticks_left(m) >= 1,
        ({
            let next = ook_tick(m, false).0;
            &&& ook_wf(next)
            &&& ook_transmit_safe(next)
            &&& next.tx_buf == m.tx_buf
            &&& if ticks_left(m) == 1 {
                next.mode == OokMode::Idle
            } else {
                next.mode == OokMode::Transmit && ticks_left(next) == ticks_left(m) - 1
            }
        }),
{
    let next = ook_tick(m, false).0;
    let len = m.tx_buf.len() as int;
    let s = if !m.tx_preamble_sent {
        (PREAMBLE_SIZE - m.tx_buf_index) + len
    } else {
        len - m.tx_buf_index
    };
    assert(s >= 1);
    assert((s * 6 - m.tx_bit_index) * 8 - m.tx_current_tick >= 1) by (nonlinear_arith)
        requires
            s >= 1,
            m.tx_bit_index < 6,
            m.tx_current_tick < 8,
    ;
    if m.tx_current_tick + 1 < m.ticks_per_bit {
    } else if m.tx_bit_index + 1 < 6 {
        assert((s * 6 - (m.tx_bit_index + 1)) * 8 == (s * 6 - m.tx_bit_index) * 8 - 8) by (nonlinear_arith);
    } else if !m.tx_preamble_sent && m.tx_buf_index + 1 == PREAMBLE_SIZE {
        assert((len * 6) * 8 == ((1 + len) * 6 - 5) * 8 - 8) by (nonlinear_arith);
    } else if m.tx_buf_index + 1 >= len {
        assert(m.tx_preamble_sent);
        assert(s == 1);
    } else {
        assert(((s - 1) * 6) * 8 == (s * 6 - 5) * 8 - 8) by (nonlinear_arith);
    }
}

/// A transmission in progress keeps the driver transmitting for exactly
/// `ticks_left` ticks, after which it is idle.
pub proof fn lemma_transmission_duration(m: OokModel, k: nat)
    requires
        ook_wf(m),
        ook_transmit_safe(m),
        m.mode == OokMode::Transmit,
        m.tx_buf.len() > 0,
        k <= ticks_left(m),
    ensures
        ook_run(m, k).mode == if k < ticks_left(m) {
            OokMode::Transmit
        } else {
            OokMode::Idle
        },
    decreases k,
{
    lemma_run_in_progress(m, k);
}

proof fn lemma_run_in_progress(m: OokModel, k: nat)
    requires
        ook_wf(m),
        ook_transmit_safe(m),
        m.mode == OokMode::Transmit,
        m.tx_buf.len() > 0,
        k <= ticks_left(m),
    ensures
        k < ticks_left(m) ==> {
            let r = ook_run(m, k);
            &&& ook_wf(r)
            &&& ook_transmit_safe(r)
            &&& r.mode == OokMode::Transmit
            &&& r.tx_buf == m.tx_buf
            &&& ticks_left(r) == ticks_left(m) - k
        },
        k == ticks_left(m) ==> ook_run(m, k).mode == OokMode::Idle,
    decreases k,
{
    if k > 0 {
        lemma_run_in_progress(m, (k - 1) as nat);
        let prev = ook_run(m, (k - 1) as nat);
        lemma_transmit_tick(prev);
    } else {
        lemma_transmit_tick(m);
    }
}

/// The transmit buffer before encoding: the length byte `n`, the first `n`
/// bytes of `bytes` twice, and a spare byte.
fn build_frame(bytes: &[u8], n: usize) -> (buf: heapless::Vec<u8, MAX_BUFFER_SIZE>)
    requires
        0 < n <= MAX_MESSAGE_LENGTH,
        n <= bytes@.len(),
    ensures
        frame_contents(buf) == ook_frame(bytes@, n as int),
{
    let safe_bytes = vstd::slice::slice_subrange(bytes, 0, n);
    let mut buf = frame_new();
    // Push message length to buf
    let _ = frame_push(&mut buf, n as u8);
    // Push data to buf
    frame_extend(&mut buf, safe_bytes);
    // Make space for encoding
    frame_extend(&mut buf, safe_bytes);
    let _ = frame_push(&mut buf, 0);
    assert(bytes@.subrange(0, n as int) =~= bytes@.take(n as int));
    assert(frame_contents(buf) =~= ook_frame(bytes@, n as int));
    buf
}

pub struct OokDriver {
    // Transmitter fields
    /// Buffer for message to be sent
    tx_buf: heapless::Vec<u8, MAX_BUFFER_SIZE>,
    /// Index of byte in `tx_buf` or PREAMBLE
    tx_buf_index: usize,
    /// Index of bit in byte of `tx_buf`
    tx_bit_index: u8,
    tx_current_tick: u8,
    tx_preamble_sent: bool,
    // Receiver fields
    rx_buf: heapless::Vec<u8, MAX_BUFFER_SIZE>,
    rx_byte: u8,
    rx_bit_index: usize,
    rx_message_length: u8,
    rx_message_received: bool,
    rx_message_started: bool,
    rx_current_tick: u8,
    rx_n_ones_in_tick: u8,
    rx_detected_one: bool,
    rx_sync_n_correct_bits: u8,
    rx_sync_bits: u8,
    rx_synced: bool,
    rx_decoder: RunningDecoder,
    rx_error: Option<FatalReceiverError>,
    // Misc
    mode: OokMode,
    ticks_per_bit: u8,
}

impl View for OokDriver {
    type V = OokModel;

    closed spec fn view(&self) -> OokModel {
        OokModel {
            tx_buf: frame_contents(self.tx_buf),
            tx_buf_index: self.tx_buf_index as nat,
            tx_bit_index: self.tx_bit_index as nat,
            tx_current_tick: self.tx_current_tick as nat,
            tx_preamble_sent: self.tx_preamble_sent,
            rx_buf: frame_contents(self.rx_buf),
            rx_byte: self.rx_byte,
            rx_bit_index: self.rx_bit_index as nat,
            rx_message_length: self.rx_message_length,
            rx_message_received: self.rx_message_received,
            rx_message_started: self.rx_message_started,
            rx_current_tick: self.rx_current_tick as nat,
            rx_n_ones_in_tick: self.rx_n_ones_in_tick as nat,
            rx_detected_one: self.rx_detected_one,
            rx_sync_n_correct_bits: self.rx_sync_n_correct_bits as nat,
            rx_sync_bits: self.rx_sync_bits,
            rx_synced: self.rx_synced,
            rx_pending: self.rx_decoder.pending(),
            rx_error: self.rx_error,
            mode: self.mode,
            ticks_per_bit: self.ticks_per_bit as nat,
        }
    }
}

/// The counters of a driver are in range and an idle or receiving driver has
/// no transmission in progress.
pub open spec fn ook_wf(m: OokModel) -> bool {
    &&& m.tx_buf.len() <= MAX_BUFFER_SIZE
    &&& (m.tx_buf.len() == 0 || m.tx_buf.len() >= PREAMBLE_SIZE)
    &&& m.rx_buf.len() <= MAX_BUFFER_SIZE
    &&& m.ticks_per_bit == 8
    &&& m.tx_bit_index < 6
    &&& m.tx_current_tick < m.ticks_per_bit
    &&& (!m.tx_preamble_sent ==> m.tx_buf_index < PREAMBLE_SIZE)
    &&& m.tx_buf_index < MAX_BUFFER_SIZE
    &&& (m.mode != OokMode::Transmit ==> m.tx_buf_index == 0 && m.tx_bit_index == 0
        && m.tx_current_tick == 0 && !m.tx_preamble_sent)
    &&& m.rx_current_tick < m.ticks_per_bit
    &&& m.rx_n_ones_in_tick <= m.rx_current_tick
    &&& m.rx_sync_n_correct_bits < SYNC_SEQUENCE_BIT_LENGTH
    &&& (!m.rx_synced ==> m.rx_sync_n_correct_bits < SYNC_SEQUENCE_BIT_LENGTH - 1)
    &&& (!m.rx_message_started ==> m.rx_bit_index < 8)
    &&& (m.rx_message_started ==> m.rx_bit_index < 6)
    &&& (m.mode == OokMode::Receive ==> m.rx_buf.len() < MAX_BUFFER_SIZE)
}

impl OokDriver {
    /// The counters of the driver are in range.
    pub open spec fn wf(&self) -> bool {
        ook_wf(self@)
    }

    pub fn new() -> (res: Self)
        ensures
            res.wf(),
            res@ == (OokModel {
                tx_buf: Seq::empty(),
                tx_buf_index: 0,
                tx_bit_index: 0,
                tx_current_tick: 0,
                tx_preamble_sent: false,
                rx_buf: Seq::empty(),
                rx_byte: 0,
                rx_bit_index: 0,
                rx_message_length: 0,
                rx_message_received: false,
                rx_message_started: false,
                rx_current_tick: 0,
                rx_n_ones_in_tick: 0,
                rx_detected_one: false,
                rx_sync_n_correct_bits: 0,
                rx_sync_bits: 0,
                rx_synced: false,
                rx_pending: None,
                rx_error: None,
                mode: OokMode::Idle,
                ticks_per_bit: 8,
            }),
    {
        Self {
            tx_buf: frame_new(),
            tx_bit_index: 0,
            tx_buf_index: 0,
            tx_current_tick: 0,
            tx_preamble_sent: false,
            rx_buf: frame_new(),
            rx_byte: 0,
            rx_bit_index: 0,
            rx_message_length: 0,
            rx_message_received: false,
            rx_message_started: false,
            rx_current_tick: 0,
            rx_n_ones_in_tick: 0,
            rx_detected_one: false,
            rx_sync_bits: 0,
            rx_sync_n_correct_bits: 0,
            rx_synced: false,
            rx_decoder: RunningDecoder::new(),
            rx_error: None,
            mode: OokMode::Idle,
            ticks_per_bit: 8,
        }
    }

    /// Depending on the current mode receives (sampling the input line at
    /// `rx_level`), transmits, or does nothing. Returns the level to put on
    /// the output line when transmitting.
    pub fn tick(&mut self, rx_level: bool) -> (res: Option<bool>)
        requires
            old(self).wf(),
            ook_transmit_safe(old(self)@),
        ensures
            final(self).wf(),
            ook_transmit_safe(final(self)@),
            (final(self)@, res) == ook_tick(old(self)@, rx_level),
    {
        match self.mode {
            OokMode::Receive => {
                self.receive(rx_level);
                None
            },
            OokMode::Transmit => Some(self.transmit()),
            OokMode::Idle => None,
        }
    }

    // ===== TRANSMISSION =====
    /// Cleanup after transmission is finished
    fn end_transmission(&mut self)
        ensures
            final(self)@ == ended(old(self)@),
    {
        self.tx_bit_index = 0;
        self.tx_buf_index = 0;
        self.mode = OokMode::Idle;
        self.tx_current_tick = 0;
        self.tx_preamble_sent = false;
    }

    /// Transmits the next bit; ends the transmission at the end of the buffer.
    /// Returns the level of the output line.
    fn transmit(&mut self) -> (level: bool)
        requires
            old(self).wf(),
            old(self)@.mode == OokMode::Transmit,
            ook_transmit_safe(old(self)@),
        ensures
            final(self).wf(),
            ook_transmit_safe(final(self)@),
            (final(self)@, level) == ook_transmit(old(self)@),
    {
        let byte = if !self.tx_preamble_sent {
            // Retrieve bytes from preamble
            PREAMBLE[self.tx_buf_index]
        } else {
            // Retrieve bytes from buffer
            frame_as_slice(&self.tx_buf)[self.tx_buf_index]
        };

        // State bit as bool, most significant first; only 6 bits of a byte are used
        let state = (byte >> (5 - self.tx_bit_index)) & 1 == 1;

        self.tx_current_tick += 1;
        // Skip if not enough ticks to send a bit
        if self.tx_current_tick < self.ticks_per_bit {
            return state;
        }
        self.tx_current_tick = 0;

        self.tx_bit_index += 1;
        // If byte ends
        if self.tx_bit_index >= 6 {
            self.tx_bit_index = 0;

            // Increment buf index
            self.tx_buf_index += 1;

            // If preamble sent
            if !self.tx_preamble_sent && self.tx_buf_index == PREAMBLE_SIZE {
                self.tx_preamble_sent = true;
                self.tx_buf_index = 0;
                return state;
            }
            // If end of buffer reached end transmission
            if self.tx_buf_index >= frame_as_slice(&self.tx_buf).len() {
                self.end_transmission();
                return false;
            }
        }
        state
    }

    /// Puts `bytes` into the transmit buffer, encoded, and sets the mode to
    /// Transmit. Bytes past `MAX_MESSAGE_LENGTH` are left out. Returns the
    /// number of message bytes put into the buffer; for an empty message the
    /// buffer is emptied and nothing else changes.
    pub fn send(&mut self, bytes: &[u8]) -> (res: usize)
        requires
            old(self).wf(),
        ensures
            final(self).wf(),
            final(self)@ == ook_sent(old(self)@, bytes@),
            bytes@.len() > 0 ==> final(self)@.mode == OokMode::Transmit,
            bytes@.len() == 0 ==> final(self)@.mode == old(self)@.mode,
            res == if bytes@.len() == 0 {
                0
            } else {
                sent_count(bytes@.len() as int)
            },
            bytes@.len() > 0 ==> {
                let n = sent_count(bytes@.len() as int);
                &&& pairs_known(final(self)@.tx_buf, n + 1)
                &&& (old(self)@.mode == OokMode::Idle ==> ticks_left(final(self)@) == ((n + 1) * 2
                    * 6 + PREAMBLE_SIZE * 6) * final(self)@.ticks_per_bit)
                &&& decoded_pair(final(self)@.tx_buf, 0) == n
                &&& forall|i: int|
                    1 <= i <= n ==> #[trigger] decoded_pair(final(self)@.tx_buf, i) == bytes@[i
                        - 1]
            },
            ook_transmit_safe(final(self)@) <==> (old(self)@.mode != OokMode::Transmit || (
            bytes@.len() > 0 && (old(self)@.tx_preamble_sent ==> old(self)@.tx_buf_index
                < final(self)@.tx_buf.len())) || (bytes@.len() == 0 && !old(
                self,
            )@.tx_preamble_sent && old(self)@.tx_buf_index + 1 != PREAMBLE_SIZE)),
    {
        // Clear buffer
        frame_clear(&mut self.tx_buf);

        if bytes.len() == 0 {
            return 0;
        }
        // Truncate bytes if needed
        let n = if bytes.len() > MAX_MESSAGE_LENGTH {
            MAX_MESSAGE_LENGTH
        } else {
            bytes.len()
        };
        let ghost frame = ook_frame(bytes@, n as int);
        let mut buf = build_frame(bytes, n);

        let encoded_ok = encode_in_place(frame_as_mut_slice(&mut buf), n + 1);
        if encoded_ok.is_err() {
            // The buffer holds 2 * (n + 1) bytes, so encoding cannot fail
            assert(false);
        }
        proof {
            lemma_frame_decodes(bytes@, n as int);
        }
        self.tx_buf = buf;
        self.mode = OokMode::Transmit;
        n
    }

    // ===== RECEIVING =====
    /// Cleanup before reading into the `rx_buffer`
    fn setup_receiver(&mut self)
        requires
            old(self).wf(),
            old(self)@.mode == OokMode::Idle,
        ensures
            final(self).wf(),
            final(self)@ == (OokModel {
                mode: OokMode::Receive,
                rx_message_received: false,
                rx_message_length: 0,
                rx_current_tick: 0,
                rx_n_ones_in_tick: 0,
                rx_detected_one: false,
                rx_byte: 0,
                rx_message_started: false,
                rx_sync_bits: 0,
                rx_sync_n_correct_bits: 0,
                rx_synced: false,
                rx_pending: None,
                rx_error: None,
                rx_buf: Seq::empty(),
                ..old(self)@
            }),
    {
        self.mode = OokMode::Receive;

        self.rx_message_received = false;
        self.rx_message_length = 0;
        self.rx_current_tick = 0;
        self.rx_n_ones_in_tick = 0;
        self.rx_detected_one = false;
        self.rx_byte = 0;
        self.rx_message_started = false;

        self.rx_sync_bits = 0;
        self.rx_sync_n_correct_bits = 0;
        self.rx_synced = false;
        self.rx_decoder.reset();
        self.rx_error = None;

        frame_clear(&mut self.rx_buf);
    }

    /// Checks if the receiver is available and, if so, primes it for
    /// receiving data. This clears `rx_buf`, so any message stored in it is
    /// removed. Returns whether the driver is receiving.
    pub fn start_receiving(&mut self) -> (res: bool)
        requires
            old(self).wf(),
        ensures
            final(self).wf(),
            final(self)@ == ook_started(old(self)@),
            old(self)@.mode != OokMode::Idle ==> final(self)@ == old(self)@,
            old(self)@.mode == OokMode::Idle ==> final(self)@.mode == OokMode::Receive
                && final(self)@.rx_buf.len() == 0 && !final(self)@.rx_message_received,
            res == (final(self)@.mode == OokMode::Receive),
    {
        if self.mode == OokMode::Idle {
            self.setup_receiver();
        }
        self.mode == OokMode::Receive
    }

    /// The received message, with its length byte first, once it is ready.
    pub fn get_message(&self) -> (res: Result<&[u8], ReceiverError>)
        ensures
            self@.rx_message_received ==> (res matches Ok(s) && s@ == self@.rx_buf),
            !self@.rx_message_received ==> res == Err::<&[u8], ReceiverError>(
                ReceiverError::MessageNotReady,
            ),
    {
        if self.rx_message_received {
            return Ok(frame_as_slice(&self.rx_buf));
        }
        Err(ReceiverError::MessageNotReady)
    }

    /// Handles one sample: returns the bit once `ticks_per_bit` samples of
    /// it were taken.
    fn get_bit(&mut self, state: bool) -> (res: Option<u8>)
        requires
            old(self).wf(),
        ensures
            final(self).wf(),
            (final(self)@, res) == ook_get_bit(old(self)@, state),
    {
        if state {
            self.rx_n_ones_in_tick += 1;
        }
        self.rx_current_tick += 1;

        // Skip if not enough ticks to read a bit
        if self.rx_current_tick < self.ticks_per_bit {
            return None;
        }
        self.rx_current_tick = 0;

        // At least half of ticks should be 1 for bit to be 1
        let state_from_ticks = if self.rx_n_ones_in_tick >= (self.ticks_per_bit / 2) {
            1u8
        } else {
            0u8
        };
        self.rx_n_ones_in_tick = 0;

        Some(state_from_ticks)
    }

    /// Takes a bit and checks if the receiver is synchronized.
    pub fn get_synced(&mut self, bit: u8) -> (res: bool)
        requires
            old(self).wf(),
        ensures
            final(self).wf(),
            (final(self)@, res) == ook_get_synced(old(self)@, bit),
    {
        if self.rx_synced {
            return true;
        }

        // Push bit
        self.rx_sync_bits = (self.rx_sync_bits << 1) | bit;

        // Check if ls bits are 0b10 or 0b101,
        // as this matches a sequence of repeating 1s and 0s
        if self.rx_sync_bits & 0b11 == 0b10 || self.rx_sync_bits & 0b111 == 0b101 {
            self.rx_sync_n_correct_bits += 1;

            // SYNC_SEQUENCE_BIT_LENGTH - 1, because first bit isn't counted
            if self.rx_sync_n_correct_bits >= SYNC_SEQUENCE_BIT_LENGTH - 1 {
                // Don't return true from here, because this is the last bit
                // of sync sequence
                self.rx_synced = true;
            }
        } else {
            // It wasn't sync sequence after all
            self.rx_sync_n_correct_bits = 0;
        }
        false
    }

    /// Takes a bit of a 6-bit symbol; returns the symbol when complete.
    fn get_byte(&mut self, bit: u8) -> (res: Option<u8>)
        requires
            old(self).wf(),
            old(self)@.rx_message_started,
        ensures
            final(self).wf(),
            (final(self)@, res) == ook_get_byte(old(self)@, bit),
    {
        // Append bit to byte, use only 6 ls bits
        self.rx_byte = self.rx_byte | (bit << (5 - self.rx_bit_index as u8));
        self.rx_bit_index += 1;

        // Full 6 bits
        if self.rx_bit_index >= 6 {
            self.rx_bit_index = 0;
            return Some(self.rx_byte);
        }
        None
    }

    /// Takes a bit while waiting for the start byte; returns whether the
    /// message had already started.
    fn message_started(&mut self, bit: u8) -> (res: bool)
        requires
            old(self).wf(),
        ensures
            final(self).wf(),
            (final(self)@, res) == ook_message_started(old(self)@, bit),
    {
        if self.rx_message_started {
            return true;
        }

        self.rx_byte = self.rx_byte | (bit << (7 - self.rx_bit_index as u8));
        self.rx_bit_index += 1;

        // Full byte
        if self.rx_bit_index >= 8 {
            if self.rx_byte == MESSAGE_START_BYTE {
                self.rx_message_started = true;
            }
            // Any other byte is dropped
            self.rx_byte = 0;
            self.rx_bit_index = 0;
        }
        // Return false so this bit is not used in message data
        false
    }

    /// Receives a sample from the input line and puts what it completes into `rx_buf`.
    fn receive(&mut self, rx_state: bool)
        requires
            old(self).wf(),
            old(self)@.mode == OokMode::Receive,
        ensures
            final(self).wf(),
            final(self)@ == ook_receive(old(self)@, rx_state),
    {
        if self.rx_error.is_some() {
            return;
        }
        // Wait for at least one 1 to be detected
        if !self.rx_detected_one {
            if !rx_state {
                return;
            } else {
                self.rx_detected_one = true;
            }
        }
        let bit = match self.get_bit(rx_state) {
            Some(bit) => bit,
            None => {
                return;
            },
        };
        // Syncing
        if !self.get_synced(bit) {
            return;
        }
        if !self.message_started(bit) {
            return;
        }
        match self.get_byte(bit) {
            Some(_) => {},
            None => {
                return;
            },
        }
        match self.rx_decoder.next_nibble(self.rx_byte) {
            Ok(decoded_byte) => {
                self.rx_byte = decoded_byte;
            },
            Err(err) => match err {
                RunningDecoderError::ByteNotReady => {
                    // Wait for next symbol to form a byte
                    self.rx_byte = 0;
                    return;
                },
                RunningDecoderError::UnknownSymbol(s) => {
                    self.handle_fatal_receiver_error(FatalReceiverError::UnknownReceiverSymbol(s));
                    return;
                },
            },
        }

        // Message length not set up yet
        if self.rx_message_length == 0 {
            self.rx_message_length = self.rx_byte;
        }
        let _ = frame_push(&mut self.rx_buf, self.rx_byte);
        self.rx_byte = 0;

        // Message end reached or message wouldn't fit and gets truncated
        let len = frame_as_slice(&self.rx_buf).len();
        if len >= self.rx_message_length as usize + 1 || len >= MAX_BUFFER_SIZE {
            self.rx_message_received = true;
            self.mode = OokMode::Idle;
        }
    }

    fn handle_fatal_receiver_error(&mut self, error: FatalReceiverError)
        ensures
            final(self)@ == (OokModel { rx_error: Some(error), mode: OokMode::Idle, ..old(self)@ }),
    {
        self.rx_error = Some(error);
        self.mode = OokMode::Idle;
    }

    /// The error that stopped the last reception, if any.
    pub fn get_read_error(&self) -> (res: &Option<FatalReceiverError>)
        ensures
            *res == self@.rx_error,
    {
        &self.rx_error
    }

    // ===== MISC =====
    /// Whether `tick` can run: a transmission in progress still has a byte
    /// to send after the preamble. (Only `send` with an empty message during
    /// a transmission takes this away.)
    pub fn can_tick(&self) -> (res: bool)
        ensures
            res == ook_transmit_safe(self@),
    {
        if self.mode != OokMode::Transmit {
            return true;
        }
        let len = frame_as_slice(&self.tx_buf).len();
        if self.tx_preamble_sent {
            self.tx_buf_index < len
        } else {
            self.tx_buf_index != PREAMBLE_SIZE - 1 || len > 0
        }
    }

    pub fn is_idle(&self) -> (res: bool)
        ensures
            res == (self@.mode == OokMode::Idle),
    {
        self.mode == OokMode::Idle
    }

    /// The current mode.
    pub fn mode(&self) -> (res: OokMode)
        ensures
            res == self@.mode,
    {
        self.mode
    }

    /// Number of ticks each bit lasts.
    pub fn ticks_per_bit(&self) -> (res: u8)
        ensures
            res == self@.ticks_per_bit,
    {
        self.ticks_per_bit
    }

    /// The transmit buffer.
    pub fn tx_buffer(&self) -> (res: &[u8])
        ensures
            res@ == self@.tx_buf,
    {
        frame_as_slice(&self.tx_buf)
    }

    /// The receive buffer.
    pub fn rx_buffer(&self) -> (res: &[u8])
        ensures
            res@ == self@.rx_buf,
    {
        frame_as_slice(&self.rx_buf)
    }

    /// Whether the receiver has seen the sync sequence.
    pub fn is_synced(&self) -> (res: bool)
        ensures
            res == self@.rx_synced,
    {
        self.rx_synced
    }
}

} // verus!
