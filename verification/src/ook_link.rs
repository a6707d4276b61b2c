//! Two drivers ticked together, one transmitting and one receiving, with the
//! receiver's input line joined to the transmitter's output line: what goes
//! over the line, tick by tick, and what the receiver makes of it.
use vstd::prelude::*;

use crate::consts::{MAX_MESSAGE_LENGTH, PREAMBLE, PREAMBLE_SIZE, SYNC_SEQUENCE};
use crate::data_coding::radio_head_4b6b::{
    encoded,
    lemma_symbol_table_inverse,
    lemma_symbols_balanced,
    symbol_for,
};
use crate::ook_driver::{
    ended,
    msb6_bit,
    ook_frame,
    ook_get_synced,
    ook_on_bit,
    ook_sent,
    ook_started,
    ook_tick,
    ook_wf,
    sent_count,
    OokMode,
    OokModel,
};

verus! {

// ===== The line =====

/// Bit `k` of a transmission whose encoded buffer is `buffer`: the bits of
/// the preamble symbols, then those of the buffer's symbols, six per symbol,
/// most significant first.
pub open spec fn ook_link_bit(buffer: Seq<u8>, k: int) -> bool {
    if k < 24 {
        msb6_bit(PREAMBLE@[k / 6], (k % 6) as nat)
    } else {
        msb6_bit(buffer[(k - 24) / 6], ((k - 24) % 6) as nat)
    }
}

/// The number of ticks a transmission of the encoded buffer `buffer` lasts:
/// the preamble and the buffer, six bits per symbol, eight ticks per bit.
pub open spec fn ook_link_ticks(buffer: Seq<u8>) -> nat {
    ((24 + 6 * buffer.len()) * 8) as nat
}

/// The level of the line during tick `i` of that transmission: the bit of
/// the tick, but for the last tick, on which the transmitter ends the
/// transmission and puts the line low.
pub open spec fn ook_line_level(buffer: Seq<u8>, i: int) -> bool {
    if i + 1 == ook_link_ticks(buffer) {
        false
    } else {
        ook_link_bit(buffer, i / 8)
    }
}

/// Two drivers after `k` ticks together: the transmitter `t` ticks first and
/// the receiver `r` then samples the level it put on the line (low when it
/// put none).
pub open spec fn ook_link_run(t: OokModel, r: OokModel, k: nat) -> (OokModel, OokModel)
    decreases k,
{
    if k == 0 {
        (t, r)
    } else {
        let (t1, r1) = ook_link_run(t, r, (k - 1) as nat);
        let (t2, out) = ook_tick(t1, false);
        let level = match out {
            Some(l) => l,
            None => false,
        };
        (t2, ook_tick(r1, level).0)
    }
}

// ===== The transmitter's side =====

/// The transmitter `m0` after `i` ticks of its transmission: the symbol,
/// bit and tick it is at.
pub open spec fn ook_tx_at(m0: OokModel, i: nat) -> OokModel {
    let k = i / 8;
    let c = i % 8;
    if k < 24 {
        OokModel {
            tx_preamble_sent: false,
            tx_buf_index: k / 6,
            tx_bit_index: k % 6,
            tx_current_tick: c,
            ..m0
        }
    } else {
        OokModel {
            tx_preamble_sent: true,
            tx_buf_index: ((k - 24) / 6) as nat,
            tx_bit_index: ((k - 24) % 6) as nat,
            tx_current_tick: c,
            ..m0
        }
    }
}

/// A transmission is starting: `m0` transmits, at the first tick of the
/// first bit of the preamble, with a buffer of at least as many symbols as
/// the preamble.
pub open spec fn ook_tx_starting(m0: OokModel) -> bool {
    &&& m0.mode == OokMode::Transmit
    &&& m0.ticks_per_bit == 8
    &&& !m0.tx_preamble_sent
    &&& m0.tx_buf_index == 0
    &&& m0.tx_bit_index == 0
    &&& m0.tx_current_tick == 0
    &&& m0.tx_buf.len() >= PREAMBLE_SIZE
}

/// Tick `i` of a transmission puts its bit on the line and moves on by one
/// tick; the last one ends the transmission with the line low.
proof fn lemma_tx_tick(m0: OokModel, i: nat)
    requires
        ook_tx_starting(m0),
        i < ook_link_ticks(m0.tx_buf),
    ensures
        ook_tick(ook_tx_at(m0, i), false) == if i + 1 < ook_link_ticks(m0.tx_buf) {
            (ook_tx_at(m0, i + 1), Some(ook_link_bit(m0.tx_buf, (i / 8) as int)))
        } else {
            (ended(ook_tx_at(m0, i)), Some(false))
        },
{
    let len = m0.tx_buf.len() as int;
    let k = i / 8;
    let c = i % 8;
    assert(i == 8 * k + c);
    assert(k < 24 + 6 * len);
    let next = (i + 1) as nat;
    if c < 7 {
        assert(next / 8 == k && next % 8 == c + 1);
    } else {
        assert(next / 8 == k + 1 && next % 8 == 0);
        if k < 24 {
            assert(k == 6 * (k / 6) + k % 6);
            if k % 6 < 5 {
                assert((k + 1) / 6 == k / 6 && (k + 1) % 6 == k % 6 + 1);
            } else if k == 23 {
            } else {
                assert((k + 1) / 6 == k / 6 + 1 && (k + 1) % 6 == 0);
            }
        } else {
            let j = k - 24;
            assert(j == 6 * (j / 6) + j % 6);
            if j % 6 < 5 {
                assert((j + 1) / 6 == j / 6 && (j + 1) % 6 == j % 6 + 1);
            } else {
                assert((j + 1) / 6 == j / 6 + 1 && (j + 1) % 6 == 0);
            }
        }
    }
}

// ===== The receiver's side, bit by bit =====

/// A bit as the receiver handles it.
pub open spec fn bit_u8(b: bool) -> u8 {
    if b {
        1u8
    } else {
        0u8
    }
}

/// The sync bits the receiver holds after `j` bits of the sync sequence
/// (alternating, from a one).
pub open spec fn sync_value(j: int) -> u8 {
    if j <= 0 {
        0u8
    } else if j == 1 {
        1u8
    } else if j == 2 {
        2u8
    } else if j == 3 {
        5u8
    } else if j == 4 {
        10u8
    } else if j == 5 {
        21u8
    } else if j == 6 {
        42u8
    } else if j % 2 == 1 {
        0x55u8
    } else {
        0xAAu8
    }
}

/// The start byte as the receiver has it after its first `j` bits.
pub open spec fn start_acc(j: int) -> u8 {
    if j <= 0 {
        0u8
    } else if j == 1 {
        0x80u8
    } else if j <= 4 {
        0xC0u8
    } else if j == 5 {
        0xC8u8
    } else {
        0xCCu8
    }
}

/// The mask of the first `r` of the six bits of a symbol (`r <= 6`).
pub open spec fn high_mask(r: u8) -> u8 {
    if r == 0 {
        0u8
    } else if r == 1 {
        32u8
    } else if r == 2 {
        48u8
    } else if r == 3 {
        56u8
    } else if r == 4 {
        60u8
    } else if r == 5 {
        62u8
    } else {
        63u8
    }
}

/// Symbol `c` of the encoding of the frame `f`: the low half of byte
/// `c / 2` for even `c`, its high half for odd `c`.
pub open spec fn frame_symbol(f: Seq<u8>, c: int) -> u8 {
    if c % 2 == 0 {
        symbol_for(f[c / 2] as int % 16)
    } else {
        symbol_for(f[c / 2] as int / 16)
    }
}

/// A receiver primed for a new message that has seen its first one.
pub open spec fn ook_rx_primed(r1: OokModel) -> bool {
    &&& r1.mode == OokMode::Receive
    &&& r1.ticks_per_bit == 8
    &&& r1.rx_error is None
    &&& r1.rx_detected_one
    &&& r1.rx_current_tick == 0
    &&& r1.rx_n_ones_in_tick == 0
    &&& r1.rx_sync_bits == 0
    &&& r1.rx_sync_n_correct_bits == 0
    &&& !r1.rx_synced
    &&& r1.rx_byte == 0
    &&& r1.rx_bit_index == 0
    &&& !r1.rx_message_started
    &&& r1.rx_pending is None
    &&& r1.rx_buf == Seq::<u8>::empty()
    &&& r1.rx_message_length == 0
    &&& !r1.rx_message_received
}

/// A frame of a message of `f[0]` bytes: the length byte, the message and
/// as many bytes again.
pub open spec fn ook_frame_ok(f: Seq<u8>) -> bool {
    &&& 1 <= f[0] <= MAX_MESSAGE_LENGTH
    &&& f.len() == 2 * f[0] + 2
}

/// The primed receiver `r1` after the first `k` bits of the transmission of
/// the frame `f`: it counts the sync bits, then puts the start byte
/// together, then the symbols; each pair of symbols is a byte of the frame,
/// and after the length byte and that many more it has the message.
pub open spec fn ook_rx_at_bit(r1: OokModel, f: Seq<u8>, k: int) -> OokModel {
    let synced = OokModel {
        rx_sync_bits: 0xAAu8,
        rx_sync_n_correct_bits: 15,
        rx_synced: true,
        ..r1
    };
    if k <= 16 {
        OokModel {
            rx_sync_bits: sync_value(k),
            rx_sync_n_correct_bits: if k <= 0 {
                0
            } else {
                (k - 1) as nat
            },
            rx_synced: k == 16,
            ..r1
        }
    } else if k < 24 {
        OokModel { rx_byte: start_acc(k - 16), rx_bit_index: (k - 16) as nat, ..synced }
    } else {
        let c = (k - 24) / 6;
        let r = (k - 24) % 6;
        let q = c / 2;
        let n = f[0];
        OokModel {
            rx_message_started: true,
            rx_bit_index: r as nat,
            rx_byte: frame_symbol(f, c) & high_mask(r as u8),
            rx_pending: if c % 2 == 1 {
                Some((f[q] as int % 16) as u8)
            } else {
                None
            },
            rx_buf: f.take(q),
            rx_message_length: if q >= 1 {
                n
            } else {
                0
            },
            rx_message_received: q == n + 1,
            mode: if q == n + 1 {
                OokMode::Idle
            } else {
                OokMode::Receive
            },
            ..synced
        }
    }
}

/// The bits of the preamble symbols: `s` is the shift of a bit from the
/// least significant end.
proof fn lemma_preamble_bits(s: u8)
    by (bit_vector)
    requires
        s < 6,
    ensures
        ((42u8 >> s) & 1u8 == 1u8) == (s % 2 == 1),
        ((43u8 >> s) & 1u8 == 1u8) == (s % 2 == 1 || s == 0),
        ((12u8 >> s) & 1u8 == 1u8) == (s == 2 || s == 3),
{
}

/// The sync bits as they come in, and the patterns the receiver looks for.
proof fn lemma_sync_table()
    by (bit_vector)
    ensures
        (0u8 << 1u8) | 1u8 == 1u8,
        (1u8 << 1u8) | 0u8 == 2u8,
        (2u8 << 1u8) | 1u8 == 5u8,
        (5u8 << 1u8) | 0u8 == 10u8,
        (10u8 << 1u8) | 1u8 == 21u8,
        (21u8 << 1u8) | 0u8 == 42u8,
        (42u8 << 1u8) | 1u8 == 0x55u8,
        (0x55u8 << 1u8) | 0u8 == 0xAAu8,
        (0xAAu8 << 1u8) | 1u8 == 0x55u8,
        1u8 & 3u8 == 1u8,
        1u8 & 7u8 == 1u8,
        2u8 & 3u8 == 2u8,
        5u8 & 3u8 == 1u8,
        5u8 & 7u8 == 5u8,
        10u8 & 3u8 == 2u8,
        21u8 & 3u8 == 1u8,
        21u8 & 7u8 == 5u8,
        42u8 & 3u8 == 2u8,
        0x55u8 & 3u8 == 1u8,
        0x55u8 & 7u8 == 5u8,
        0xAAu8 & 3u8 == 2u8,
{
}

/// The start byte as its bits come in, most significant first.
proof fn lemma_start_table()
    by (bit_vector)
    ensures
        0u8 | (1u8 << 7u8) == 0x80u8,
        0x80u8 | (1u8 << 6u8) == 0xC0u8,
        0xC0u8 | (0u8 << 5u8) == 0xC0u8,
        0xC0u8 | (0u8 << 4u8) == 0xC0u8,
        0xC0u8 | (1u8 << 3u8) == 0xC8u8,
        0xC8u8 | (1u8 << 2u8) == 0xCCu8,
        0xCCu8 | (0u8 << 1u8) == 0xCCu8,
        0xCCu8 | (0u8 << 0u8) == 0xCCu8,
{
}

/// While the sync bits come in, the receiver counts them; it is synchronized
/// after the sixteenth.
proof fn lemma_rx_sync_bit(r1: OokModel, f: Seq<u8>, e: Seq<u8>, k: int)
    requires
        ook_rx_primed(r1),
        0 <= k < 16,
    ensures
        ook_rx_at_bit(r1, f, k).mode == OokMode::Receive,
        ook_rx_at_bit(r1, f, k).rx_error is None,
        ook_on_bit(ook_rx_at_bit(r1, f, k), bit_u8(ook_link_bit(e, k))) == ook_rx_at_bit(
            r1,
            f,
            k + 1,
        ),
{
    lemma_sync_table();
    lemma_preamble_bits((5 - k % 6) as u8);
    assert(PREAMBLE@[0] == 42u8 && PREAMBLE@[1] == 42u8 && PREAMBLE@[2] == 43u8);
    assert(ook_link_bit(e, k) == (k % 2 == 0));
}

/// After the sync bits the receiver puts the start byte together; on its
/// last bit it starts the message.
proof fn lemma_rx_start_bit(r1: OokModel, f: Seq<u8>, e: Seq<u8>, k: int)
    requires
        ook_rx_primed(r1),
        16 <= k < 24,
    ensures
        ook_rx_at_bit(r1, f, k).mode == OokMode::Receive,
        ook_rx_at_bit(r1, f, k).rx_error is None,
        ook_on_bit(ook_rx_at_bit(r1, f, k), bit_u8(ook_link_bit(e, k))) == ook_rx_at_bit(
            r1,
            f,
            k + 1,
        ),
{
    lemma_start_table();
    lemma_preamble_bits((5 - k % 6) as u8);
    assert(PREAMBLE@[2] == 43u8 && PREAMBLE@[3] == 12u8);
    assert(ook_link_bit(e, k) == (k == 16 || k == 17 || k == 20 || k == 21));
    if k == 23 {
        assert(ook_rx_at_bit(r1, f, 24).rx_buf =~= Seq::<u8>::empty());
        assert(ook_rx_at_bit(r1, f, 24).rx_byte == 0u8) by {
            lemma_symbol_bit(frame_symbol(f, 0), 0, 5);
        }
    }
}

/// A bit of a symbol added to the first bits of the symbol that came before it.
proof fn lemma_symbol_bit(s: u8, r: u8, sh: u8)
    by (bit_vector)
    requires
        r < 6,
        r + sh == 5,
    ensures
        s & high_mask(0) == 0u8,
        s < 64 ==> (s & high_mask(r)) | ((if (s >> sh) & 1u8 == 1u8 {
            1u8
        } else {
            0u8
        }) << sh) == s & high_mask((r + 1) as u8),
        s < 64 ==> s & high_mask(6) == s,
{
}

/// After the start byte the receiver puts each symbol together; it hands a
/// complete symbol to the decoder, stores each byte that two symbols make,
/// and has the message after the last one.
proof fn lemma_rx_symbol_bit(r1: OokModel, f: Seq<u8>, k: int)
    requires
        ook_rx_primed(r1),
        ook_frame_ok(f),
        24 <= k < 24 + 6 * f.len(),
    ensures
        ook_rx_at_bit(r1, f, k).mode == OokMode::Receive,
        ook_rx_at_bit(r1, f, k).rx_error is None,
        ook_on_bit(
            ook_rx_at_bit(r1, f, k),
            bit_u8(ook_link_bit(encoded(f, f[0] + 1), k)),
        ) == ook_rx_at_bit(r1, f, k + 1),
{
    let n = f[0];
    let e = encoded(f, n + 1);
    let j = k - 24;
    let c = j / 6;
    let r = j % 6;
    let q = c / 2;
    assert(j == 6 * c + r);
    assert(c < 2 * n + 2);
    assert(q <= n);
    let sym = frame_symbol(f, c);
    assert(e[c] == sym);
    lemma_symbols_balanced(f[q] as int % 16);
    lemma_symbols_balanced(f[q] as int / 16);
    lemma_symbol_table_inverse(f[q] as int % 16, 0);
    lemma_symbol_table_inverse(f[q] as int / 16, 0);
    assert(sym < 64);
    lemma_symbol_bit(sym, r as u8, (5 - r) as u8);
    let before = ook_rx_at_bit(r1, f, k);
    let after = ook_rx_at_bit(r1, f, k + 1);
    if r < 5 {
        assert((j + 1) / 6 == c && (j + 1) % 6 == r + 1);
    } else {
        assert((j + 1) / 6 == c + 1 && (j + 1) % 6 == 0);
        let next = frame_symbol(f, c + 1);
        lemma_symbol_bit(next, 0, 5);
        if c % 2 == 0 {
            assert((c + 1) / 2 == q && (c + 1) % 2 == 1);
        } else {
            assert((c + 1) / 2 == q + 1 && (c + 1) % 2 == 0);
            assert(((f[q] as int % 16) as u8 + 16 * ((f[q] as int / 16) as u8)) as u8 == f[q]);
            assert(f.take(q).push(f[q]) =~= f.take(q + 1));
        }
    }
}

/// Each bit of the transmission takes the primed receiver from its state
/// before that bit to its state after it; it receives until the last one.
proof fn lemma_rx_bit(r1: OokModel, f: Seq<u8>, k: int)
    requires
        ook_rx_primed(r1),
        ook_frame_ok(f),
        0 <= k < 24 + 6 * f.len(),
    ensures
        ook_rx_at_bit(r1, f, k).mode == OokMode::Receive,
        ook_rx_at_bit(r1, f, k).rx_error is None,
        ook_on_bit(
            ook_rx_at_bit(r1, f, k),
            bit_u8(ook_link_bit(encoded(f, f[0] + 1), k)),
        ) == ook_rx_at_bit(r1, f, k + 1),
{
    if k < 16 {
        lemma_rx_sync_bit(r1, f, encoded(f, f[0] + 1), k);
    } else if k < 24 {
        lemma_rx_start_bit(r1, f, encoded(f, f[0] + 1), k);
    } else {
        lemma_rx_symbol_bit(r1, f, k);
    }
}

// ===== Synchronizing =====

/// The receiver after taking the bits `bits` in turn while it synchronizes.
pub open spec fn sync_run(m: OokModel, bits: Seq<u8>) -> OokModel
    decreases bits.len(),
{
    if bits.len() == 0 {
        m
    } else {
        ook_get_synced(sync_run(m, bits.drop_last()), bits.last()).0
    }
}

/// The bits of the sync sequence as they come over the line, most
/// significant bit of each byte first.
pub open spec fn sync_sequence_bits() -> Seq<u8> {
    Seq::new(16, |i: int| (SYNC_SEQUENCE@[i / 8] >> ((7 - i % 8) as u8)) & 1u8)
}

/// A bit shifted into the sync bits.
proof fn lemma_shift_in(x: u8)
    by (bit_vector)
    ensures
        ((x << 1u8) | 1u8) & 1u8 == 1u8,
        x & 1u8 == 1u8 ==> ((x << 1u8) | 0u8) & 3u8 == 2u8,
        x & 3u8 == 2u8 ==> ((x << 1u8) | 1u8) & 7u8 == 5u8 && ((x << 1u8) | 1u8) & 3u8 == 1u8,
        x & 3u8 == 1u8 ==> x & 1u8 == 1u8,
{
}

/// The bits of a sync byte: `s` is the shift of a bit from the least
/// significant end.
proof fn lemma_sync_byte_bits(s: u8)
    by (bit_vector)
    requires
        s < 8,
    ensures
        (0xAAu8 >> s) & 1u8 == if s % 2 == 1 {
            1u8
        } else {
            0u8
        },
{
}

/// While the first `j` bits of the sync sequence come in, a receiver that
/// is not synchronized yet counts them: it has seen at least `j - 1`
/// alternating bits in a row and holds the last two.
proof fn lemma_sync_prefix(m: OokModel, j: int)
    requires
        1 <= j <= 16,
    ensures
        ({
            let s = sync_run(m, sync_sequence_bits().take(j));
            ||| s.rx_synced
            ||| {
                &&& j < 16
                &&& s.rx_sync_n_correct_bits >= j - 1
                &&& j == 1 ==> s.rx_sync_bits & 1u8 == 1u8
                &&& j >= 2 ==> s.rx_sync_bits & 3u8 == if j % 2 == 1 {
                    1u8
                } else {
                    2u8
                }
            }
        }),
    decreases j,
{
    let bits = sync_sequence_bits();
    let i = j - 1;
    assert(SYNC_SEQUENCE@[0] == 0xAAu8 && SYNC_SEQUENCE@[1] == 0xAAu8);
    lemma_sync_byte_bits((7 - i % 8) as u8);
    assert(bits[i] == if i % 2 == 0 {
        1u8
    } else {
        0u8
    });
    assert(bits.take(j).drop_last() =~= bits.take(i));
    assert(bits.take(j).last() == bits[i]);
    let before = sync_run(m, bits.take(i));
    lemma_shift_in(before.rx_sync_bits);
    if j > 1 {
        lemma_sync_prefix(m, i);
    }
}

/// Whatever the receiver saw before, the sync sequence synchronizes it.
pub proof fn lemma_sync_sequence_syncs(m: OokModel)
    ensures
        sync_run(m, sync_sequence_bits()).rx_synced,
{
    lemma_sync_prefix(m, 16);
    assert(sync_sequence_bits().take(16) =~= sync_sequence_bits());
}

// ===== The receiver's side, sample by sample =====

/// A receiver primed for a new message, waiting for its first one.
pub open spec fn ook_rx_ready(r0: OokModel) -> bool {
    &&& !r0.rx_detected_one
    &&& ook_rx_primed(OokModel { rx_detected_one: true, ..r0 })
}

/// The receiver `r0` after sampling the line for the first `i` ticks of the
/// transmission of the frame `f`: after the bits that ended, with the
/// samples of the bit in progress counted.
pub open spec fn ook_rx_at(r0: OokModel, f: Seq<u8>, i: int) -> OokModel {
    if i <= 0 {
        r0
    } else {
        let k = i / 8;
        let c = i % 8;
        OokModel {
            rx_current_tick: c as nat,
            rx_n_ones_in_tick: if ook_link_bit(encoded(f, f[0] + 1), k) {
                c as nat
            } else {
                0
            },
            ..ook_rx_at_bit(OokModel { rx_detected_one: true, ..r0 }, f, k)
        }
    }
}

/// A sample of the line during tick `i` takes the receiver one tick on.
proof fn lemma_rx_sample(r0: OokModel, f: Seq<u8>, i: int)
    requires
        ook_rx_ready(r0),
        ook_frame_ok(f),
        0 <= i < ook_link_ticks(encoded(f, f[0] + 1)),
    ensures
        ook_tick(ook_rx_at(r0, f, i), ook_line_level(encoded(f, f[0] + 1), i)).0 == ook_rx_at(
            r0,
            f,
            i + 1,
        ),
        i > 0 ==> ook_rx_at(r0, f, i).mode == OokMode::Receive,
{
    let e = encoded(f, f[0] + 1);
    let r1 = OokModel { rx_detected_one: true, ..r0 };
    let k = i / 8;
    let c = i % 8;
    assert(i == 8 * k + c);
    assert(e.len() == f.len());
    lemma_rx_bit(r1, f, k);
    let next = i + 1;
    if i == 0 {
        lemma_preamble_bits(5);
        assert(PREAMBLE@[0] == 42u8);
        assert(ook_link_bit(e, 0));
        assert(next / 8 == 0 && next % 8 == 1);
        assert(ook_rx_at_bit(r1, f, 0) == r1);
    } else if c < 7 {
        assert(next / 8 == k && next % 8 == c + 1);
    } else {
        assert(next / 8 == k + 1 && next % 8 == 0);
        let at = ook_rx_at_bit(r1, f, k);
        assert(OokModel { rx_current_tick: 0, rx_n_ones_in_tick: 0, ..OokModel {
            rx_current_tick: c as nat,
            rx_n_ones_in_tick: if ook_link_bit(e, k) {
                c as nat
            } else {
                0
            },
            ..at
        } } == at);
        if k + 1 < 24 + 6 * f.len() {
            lemma_rx_bit(r1, f, k + 1);
        }
    }
}

/// A receiving driver that has not seen a one yet is unchanged by a tick of
/// a low line: a receiver started any number of ticks before a transmission
/// begins is where it was when it started.
pub proof fn lemma_waiting_receiver_ignores_low_line(r: OokModel)
    requires
        r.mode == OokMode::Receive,
        !r.rx_detected_one,
    ensures
        ook_tick(r, false) == (r, None::<bool>),
{
}

// ===== The two together =====

/// Two drivers ticked together during a transmission: the transmitter at
/// its tick, ended after the last, and the receiver having sampled each tick.
proof fn lemma_link_at(t: OokModel, r0: OokModel, f: Seq<u8>, i: nat)
    requires
        ook_tx_starting(t),
        ook_frame_ok(f),
        t.tx_buf == encoded(f, f[0] + 1),
        ook_rx_ready(r0),
        i <= ook_link_ticks(t.tx_buf),
    ensures
        ook_link_run(t, r0, i) == (
            if i < ook_link_ticks(t.tx_buf) {
                ook_tx_at(t, i)
            } else {
                ended(ook_tx_at(t, (i - 1) as nat))
            },
            ook_rx_at(r0, f, i as int),
        ),
    decreases i,
{
    if i == 0 {
        assert(ook_tx_at(t, 0) == t);
    } else {
        let p = (i - 1) as nat;
        lemma_link_at(t, r0, f, p);
        lemma_tx_tick(t, p);
        lemma_rx_sample(r0, f, p as int);
    }
}

/// A message sent by an idle driver reaches an idle driver that was told to
/// start receiving (one whose earlier reception, if any, ran to its end),
/// when the two tick together with the receiver's input joined to the
/// transmitter's output: the transmission takes the preamble and twelve bits
/// per byte of the length byte and the message (cut to
/// `MAX_MESSAGE_LENGTH` bytes), eight ticks per bit; throughout it one
/// driver transmits and the other receives, and after its last tick both
/// are idle and the receiver holds the length byte and the message.
pub proof fn lemma_ook_message_delivered(t0: OokModel, r0: OokModel, msg: Seq<u8>)
    requires
        ook_wf(t0),
        t0.mode == OokMode::Idle,
        ook_wf(r0),
        r0.mode == OokMode::Idle,
        r0.rx_bit_index == 0,
        msg.len() > 0,
    ensures
        ({
            let n = sent_count(msg.len() as int);
            let t = ook_sent(t0, msg);
            let r = ook_started(r0);
            let d = ook_link_ticks(t.tx_buf);
            let (t_end, r_end) = ook_link_run(t, r, d);
            &&& d == ((n + 1) * 12 + PREAMBLE_SIZE * 6) * 8
            &&& forall|i: nat|
                i < d ==> (#[trigger] ook_link_run(t, r, i)).0.mode == OokMode::Transmit
                    && ook_link_run(t, r, i).1.mode == OokMode::Receive
            &&& t_end.mode == OokMode::Idle
            &&& r_end.mode == OokMode::Idle
            &&& r_end.rx_message_received
            &&& r_end.rx_error is None
            &&& r_end.rx_buf == seq![n as u8] + msg.take(n)
        }),
{
    let n = sent_count(msg.len() as int);
    let f = ook_frame(msg, n);
    let t = ook_sent(t0, msg);
    let r = ook_started(r0);
    let d = ook_link_ticks(t.tx_buf);
    assert(f[0] == n as u8);
    assert(f.len() == 2 * n + 2);
    assert(t.tx_buf == encoded(f, f[0] + 1));
    assert(ook_tx_starting(t));
    assert(ook_rx_ready(r));
    assert forall|i: nat| i < d implies (#[trigger] ook_link_run(t, r, i)).0.mode
        == OokMode::Transmit && ook_link_run(t, r, i).1.mode == OokMode::Receive by {
        lemma_link_at(t, r, f, i);
        lemma_rx_sample(r, f, i as int);
    }
    lemma_link_at(t, r, f, d);
    let k = 24 + 6 * f.len();
    assert(d == 8 * k);
    assert((d as int) / 8 == k && (d as int) % 8 == 0);
    assert(f.take(n + 1) =~= seq![n as u8] + msg.take(n));
}

} // verus!
