//! What goes over the line from a transmitter to a receiver: the bits a
//! transmitter puts on the line, one every `TICKS_PER_BIT` ticks, and what a
//! receiver that samples the line once per tick makes of them.
use vstd::prelude::*;

use crate::consts::{MAX_BUFFER_SIZE, MAX_MESSAGE_LENGTH, MESSAGE_START_BYTE, SYNC_BYTE};
use crate::data_coding::radio_head_4b6b::{
    lemma_symbol_table_inverse,
    lemma_symbols_balanced,
    encoded,
    symbol_for,
};
use crate::driver::pll::Pll;
use crate::driver::receiver::{
    cleaned,
    symbol_read,
    with_bit,
    rx_on_bit,
    rx_step,
    shifted_in,
    sync_tail,
    ReceiverError,
    RxModel,
    RxState,
};
use crate::driver::transmitter::{
    bit_of,
    framed,
    lemma_bit_held,
    sent_length,
    tx_run,
    tx_step,
    TxModel,
    TxState,
};

verus! {

// ===== The transmitter's side =====

/// Bit `k` of a transmission whose encoded frame is `buffer`: sixteen sync
/// bits, the eight bits of the start byte, then six bits of each symbol of
/// the frame, least significant bit first.
pub open spec fn link_bit(buffer: Seq<u8>, k: int) -> bool {
    if k < 16 {
        bit_of(SYNC_BYTE, (k % 8) as nat)
    } else if k < 24 {
        bit_of(MESSAGE_START_BYTE, (k - 16) as nat)
    } else {
        bit_of(buffer[(k - 24) / 6], ((k - 24) % 6) as nat)
    }
}

/// The transmitter at the start of bit `k` of the transmission that `m0`
/// starts (`m0` is about to send the first sync bit).
pub open spec fn tx_pos(m0: TxModel, k: nat) -> TxModel {
    let data_bits = m0.message_bit_length;
    if k < 16 {
        TxModel { state: TxState::Syncing, bit_index: k, byte_index: 0, ticks: 0, ..m0 }
    } else if k < 24 {
        TxModel {
            state: TxState::SendingStartByte,
            bit_index: (k - 16) as nat,
            byte_index: 0,
            ticks: 0,
            ..m0
        }
    } else if k < 24 + data_bits {
        TxModel {
            state: TxState::SendingData,
            bit_index: ((k - 24) % 6) as nat,
            byte_index: ((k - 24) / 6) as nat,
            ticks: 0,
            ..m0
        }
    } else {
        TxModel { state: TxState::DataSent, bit_index: 0, byte_index: 0, ticks: 0, ..m0 }
    }
}

/// A transmission is starting: the transmitter is about to send the first sync bit.
pub open spec fn tx_starting(m0: TxModel) -> bool {
    &&& m0.state == TxState::Syncing
    &&& m0.bit_index == 0
    &&& m0.byte_index == 0
    &&& m0.ticks == 0
    &&& m0.message_bit_length > 0
    &&& m0.message_bit_length % 6 == 0
    &&& m0.message_bit_length / 6 <= m0.buffer.len()
}

/// The first call of `transmit` in bit `k` puts bit `k` on the line and moves
/// on to the position of bit `k + 1` (with the bit's tick counter started).
proof fn lemma_tx_bit_start(m0: TxModel, ticks_per_bit: int, k: nat)
    requires
        tx_starting(m0),
        k < 24 + m0.message_bit_length,
    ensures
        tx_step(tx_pos(m0, k), ticks_per_bit) == (
            TxModel { ticks: 1, ..tx_pos(m0, k + 1) },
            Some(link_bit(m0.buffer, k as int)),
        ),
{
    let d = m0.message_bit_length as int;
    if 24 <= k {
        let j = k - 24;
        assert(j == (j / 6) * 6 + j % 6);
        assert((j + 1) / 6 == if j % 6 == 5 { j / 6 + 1 } else { j / 6 });
        assert((j + 1) % 6 == if j % 6 == 5 { 0 } else { j % 6 + 1 });
    }
}

/// `a` calls of `transmit` followed by `b` more are `a + b` calls.
proof fn lemma_tx_run_add(m: TxModel, ticks_per_bit: int, a: nat, b: nat)
    ensures
        tx_run(m, ticks_per_bit, a + b) == tx_run(tx_run(m, ticks_per_bit, a), ticks_per_bit, b),
    decreases b,
{
    if b > 0 {
        lemma_tx_run_add(m, ticks_per_bit, a, (b - 1) as nat);
        assert(a + b - 1 == a + (b - 1));
    }
}

/// A bit takes `ticks_per_bit` calls of `transmit`: from the start of bit
/// `k` they lead to the start of bit `k + 1`.
proof fn lemma_tx_one_bit(m0: TxModel, ticks_per_bit: int, k: nat)
    requires
        tx_starting(m0),
        ticks_per_bit >= 2,
        k < 24 + m0.message_bit_length,
    ensures
        tx_run(tx_pos(m0, k), ticks_per_bit, ticks_per_bit as nat) == tx_pos(m0, k + 1),
{
    let t = ticks_per_bit as nat;
    lemma_tx_bit_start(m0, ticks_per_bit, k);
    lemma_tx_run_add(tx_pos(m0, k), ticks_per_bit, 1, (t - 1) as nat);
    assert(tx_run(tx_pos(m0, k), ticks_per_bit, 0) == tx_pos(m0, k));
    lemma_bit_held(TxModel { ticks: 1, ..tx_pos(m0, k + 1) }, ticks_per_bit);
}

/// After `k` bit periods the transmitter is at the start of bit `k`.
proof fn lemma_tx_at_bit(m0: TxModel, ticks_per_bit: int, k: nat)
    requires
        tx_starting(m0),
        ticks_per_bit >= 2,
        k <= 24 + m0.message_bit_length,
    ensures
        tx_run(m0, ticks_per_bit, k * ticks_per_bit as nat) == tx_pos(m0, k),
    decreases k,
{
    let t = ticks_per_bit as nat;
    if k == 0 {
        assert(k * t == 0) by (nonlinear_arith)
            requires
                k == 0,
        ;
        assert(tx_pos(m0, 0) == m0);
    } else {
        let p = (k - 1) as nat;
        lemma_tx_at_bit(m0, ticks_per_bit, p);
        assert(p * t + t == k * t) by (nonlinear_arith)
            requires
                p == k - 1,
        ;
        lemma_tx_run_add(m0, ticks_per_bit, p * t, t);
        lemma_tx_one_bit(m0, ticks_per_bit, p);
        assert(tx_run(m0, ticks_per_bit, p * t) == tx_pos(m0, p));
        assert(tx_run(m0, ticks_per_bit, k * t) == tx_run(tx_pos(m0, p), ticks_per_bit, t));
    }
}

/// The level of the line after each of the first `k` calls of `transmit`,
/// for a line at level `start` before them: a call that returns a level sets
/// the line, one that returns `None` leaves it.
pub open spec fn tx_line(m: TxModel, ticks_per_bit: int, start: bool, k: nat) -> Seq<bool>
    decreases k,
{
    if k == 0 {
        Seq::empty()
    } else {
        let prev = tx_line(m, ticks_per_bit, start, (k - 1) as nat);
        let before = if k == 1 {
            start
        } else {
            prev.last()
        };
        match tx_step(tx_run(m, ticks_per_bit, (k - 1) as nat), ticks_per_bit).1 {
            Some(level) => prev.push(level),
            None => prev.push(before),
        }
    }
}

/// During a transmission the line holds bit `t / ticks_per_bit` after call `t`.
proof fn lemma_tx_line(m0: TxModel, ticks_per_bit: int, start: bool, k: nat)
    requires
        tx_starting(m0),
        ticks_per_bit >= 2,
        k <= (24 + m0.message_bit_length) * ticks_per_bit,
    ensures
        tx_line(m0, ticks_per_bit, start, k).len() == k,
        forall|t: int|
            0 <= t < k ==> #[trigger] tx_line(m0, ticks_per_bit, start, k)[t] == link_bit(
                m0.buffer,
                t / ticks_per_bit,
            ),
    decreases k,
{
    if k > 0 {
        let t = ticks_per_bit as nat;
        lemma_tx_line(m0, ticks_per_bit, start, (k - 1) as nat);
        let c = (k - 1) as nat;
        let q = c / t;
        let r = c % t;
        assert(c == q * t + r && 0 <= r < t && (c as int) / ticks_per_bit == q) by (nonlinear_arith)
            requires
                t >= 2,
                q == c / t,
                r == c % t,
                t == ticks_per_bit,
        ;
        assert(q < 24 + m0.message_bit_length) by (nonlinear_arith)
            requires
                c == q * t + r,
                0 <= r,
                c < (24 + m0.message_bit_length) * t,
                t >= 2,
        ;
        lemma_tx_at_bit(m0, ticks_per_bit, q);
        lemma_tx_run_add(m0, ticks_per_bit, q * t, r);
        if r == 0 {
            lemma_tx_bit_start(m0, ticks_per_bit, q);
        } else {
            lemma_tx_bit_start(m0, ticks_per_bit, q);
            lemma_tx_run_add(tx_pos(m0, q), ticks_per_bit, 1, (r - 1) as nat);
            assert(tx_run(tx_pos(m0, q), ticks_per_bit, 0) == tx_pos(m0, q));
            let started = TxModel { ticks: 1, ..tx_pos(m0, q + 1) };
            lemma_bit_held(started, ticks_per_bit);
            assert(tx_step(tx_run(started, ticks_per_bit, (r - 1) as nat), ticks_per_bit).1
                is None);
            assert(((c - 1) as int) / ticks_per_bit == q) by (nonlinear_arith)
                requires
                    c == q * t + r,
                    1 <= r < t,
                    t == ticks_per_bit,
            ;
        }
        let line = tx_line(m0, ticks_per_bit, start, k);
        assert forall|i: int| 0 <= i < k implies #[trigger] line[i] == link_bit(
            m0.buffer,
            i / ticks_per_bit,
        ) by {
            if i < c {
                assert(line[i] == tx_line(m0, ticks_per_bit, start, c)[i]);
            }
        }
    }
}

// ===== The receiver's side =====

/// The receiver after taking the samples `pins` in turn.
pub open spec fn rx_run<const TICKS_PER_BIT: u8>(m: RxModel<TICKS_PER_BIT>, pins: Seq<bool>) -> RxModel<
    TICKS_PER_BIT,
>
    decreases pins.len(),
{
    if pins.len() == 0 {
        m
    } else {
        rx_step(rx_run(m, pins.drop_last()), pins.last()).0
    }
}

/// Every one of the samples `pins` was answered with `MessageNotReady`.
pub open spec fn rx_quiet<const TICKS_PER_BIT: u8>(m: RxModel<TICKS_PER_BIT>, pins: Seq<bool>) -> bool
    decreases pins.len(),
{
    if pins.len() == 0 {
        true
    } else {
        rx_quiet(m, pins.drop_last()) && rx_step(rx_run(m, pins.drop_last()), pins.last()).1
            == Err::<Seq<u8>, ReceiverError>(ReceiverError::MessageNotReady)
    }
}

proof fn lemma_rx_run_add<const TICKS_PER_BIT: u8>(
    m: RxModel<TICKS_PER_BIT>,
    a: Seq<bool>,
    b: Seq<bool>,
)
    ensures
        rx_run(m, a + b) == rx_run(rx_run(m, a), b),
        rx_quiet(m, a + b) == (rx_quiet(m, a) && rx_quiet(rx_run(m, a), b)),
    decreases b.len(),
{
    if b.len() == 0 {
        assert(a + b =~= a);
    } else {
        lemma_rx_run_add(m, a, b.drop_last());
        assert((a + b).drop_last() =~= a + b.drop_last());
        assert((a + b).last() == b.last());
    }
}

/// `k` samples of the same level.
pub open spec fn repeated(level: bool, k: nat) -> Seq<bool> {
    Seq::new(k, |i: int| level)
}

/// The PLL at a bit boundary, in phase with the line, after a bit of level `level`.
pub open spec fn in_phase<const TICKS_PER_BIT: u8>(level: bool) -> Pll<TICKS_PER_BIT> {
    Pll { samples: 0, intergrator: 0, ramp: 0, last_state: level }
}

/// The receiver is in a state that works on the PLL's bits.
pub open spec fn reads_bits(state: RxState) -> bool {
    match state {
        RxState::Syncing | RxState::WaitingForStartByte | RxState::ReadingSize
        | RxState::ReadingMessage { .. } => true,
        _ => false,
    }
}

/// What the receiver does with a whole bit of level `level`, seen in phase.
pub open spec fn rx_bit_step<const TICKS_PER_BIT: u8>(m: RxModel<TICKS_PER_BIT>, level: bool) -> (
    RxModel<TICKS_PER_BIT>,
    Result<Seq<u8>, ReceiverError>,
) {
    rx_on_bit(
        RxModel { pll: in_phase(level), ..m },
        if level {
            1u8
        } else {
            0u8
        },
    )
}

/// A receiver that samples a bit in phase, `TICKS_PER_BIT` samples of one
/// level from a bit boundary, handles that bit once, on its last sample.
proof fn lemma_rx_one_bit<const TICKS_PER_BIT: u8>(m: RxModel<TICKS_PER_BIT>, level: bool)
    requires
        Pll::<TICKS_PER_BIT>::ticks_supported(),
        reads_bits(m.state),
        m.pll.ramp == 0,
        m.pll.samples == 0,
        m.pll.intergrator == 0,
    ensures
        rx_run(m, repeated(level, TICKS_PER_BIT as nat)) == rx_bit_step(m, level).0,
        rx_quiet(m, repeated(level, TICKS_PER_BIT as nat)) == (rx_bit_step(m, level).1
            == Err::<Seq<u8>, ReceiverError>(ReceiverError::MessageNotReady)),
{
    m.pll.lemma_locked_bit(level);
    lemma_rx_partial_bit(m, level, (TICKS_PER_BIT - 1) as nat);
    let t = TICKS_PER_BIT as nat;
    assert(repeated(level, t).drop_last() =~= repeated(level, (t - 1) as nat));
}

proof fn lemma_rx_partial_bit<const TICKS_PER_BIT: u8>(
    m: RxModel<TICKS_PER_BIT>,
    level: bool,
    j: nat,
)
    requires
        Pll::<TICKS_PER_BIT>::ticks_supported(),
        reads_bits(m.state),
        m.pll.ramp == 0,
        m.pll.samples == 0,
        m.pll.intergrator == 0,
        j < TICKS_PER_BIT,
    ensures
        rx_run(m, repeated(level, j)) == (RxModel { pll: m.pll.fed(level, j), ..m }),
        rx_quiet(m, repeated(level, j)),
    decreases j,
{
    m.pll.lemma_locked_bit(level);
    if j > 0 {
        lemma_rx_partial_bit(m, level, (j - 1) as nat);
        assert(repeated(level, j).drop_last() =~= repeated(level, (j - 1) as nat));
        assert(m.pll.fed(level, (j - 1) as nat).tick_output(level) is None);
    } else {
        assert(m.pll.fed(level, 0) == m.pll);
    }
}

/// The receiver after whole bits of the levels `levels`, each seen in phase.
pub open spec fn rx_bits<const TICKS_PER_BIT: u8>(m: RxModel<TICKS_PER_BIT>, levels: Seq<bool>) -> RxModel<
    TICKS_PER_BIT,
>
    decreases levels.len(),
{
    if levels.len() == 0 {
        m
    } else {
        rx_bit_step(rx_bits(m, levels.drop_last()), levels.last()).0
    }
}

/// Before each of the bits `levels` the receiver works on bits, and it
/// answers each with `MessageNotReady`.
pub open spec fn rx_bits_ok<const TICKS_PER_BIT: u8>(m: RxModel<TICKS_PER_BIT>, levels: Seq<bool>) -> bool
    decreases levels.len(),
{
    if levels.len() == 0 {
        true
    } else {
        let before = rx_bits(m, levels.drop_last());
        &&& rx_bits_ok(m, levels.drop_last())
        &&& reads_bits(before.state)
        &&& rx_bit_step(before, levels.last()).1 == Err::<Seq<u8>, ReceiverError>(
            ReceiverError::MessageNotReady,
        )
    }
}

proof fn lemma_rx_bits_add<const TICKS_PER_BIT: u8>(
    m: RxModel<TICKS_PER_BIT>,
    a: Seq<bool>,
    b: Seq<bool>,
)
    ensures
        rx_bits(m, a + b) == rx_bits(rx_bits(m, a), b),
        rx_bits_ok(m, a + b) == (rx_bits_ok(m, a) && rx_bits_ok(rx_bits(m, a), b)),
    decreases b.len(),
{
    if b.len() == 0 {
        assert(a + b =~= a);
    } else {
        lemma_rx_bits_add(m, a, b.drop_last());
        assert((a + b).drop_last() =~= a + b.drop_last());
        assert((a + b).last() == b.last());
    }
}

/// The samples of the bits `levels`, `ticks` samples each.
pub open spec fn wire(levels: Seq<bool>, ticks: nat) -> Seq<bool> {
    Seq::new(levels.len() * ticks, |i: int| levels[i / ticks as int])
}

proof fn lemma_wire_last(levels: Seq<bool>, ticks: nat)
    requires
        levels.len() > 0,
        ticks > 0,
    ensures
        wire(levels, ticks) =~= wire(levels.drop_last(), ticks) + repeated(levels.last(), ticks),
{
    let l = levels.len();
    let w = wire(levels, ticks);
    let v = wire(levels.drop_last(), ticks) + repeated(levels.last(), ticks);
    assert((l - 1) * ticks + ticks == l * ticks) by (nonlinear_arith);
    assert forall|i: int| 0 <= i < w.len() implies w[i] == v[i] by {
        let t = ticks as int;
        if i < (l - 1) * t {
            assert(i / t < l - 1) by (nonlinear_arith)
                requires
                    0 <= i < (l - 1) * t,
                    t > 0,
            ;
            assert(0 <= i / t) by (nonlinear_arith)
                requires
                    0 <= i,
                    t > 0,
            ;
        } else {
            assert(i / t == l - 1) by (nonlinear_arith)
                requires
                    (l - 1) * t <= i < l * t,
                    t > 0,
            ;
        }
    }
}

/// A receiver that samples whole bits in phase handles each of them once:
/// sampling the line is handling the bits.
proof fn lemma_rx_wire<const TICKS_PER_BIT: u8>(m: RxModel<TICKS_PER_BIT>, levels: Seq<bool>)
    requires
        Pll::<TICKS_PER_BIT>::ticks_supported(),
        m.pll.ramp == 0,
        m.pll.samples == 0,
        m.pll.intergrator == 0,
        rx_bits_ok(m, levels),
    ensures
        rx_run(m, wire(levels, TICKS_PER_BIT as nat)) == rx_bits(m, levels),
        rx_quiet(m, wire(levels, TICKS_PER_BIT as nat)),
        levels.len() > 0 ==> rx_bits(m, levels).pll == in_phase::<TICKS_PER_BIT>(levels.last()),
    decreases levels.len(),
{
    let t = TICKS_PER_BIT as nat;
    if levels.len() == 0 {
        assert(wire(levels, t) =~= Seq::<bool>::empty());
    } else {
        let init = levels.drop_last();
        lemma_rx_wire(m, init);
        lemma_wire_last(levels, t);
        lemma_rx_run_add(m, wire(init, t), repeated(levels.last(), t));
        let before = rx_bits(m, init);
        lemma_rx_one_bit(before, levels.last());
    }
}

/// An idle receiver, cleaned up, that samples a low bit from its first
/// sample on is waiting for a one afterwards, with its PLL in phase.
proof fn lemma_rx_first_bit<const TICKS_PER_BIT: u8>(r0: RxModel<TICKS_PER_BIT>, j: nat)
    requires
        Pll::<TICKS_PER_BIT>::ticks_supported(),
        r0 == cleaned(r0),
        1 <= j <= TICKS_PER_BIT,
    ensures
        rx_run(r0, repeated(false, j)) == (RxModel {
            state: RxState::WaitingForOne,
            pll: r0.pll.fed(false, j),
            ..r0
        }),
        rx_quiet(r0, repeated(false, j)),
    decreases j,
{
    if j > 1 {
        lemma_rx_first_bit(r0, (j - 1) as nat);
        assert(repeated(false, j).drop_last() =~= repeated(false, (j - 1) as nat));
    } else {
        assert(repeated(false, j).drop_last() =~= repeated(false, 0));
        assert(rx_run(r0, repeated(false, 0)) == r0);
        assert(rx_quiet(r0, repeated(false, 0)));
        assert(r0.pll.fed(false, 1) == r0.pll.fed(false, 0).ticked(false));
    }
}

/// A receiver waiting for a one, in phase, that samples a high bit moves to
/// syncing on its first sample and handles the bit on its last.
proof fn lemma_rx_second_bit<const TICKS_PER_BIT: u8>(w: RxModel<TICKS_PER_BIT>, j: nat)
    requires
        Pll::<TICKS_PER_BIT>::ticks_supported(),
        w.state == RxState::WaitingForOne,
        w.pll.ramp == 0,
        w.pll.samples == 0,
        w.pll.intergrator == 0,
        1 <= j < TICKS_PER_BIT,
    ensures
        rx_run(w, repeated(true, j)) == (RxModel {
            state: RxState::Syncing,
            ticks: w.ticks + 1,
            pll: w.pll.fed(true, j),
            ..w
        }),
        rx_quiet(w, repeated(true, j)),
    decreases j,
{
    w.pll.lemma_locked_bit(true);
    if j > 1 {
        lemma_rx_second_bit(w, (j - 1) as nat);
        assert(repeated(true, j).drop_last() =~= repeated(true, (j - 1) as nat));
        assert(w.pll.fed(true, (j - 1) as nat).tick_output(true) is None);
    } else {
        assert(repeated(true, j).drop_last() =~= repeated(true, 0));
        assert(rx_run(w, repeated(true, 0)) == w);
        assert(rx_quiet(w, repeated(true, 0)));
        assert(w.pll.fed(true, 0).tick_output(true) is None);
        assert(w.pll.fed(true, 1) == w.pll.fed(true, 0).ticked(true));
    }
}

/// The first two bits of a transmission, low then high, seen in phase by a
/// cleaned-up idle receiver: it syncs on the high bit and handles it.
proof fn lemma_rx_opening<const TICKS_PER_BIT: u8>(r0: RxModel<TICKS_PER_BIT>)
    requires
        Pll::<TICKS_PER_BIT>::ticks_supported(),
        r0 == cleaned(r0),
    ensures
        ({
            let t = TICKS_PER_BIT as nat;
            let synced = RxModel { state: RxState::Syncing, ticks: 1, ..r0 };
            &&& rx_run(r0, repeated(false, t) + repeated(true, t)) == rx_bit_step(synced, true).0
            &&& rx_quiet(r0, repeated(false, t) + repeated(true, t)) == (rx_bit_step(synced, true).1
                == Err::<Seq<u8>, ReceiverError>(ReceiverError::MessageNotReady))
        }),
{
    let t = TICKS_PER_BIT as nat;
    r0.pll.lemma_locked_bit(false);
    lemma_rx_first_bit(r0, t);
    let w = rx_run(r0, repeated(false, t));
    assert(w.pll == in_phase::<TICKS_PER_BIT>(false));
    lemma_rx_run_add(r0, repeated(false, t), repeated(true, t));
    w.pll.lemma_locked_bit(true);
    lemma_rx_second_bit(w, (t - 1) as nat);
    assert(repeated(true, t).drop_last() =~= repeated(true, (t - 1) as nat));
    let synced = RxModel { state: RxState::Syncing, ticks: 1, ..r0 };
    assert(w.pll.fed(true, (t - 1) as nat).tick_output(true) == Some(1u8));
}

// ===== What the receiver makes of the bits =====

/// The bits of the sync byte and of the start byte.
proof fn lemma_constant_bits(i: u8)
    by (bit_vector)
    requires
        i < 8,
    ensures
        ((0xAAu8 >> i) & 1u8 == 1u8) == (i % 2 == 1),
        ((0xCCu8 >> i) & 1u8 == 1u8) == (i == 2 || i == 3 || i == 6 || i == 7),
{
}

/// The last eight bits while the start byte comes in after the sync bits.
proof fn lemma_start_windows()
    by (bit_vector)
    ensures
        (0x55u8 >> 1u8) | (0u8 << 7u8) == 0x2Au8,
        (0x2Au8 >> 1u8) | (1u8 << 7u8) == 0x95u8,
        (0x95u8 >> 1u8) | (1u8 << 7u8) == 0xCAu8,
        (0xCAu8 >> 1u8) | (0u8 << 7u8) == 0x65u8,
        (0x65u8 >> 1u8) | (0u8 << 7u8) == 0x32u8,
        (0x32u8 >> 1u8) | (1u8 << 7u8) == 0x99u8,
        (0x99u8 >> 1u8) | (1u8 << 7u8) == 0xCCu8,
{
}

/// The levels of the sync sequence as the receiver sees them after the
/// first one: sixteen bits alternating from high (the last one is the first
/// bit of the start byte).
pub open spec fn sync_levels() -> Seq<bool> {
    Seq::new(16, |i: int| i % 2 == 0)
}

/// While the sync bits come in, the receiver counts them and remembers the
/// last; after sixteen it waits for the start byte with the last eight bits
/// in hand.
proof fn lemma_rx_sync<const TICKS_PER_BIT: u8>(s0: RxModel<TICKS_PER_BIT>, j: nat)
    requires
        s0.state == RxState::Syncing,
        s0.bit_index == 0,
        s0.current_byte == 0,
        1 <= j <= 16,
    ensures
        rx_bits_ok(s0, sync_levels().take(j as int)),
        rx_bits(s0, sync_levels().take(j as int)) == if j < 16 {
            RxModel {
                bit_index: j,
                current_byte: if j % 2 == 1 {
                    1u8
                } else {
                    0u8
                },
                pll: in_phase(j % 2 == 1),
                ..s0
            }
        } else {
            RxModel {
                state: RxState::WaitingForStartByte,
                bit_index: 0,
                current_byte: 0x55,
                pll: in_phase(false),
                ..s0
            }
        },
    decreases j,
{
    let lv = sync_levels().take(j as int);
    assert(lv.last() == (j % 2 == 1));
    if j > 1 {
        lemma_rx_sync(s0, (j - 1) as nat);
        assert(lv.drop_last() =~= sync_levels().take(j - 1));
        assert(rx_bits_ok(s0, lv.drop_last()));
    } else {
        assert(lv.drop_last() =~= Seq::<bool>::empty());
        assert(rx_bits_ok(s0, lv.drop_last()));
        assert(rx_bits(s0, lv.drop_last()) == s0);
    }
}

/// The levels of the start byte after its first bit.
pub open spec fn start_levels() -> Seq<bool> {
    seq![false, true, true, false, false, true, true]
}

/// With the last eight sync bits in hand, the receiver finds the start byte
/// in the seven bits after them and then reads the size.
proof fn lemma_rx_start<const TICKS_PER_BIT: u8>(w: RxModel<TICKS_PER_BIT>)
    requires
        w.state == RxState::WaitingForStartByte,
        w.bit_index == 0,
        w.current_byte == 0x55,
    ensures
        rx_bits_ok(w, start_levels()),
        rx_bits(w, start_levels()) == (RxModel {
            state: RxState::ReadingSize,
            bit_index: 0,
            current_byte: 0,
            pll: in_phase(true),
            ..w
        }),
{
    lemma_start_windows();
    let lv = start_levels();
    assert(lv.take(1).drop_last() =~= lv.take(0));
    assert(lv.take(2).drop_last() =~= lv.take(1));
    assert(lv.take(3).drop_last() =~= lv.take(2));
    assert(lv.take(4).drop_last() =~= lv.take(3));
    assert(lv.take(5).drop_last() =~= lv.take(4));
    assert(lv.take(6).drop_last() =~= lv.take(5));
    assert(lv.drop_last() =~= lv.take(6));
    assert(rx_bits(w, lv.take(0)) == w);
    assert(rx_bits(w, lv.take(1)) == RxModel { bit_index: 1, current_byte: 0x2Au8, pll: in_phase(false), ..w });
    assert(rx_bits(w, lv.take(2)) == RxModel { bit_index: 2, current_byte: 0x95u8, pll: in_phase(true), ..w });
    assert(rx_bits(w, lv.take(3)) == RxModel { bit_index: 3, current_byte: 0xCAu8, pll: in_phase(true), ..w });
    assert(rx_bits(w, lv.take(4)) == RxModel { bit_index: 4, current_byte: 0x65u8, pll: in_phase(false), ..w });
    assert(rx_bits(w, lv.take(5)) == RxModel { bit_index: 5, current_byte: 0x32u8, pll: in_phase(false), ..w });
    assert(rx_bits(w, lv.take(6)) == RxModel { bit_index: 6, current_byte: 0x99u8, pll: in_phase(true), ..w });
    assert(rx_bits_ok(w, lv.take(0)));
    assert(rx_bits_ok(w, lv.take(1)));
    assert(rx_bits_ok(w, lv.take(2)));
    assert(rx_bits_ok(w, lv.take(3)));
    assert(rx_bits_ok(w, lv.take(4)));
    assert(rx_bits_ok(w, lv.take(5)));
    assert(rx_bits_ok(w, lv.take(6)));
}

/// The mask of the low `r` bits (`r <= 6`).
pub open spec fn low_mask(r: u8) -> u8 {
    if r == 0 {
        0u8
    } else if r == 1 {
        1u8
    } else if r == 2 {
        3u8
    } else if r == 3 {
        7u8
    } else if r == 4 {
        15u8
    } else if r == 5 {
        31u8
    } else {
        63u8
    }
}

/// The low `r` bits of `s`.
pub open spec fn low_bits(s: u8, r: nat) -> u8 {
    s & low_mask(r as u8)
}

/// Adding bit `r` of a symbol to its low `r` bits gives its low `r + 1` bits.
proof fn lemma_symbol_bit(s: u8, r: u8)
    by (bit_vector)
    requires
        s < 64,
        r < 6,
    ensures
        (s & low_mask(r)) | ((if (s >> r) & 1u8 == 1u8 {
            1u8
        } else {
            0u8
        }) << r) == s & low_mask((r + 1) as u8),
        s & low_mask(0) == 0u8,
        s & low_mask(6) == s,
{
}

/// The levels of the six bits of symbol `s`, least significant first.
pub open spec fn symbol_levels(s: u8) -> Seq<bool> {
    Seq::new(6, |r: int| bit_of(s, r as nat))
}

/// The receiver reads a size or a message byte.
pub open spec fn reads_symbols(state: RxState) -> bool {
    state == RxState::ReadingSize || state is ReadingMessage
}

/// While the bits of a symbol come in, the receiver puts them together.
proof fn lemma_rx_symbol_prefix<const TICKS_PER_BIT: u8>(m: RxModel<TICKS_PER_BIT>, s: u8, r: nat)
    requires
        reads_symbols(m.state),
        m.bit_index == 0,
        m.current_byte == 0,
        s < 64,
        1 <= r <= 5,
    ensures
        rx_bits_ok(m, symbol_levels(s).take(r as int)),
        rx_bits(m, symbol_levels(s).take(r as int)) == (RxModel {
            bit_index: r,
            current_byte: low_bits(s, r),
            pll: in_phase(bit_of(s, (r - 1) as nat)),
            ..m
        }),
    decreases r,
{
    let lv = symbol_levels(s).take(r as int);
    let prev = (r - 1) as nat;
    lemma_symbol_bit(s, prev as u8);
    if r > 1 {
        lemma_rx_symbol_prefix(m, s, prev);
        assert(lv.drop_last() =~= symbol_levels(s).take(prev as int));
    } else {
        assert(lv.drop_last() =~= Seq::<bool>::empty());
        assert(rx_bits(m, lv.drop_last()) == m);
        assert(rx_bits_ok(m, lv.drop_last()));
    }
    assert(rx_bits_ok(m, lv.drop_last()));
    assert(with_bit(low_bits(s, prev), if bit_of(s, prev) {
        1u8
    } else {
        0u8
    }, prev) == low_bits(s, r));
}

/// The six bits of a symbol come to one symbol handed to the decoder.
proof fn lemma_rx_symbol<const TICKS_PER_BIT: u8>(m: RxModel<TICKS_PER_BIT>, s: u8)
    requires
        reads_symbols(m.state),
        m.bit_index == 0,
        m.current_byte == 0,
        s < 64,
    ensures
        ({
            let m5 = RxModel {
                bit_index: 5,
                current_byte: low_bits(s, 5),
                pll: in_phase(bit_of(s, 4)),
                ..m
            };
            let (after, out) = rx_bit_step(m5, bit_of(s, 5));
            &&& rx_bits(m, symbol_levels(s)) == after
            &&& rx_bits_ok(m, symbol_levels(s)) == (out == Err::<Seq<u8>, ReceiverError>(
                ReceiverError::MessageNotReady,
            ))
            &&& after == rx_on_bit(
                RxModel {
                    bit_index: 5,
                    current_byte: low_bits(s, 5),
                    pll: in_phase(bit_of(s, 5)),
                    ..m
                },
                if bit_of(s, 5) {
                    1u8
                } else {
                    0u8
                },
            ).0
            &&& with_bit(low_bits(s, 5), if bit_of(s, 5) {
                1u8
            } else {
                0u8
            }, 5) == s
        }),
{
    lemma_rx_symbol_prefix(m, s, 5);
    lemma_symbol_bit(s, 5);
    assert(symbol_levels(s).drop_last() =~= symbol_levels(s).take(5));
    assert(low_bits(s, 6) == s);
}

/// The levels of the two symbols of byte `b`, low half first.
pub open spec fn byte_levels(b: u8) -> Seq<bool> {
    symbol_levels(symbol_for(b as int % 16)) + symbol_levels(symbol_for(b as int / 16))
}

/// What the receiver does with a whole byte `b` read in a reading state,
/// with the line at `level` at its end: the size starts the message, a
/// message byte is stored and the last one completes the message.
pub open spec fn rx_byte_read<const TICKS_PER_BIT: u8>(
    m: RxModel<TICKS_PER_BIT>,
    b: u8,
    level: bool,
) -> RxModel<TICKS_PER_BIT> {
    let m2 = RxModel { bit_index: 0, current_byte: 0, pending: None, pll: in_phase(level), ..m };
    match m.state {
        RxState::ReadingMessage { message_size } => {
            let buffer = m.buffer.update(m.buffer_byte_index as int, b);
            if m.buffer_byte_index + 1 >= message_size {
                RxModel {
                    state: RxState::MessageReceived { message_size },
                    buffer,
                    buffer_byte_index: 0,
                    ..m2
                }
            } else {
                RxModel { buffer, buffer_byte_index: m.buffer_byte_index + 1, ..m2 }
            }
        },
        _ => RxModel { state: RxState::ReadingMessage { message_size: b }, ..m2 },
    }
}

/// The two symbols of a byte, read in phase, are that byte for the receiver.
proof fn lemma_rx_byte<const TICKS_PER_BIT: u8>(m: RxModel<TICKS_PER_BIT>, b: u8)
    requires
        reads_symbols(m.state),
        m.bit_index == 0,
        m.current_byte == 0,
        m.pending is None,
        m.state == RxState::ReadingSize ==> b <= MAX_MESSAGE_LENGTH,
    ensures
        rx_bits_ok(m, byte_levels(b)),
        rx_bits(m, byte_levels(b)) == rx_byte_read(
            m,
            b,
            bit_of(symbol_for(b as int / 16), 5),
        ),
{
    let lo = symbol_for(b as int % 16);
    let hi = symbol_for(b as int / 16);
    lemma_symbols_balanced(b as int % 16);
    lemma_symbols_balanced(b as int / 16);
    lemma_symbol_table_inverse(b as int % 16, 0);
    lemma_symbol_table_inverse(b as int / 16, 0);
    lemma_rx_symbol(m, lo);
    let m1 = rx_bits(m, symbol_levels(lo));
    assert(m1 == RxModel {
        bit_index: 0,
        current_byte: 0,
        pending: Some((b as int % 16) as u8),
        pll: in_phase(bit_of(lo, 5)),
        ..m
    });
    lemma_rx_symbol(m1, hi);
    lemma_rx_bits_add(m, symbol_levels(lo), symbol_levels(hi));
    assert(((b as int % 16) as u8 + 16 * ((b as int / 16) as u8)) as u8 == b);
}

/// The levels of the first `k` bytes of `frame`, two symbols each.
pub open spec fn frame_levels(frame: Seq<u8>, k: nat) -> Seq<bool>
    decreases k,
{
    if k == 0 {
        Seq::empty()
    } else {
        frame_levels(frame, (k - 1) as nat) + byte_levels(frame[k - 1])
    }
}

/// The receiver after reading the size byte and `k - 1` message bytes of
/// `frame` (`1 <= k <= frame[0] + 1`), starting from `m`.
pub open spec fn rx_frame_read<const TICKS_PER_BIT: u8>(
    m: RxModel<TICKS_PER_BIT>,
    frame: Seq<u8>,
    k: nat,
) -> RxModel<TICKS_PER_BIT> {
    let n = frame[0];
    let buffer = Seq::new(
        m.buffer.len(),
        |i: int|
            if i < k - 1 {
                frame[i + 1]
            } else {
                m.buffer[i]
            },
    );
    let common = RxModel {
        bit_index: 0,
        current_byte: 0,
        pending: None,
        pll: in_phase(bit_of(symbol_for(frame[k - 1] as int / 16), 5)),
        buffer,
        ..m
    };
    if k <= n {
        RxModel {
            state: RxState::ReadingMessage { message_size: n },
            buffer_byte_index: (k - 1) as nat,
            ..common
        }
    } else {
        RxModel {
            state: RxState::MessageReceived { message_size: n },
            buffer_byte_index: 0,
            ..common
        }
    }
}

/// Reading the size byte and the message bytes of a frame, the receiver
/// stores the message at the start of its buffer and has received it after
/// the last byte.
proof fn lemma_rx_frame<const TICKS_PER_BIT: u8>(m: RxModel<TICKS_PER_BIT>, frame: Seq<u8>, k: nat)
    requires
        m.state == RxState::ReadingSize,
        m.bit_index == 0,
        m.current_byte == 0,
        m.pending is None,
        m.buffer_byte_index == 0,
        0 < frame[0] <= MAX_MESSAGE_LENGTH,
        frame[0] < m.buffer.len(),
        frame.len() > frame[0],
        1 <= k <= frame[0] + 1,
    ensures
        rx_bits_ok(m, frame_levels(frame, k)),
        rx_bits(m, frame_levels(frame, k)) == rx_frame_read(m, frame, k),
    decreases k,
{
    let n = frame[0];
    let prev = (k - 1) as nat;
    if k == 1 {
        assert(frame_levels(frame, 0) =~= Seq::<bool>::empty());
        assert(frame_levels(frame, 1) =~= byte_levels(frame[0]));
        lemma_rx_byte(m, frame[0]);
        assert(rx_frame_read(m, frame, 1).buffer =~= m.buffer);
    } else {
        lemma_rx_frame(m, frame, prev);
        let before = rx_frame_read(m, frame, prev);
        lemma_rx_bits_add(m, frame_levels(frame, prev), byte_levels(frame[k - 1]));
        lemma_rx_byte(before, frame[k - 1]);
        assert(rx_byte_read(before, frame[k - 1], bit_of(symbol_for(frame[k - 1] as int / 16), 5)).buffer
            =~= rx_frame_read(m, frame, k).buffer);
    }
}

proof fn lemma_wire_add(a: Seq<bool>, b: Seq<bool>, ticks: nat)
    requires
        ticks > 0,
    ensures
        wire(a + b, ticks) =~= wire(a, ticks) + wire(b, ticks),
{
    let t = ticks as int;
    let la = a.len() as int;
    let lb = b.len() as int;
    assert((la + lb) * t == la * t + lb * t) by (nonlinear_arith);
    let w = wire(a + b, ticks);
    let v = wire(a, ticks) + wire(b, ticks);
    assert forall|i: int| 0 <= i < w.len() implies w[i] == v[i] by {
        assert(0 <= i / t) by (nonlinear_arith)
            requires
                0 <= i,
                t > 0,
        ;
        if i < la * t {
            assert(i / t < la) by (nonlinear_arith)
                requires
                    0 <= i < la * t,
                    t > 0,
            ;
        } else {
            assert((i - la * t) / t == i / t - la && 0 <= (i - la * t) / t) by (nonlinear_arith)
                requires
                    la * t <= i,
                    t > 0,
            ;
            assert(i / t < la + lb) by (nonlinear_arith)
                requires
                    0 <= i < (la + lb) * t,
                    t > 0,
            ;
        }
    }
}

proof fn lemma_wire_single(level: bool, ticks: nat)
    requires
        ticks > 0,
    ensures
        wire(seq![level], ticks) =~= repeated(level, ticks),
{
    let w = wire(seq![level], ticks);
    assert(1 * ticks == ticks);
    assert forall|i: int| 0 <= i < ticks implies w[i] == level by {
        assert(i / (ticks as int) == 0) by (nonlinear_arith)
            requires
                0 <= i < ticks,
        ;
    }
}

/// Symbol `c` of the encoding of `frame`: the low half of byte `c / 2` for
/// even `c`, its high half for odd `c`.
pub open spec fn frame_symbol(frame: Seq<u8>, c: int) -> u8 {
    if c % 2 == 0 {
        symbol_for(frame[c / 2] as int % 16)
    } else {
        symbol_for(frame[c / 2] as int / 16)
    }
}

proof fn lemma_frame_levels(frame: Seq<u8>, k: nat)
    ensures
        frame_levels(frame, k).len() == 12 * k,
        forall|j: int|
            0 <= j < 12 * k ==> #[trigger] frame_levels(frame, k)[j] == bit_of(
                frame_symbol(frame, j / 6),
                (j % 6) as nat,
            ),
    decreases k,
{
    if k > 0 {
        let prev = (k - 1) as nat;
        lemma_frame_levels(frame, prev);
        let lv = frame_levels(frame, k);
        assert forall|j: int| 0 <= j < 12 * k implies #[trigger] lv[j] == bit_of(
            frame_symbol(frame, j / 6),
            (j % 6) as nat,
        ) by {
            if j < 12 * prev {
                assert(lv[j] == frame_levels(frame, prev)[j]);
            } else {
                let r = j - 12 * prev;
                let b = frame[k - 1];
                if r < 6 {
                    assert(j / 6 == 2 * prev && j % 6 == r);
                    assert((2 * prev) % 2 == 0 && (2 * prev) / 2 == prev);
                } else {
                    assert(j / 6 == 2 * prev + 1 && j % 6 == r - 6);
                    assert((2 * prev + 1) % 2 == 1 && (2 * prev + 1) / 2 == prev);
                }
            }
        }
    }
}

/// The bits of a transmission whose encoded frame is `buffer` and whose data
/// has `data_bits` bits.
pub open spec fn link_levels(buffer: Seq<u8>, data_bits: nat) -> Seq<bool> {
    Seq::new(24 + data_bits, |k: int| link_bit(buffer, k))
}

// ===== From the transmitter to the receiver =====

/// A transmitter at rest (its bit and byte counters and tick counter at 0)
/// after `send(msg)` of a non-empty message, with `old_buffer` its buffer before.
pub open spec fn sent(old_buffer: Seq<u8>, msg: Seq<u8>) -> TxModel {
    let n = sent_length(msg.len() as int);
    TxModel {
        buffer: encoded(framed(old_buffer, msg, n), n + 1),
        message_bit_length: ((n + 1) * 12) as nat,
        state: TxState::Syncing,
        bit_index: 0,
        byte_index: 0,
        ticks: 0,
    }
}

/// The number of calls of `transmit` that put a message of `n` bytes on the
/// line: sixteen sync bits, eight start bits and twelve bits per byte of the
/// length byte and the message, `ticks_per_bit` calls each.
pub open spec fn transmission_calls(n: int, ticks_per_bit: int) -> nat {
    ((24 + (n + 1) * 12) * ticks_per_bit) as nat
}

/// A message sent by a transmitter at rest reaches a receiver at rest (as
/// after `new` or `cleanup`) that samples the line once per tick, its first
/// sample being the line after the transmitter's first tick: every sample
/// taken during the transmission is answered `MessageNotReady`, the receiver
/// has then received the message (cut to `MAX_MESSAGE_LENGTH` bytes), its
/// next call returns it, and the transmitter's next tick makes it idle.
pub proof fn lemma_message_delivered<const TICKS_PER_BIT: u8>(
    r0: RxModel<TICKS_PER_BIT>,
    old_buffer: Seq<u8>,
    msg: Seq<u8>,
    pin: bool,
)
    requires
        Pll::<TICKS_PER_BIT>::ticks_supported(),
        r0 == cleaned(r0),
        r0.buffer.len() == MAX_BUFFER_SIZE,
        old_buffer.len() == MAX_BUFFER_SIZE,
        msg.len() > 0,
    ensures
        ({
            let n = sent_length(msg.len() as int);
            let tx0 = sent(old_buffer, msg);
            let calls = transmission_calls(n, TICKS_PER_BIT as int);
            let line = tx_line(tx0, TICKS_PER_BIT as int, false, calls);
            let received = rx_run(r0, line);
            &&& rx_quiet(r0, line)
            &&& received.state == RxState::MessageReceived { message_size: n as u8 }
            &&& rx_step(received, pin).1 == Ok::<Seq<u8>, ReceiverError>(msg.take(n))
            &&& tx_step(tx_run(tx0, TICKS_PER_BIT as int, calls), TICKS_PER_BIT as int) == (
            TxModel {
                state: TxState::Idle,
                bit_index: 0,
                byte_index: 0,
                message_bit_length: 0,
                ticks: 1,
                ..tx0
            },
            None::<bool>,
            )
        }),
{
    let t = TICKS_PER_BIT as nat;
    let ti = TICKS_PER_BIT as int;
    let n = sent_length(msg.len() as int);
    let d = ((n + 1) * 12) as nat;
    let frame = framed(old_buffer, msg, n);
    let buffer = encoded(frame, n + 1);
    let levels = link_levels(buffer, d);
    let rest = levels.subrange(2, 24 + d as int);

    lemma_line_is_wire(old_buffer, msg, ti);
    lemma_levels_split(old_buffer, msg);
    lemma_wire_add(seq![false], seq![true] + rest, t);
    lemma_wire_add(seq![true], rest, t);
    lemma_wire_single(false, t);
    lemma_wire_single(true, t);
    let line = tx_line(sent(old_buffer, msg), ti, false, transmission_calls(n, ti));
    assert(line =~= (repeated(false, t) + repeated(true, t)) + wire(rest, t));

    // The receiver: the opening bits, then the rest seen in phase
    lemma_rx_opening(r0);
    let synced = RxModel { state: RxState::Syncing, ticks: 1, ..r0 };
    lemma_rx_run_add(r0, repeated(false, t) + repeated(true, t), wire(rest, t));
    lemma_rx_message_bits(synced, old_buffer, msg);
    lemma_rx_bits_add(synced, seq![true], rest);
    assert(seq![true].drop_last() =~= Seq::<bool>::empty());
    assert(rx_bits(synced, seq![true]) == rx_bit_step(synced, true).0);
    let s1 = rx_bit_step(synced, true).0;
    lemma_rx_wire(s1, rest);
    assert(rx_run(r0, line) == rx_bits(s1, rest));
    assert(rx_quiet(r0, line));
}

/// The line during a transmission carries the bits of the transmission, one
/// per `ticks_per_bit` ticks, and the transmitter is idle one tick later.
proof fn lemma_line_is_wire(old_buffer: Seq<u8>, msg: Seq<u8>, ticks_per_bit: int)
    requires
        2 <= ticks_per_bit,
        old_buffer.len() == MAX_BUFFER_SIZE,
        msg.len() > 0,
    ensures
        ({
            let n = sent_length(msg.len() as int);
            let tx0 = sent(old_buffer, msg);
            let d = ((n + 1) * 12) as nat;
            let calls = transmission_calls(n, ticks_per_bit);
            let levels = link_levels(encoded(framed(old_buffer, msg, n), n + 1), d);
            &&& tx_line(tx0, ticks_per_bit, false, calls) =~= wire(levels, ticks_per_bit as nat)
            &&& tx_step(tx_run(tx0, ticks_per_bit, calls), ticks_per_bit) == (
            TxModel {
                state: TxState::Idle,
                bit_index: 0,
                byte_index: 0,
                message_bit_length: 0,
                ticks: 1,
                ..tx0
            },
            None::<bool>,
            )
        }),
{
    let n = sent_length(msg.len() as int);
    let tx0 = sent(old_buffer, msg);
    let d = ((n + 1) * 12) as nat;
    let calls = transmission_calls(n, ticks_per_bit);
    let line = tx_line(tx0, ticks_per_bit, false, calls);
    let levels = link_levels(tx0.buffer, d);
    assert(tx_starting(tx0));
    lemma_tx_line(tx0, ticks_per_bit, false, calls);
    assert forall|i: int| 0 <= i < calls implies line[i] == wire(
        levels,
        ticks_per_bit as nat,
    )[i] by {
        assert(0 <= i / ticks_per_bit < 24 + d) by (nonlinear_arith)
            requires
                0 <= i < (24 + d) * ticks_per_bit,
                ticks_per_bit > 0,
        ;
    }
    lemma_tx_at_bit(tx0, ticks_per_bit, (24 + d) as nat);
}

/// The bits of a transmission: a low bit, then (as the receiver sees them
/// after the first one) the sync bits, the start byte and the frame.
proof fn lemma_levels_split(old_buffer: Seq<u8>, msg: Seq<u8>)
    requires
        old_buffer.len() == MAX_BUFFER_SIZE,
        msg.len() > 0,
    ensures
        ({
            let n = sent_length(msg.len() as int);
            let d = ((n + 1) * 12) as nat;
            let frame = framed(old_buffer, msg, n);
            let levels = link_levels(encoded(frame, n + 1), d);
            let rest = levels.subrange(2, 24 + d as int);
            &&& levels =~= seq![false] + (seq![true] + rest)
            &&& seq![true] + rest =~= sync_levels() + (start_levels() + frame_levels(
                frame,
                (n + 1) as nat,
            ))
        }),
{
    let n = sent_length(msg.len() as int);
    let d = ((n + 1) * 12) as nat;
    let frame = framed(old_buffer, msg, n);
    let buffer = encoded(frame, n + 1);
    let levels = link_levels(buffer, d);
    let rest = levels.subrange(2, 24 + d as int);
    let data = frame_levels(frame, (n + 1) as nat);
    lemma_constant_bits(0);
    lemma_constant_bits(1);
    lemma_frame_levels(frame, (n + 1) as nat);
    let after_one = seq![true] + rest;
    let v = sync_levels() + (start_levels() + data);
    assert forall|i: int| 0 <= i < after_one.len() implies after_one[i] == v[i] by {
        let k = i + 1;
        if k < 16 {
            lemma_constant_bits((k % 8) as u8);
        } else if k < 24 {
            lemma_constant_bits((k - 16) as u8);
        } else {
            let j = k - 24;
            assert(buffer[j / 6] == frame_symbol(frame, j / 6));
        }
    }
}

/// The receiver, syncing from its first one, makes the message out of the
/// bits of the transmission.
proof fn lemma_rx_message_bits<const TICKS_PER_BIT: u8>(
    synced: RxModel<TICKS_PER_BIT>,
    old_buffer: Seq<u8>,
    msg: Seq<u8>,
)
    requires
        synced.state == RxState::Syncing,
        synced.bit_index == 0,
        synced.current_byte == 0,
        synced.pending is None,
        synced.buffer_byte_index == 0,
        synced.buffer.len() == MAX_BUFFER_SIZE,
        old_buffer.len() == MAX_BUFFER_SIZE,
        msg.len() > 0,
    ensures
        ({
            let n = sent_length(msg.len() as int);
            let frame = framed(old_buffer, msg, n);
            let bits = sync_levels() + (start_levels() + frame_levels(frame, (n + 1) as nat));
            let received = rx_bits(synced, bits);
            &&& rx_bits_ok(synced, bits)
            &&& received.state == RxState::MessageReceived { message_size: n as u8 }
            &&& received.buffer.take(n) == msg.take(n)
            &&& received.pll == in_phase::<TICKS_PER_BIT>(bits.last())
        }),
{
    let n = sent_length(msg.len() as int);
    let frame = framed(old_buffer, msg, n);
    let data = frame_levels(frame, (n + 1) as nat);
    lemma_rx_sync(synced, 16);
    assert(sync_levels().take(16) =~= sync_levels());
    let waiting = rx_bits(synced, sync_levels());
    lemma_rx_start(waiting);
    let reading = rx_bits(waiting, start_levels());
    lemma_rx_frame(reading, frame, (n + 1) as nat);
    lemma_rx_bits_add(waiting, start_levels(), data);
    lemma_rx_bits_add(synced, sync_levels(), start_levels() + data);
    let received = rx_frame_read(reading, frame, (n + 1) as nat);
    assert(received.buffer.take(n) =~= msg.take(n));
    let bits = sync_levels() + (start_levels() + data);
    lemma_frame_levels(frame, (n + 1) as nat);
    assert(bits.last() == data.last());
    assert(data.last() == bit_of(frame_symbol(frame, 2 * n + 1), 5)) by {
        let j = 12 * (n + 1) - 1;
        assert(j / 6 == 2 * n + 1 && j % 6 == 5);
    }
    assert((2 * n + 1) / 2 == n && (2 * n + 1) % 2 == 1);
}

} // verus!
