//! RadioHead's 4b6b line code: every 4-bit half of a byte travels as a 6-bit
//! symbol with three 1s and three 0s, so the signal stays DC balanced.
use vstd::prelude::*;

verus! {

/// 4 bit to 6 bit symbol converter table.
/// Used to convert the high and low nybbles of the transmitted data
/// into 6 bit symbols for transmission. Each 6-bit symbol has 3 1s and 3 0s
/// with at most 3 consecutive identical bits.
/// Source: the RH_ASK driver of the RadioHead library.
pub const SYMBOLS: [u8; 16] = [
    0xd, 0xe, 0x13, 0x15, 0x16, 0x19, 0x1a, 0x1c, 0x23, 0x25, 0x26, 0x29, 0x2a, 0x2c, 0x32,
    0x34,
];

// ===== Mathematical model =====

/// The symbol that encodes the 4-bit value `nibble` (`0 <= nibble < 16`).
pub open spec fn symbol_for(nibble: int) -> u8 {
    SYMBOLS@[nibble]
}

/// The 4-bit value that `symbol` encodes, or `None` when `symbol` is not in the table.
pub open spec fn half_byte_of(symbol: u8) -> Option<u8> {
    if symbol == 0x0d {
        Some(0u8)
    } else if symbol == 0x0e {
        Some(1u8)
    } else if symbol == 0x13 {
        Some(2u8)
    } else if symbol == 0x15 {
        Some(3u8)
    } else if symbol == 0x16 {
        Some(4u8)
    } else if symbol == 0x19 {
        Some(5u8)
    } else if symbol == 0x1a {
        Some(6u8)
    } else if symbol == 0x1c {
        Some(7u8)
    } else if symbol == 0x23 {
        Some(8u8)
    } else if symbol == 0x25 {
        Some(9u8)
    } else if symbol == 0x26 {
        Some(10u8)
    } else if symbol == 0x29 {
        Some(11u8)
    } else if symbol == 0x2a {
        Some(12u8)
    } else if symbol == 0x2c {
        Some(13u8)
    } else if symbol == 0x32 {
        Some(14u8)
    } else if symbol == 0x34 {
        Some(15u8)
    } else {
        None
    }
}

/// The byte that a pair of symbols encodes: `ls_symbol` carries the low half,
/// `ms_symbol` the high half.
pub open spec fn byte_of_symbols(ls_symbol: u8, ms_symbol: u8) -> Option<u8> {
    match (half_byte_of(ls_symbol), half_byte_of(ms_symbol)) {
        (Some(lo), Some(hi)) => Some((lo + 16 * hi) as u8),
        _ => None,
    }
}

/// One step of the running decoder: from the pending low half (if any) and
/// the next symbol, the new pending low half and the outcome.
pub open spec fn decoder_step(pending: Option<u8>, symbol: u8) -> (Option<u8>, Result<
    u8,
    RunningDecoderError,
>) {
    match half_byte_of(symbol) {
        None => (pending, Err(RunningDecoderError::UnknownSymbol(symbol))),
        Some(h) => match pending {
            None => (Some(h), Err(RunningDecoderError::ByteNotReady)),
            Some(lo) => (None, Ok((lo + 16 * h) as u8)),
        },
    }
}

/// The first symbol of a pair that is not in the table (`ls_symbol` is looked at first).
pub open spec fn unknown_of_pair(ls_symbol: u8, ms_symbol: u8) -> u8 {
    if half_byte_of(ls_symbol) is None {
        ls_symbol
    } else {
        ms_symbol
    }
}

/// The two symbols that carry `byte`: low half first, then high half.
pub open spec fn symbols_of_byte(byte: u8) -> Seq<u8> {
    seq![symbol_for(byte as int % 16), symbol_for(byte as int / 16)]
}

/// What `encode_in_place(data, data_length)` leaves in position `p`:
/// the first `data_length` bytes are encoded into the first `2 * data_length`
/// positions, and each later pair `(2k, 2k + 1)` is filled with the encoding
/// of the byte that stood at `2k`.
pub open spec fn encoded_at(data: Seq<u8>, data_length: int, p: int) -> u8 {
    let k = p / 2;
    let source = if k < data_length {
        data[k]
    } else {
        data[2 * k]
    };
    if p % 2 == 0 {
        symbol_for(source as int % 16)
    } else {
        symbol_for(source as int / 16)
    }
}

/// The whole buffer after a successful `encode_in_place(data, data_length)`.
pub open spec fn encoded(data: Seq<u8>, data_length: int) -> Seq<u8> {
    Seq::new(data.len(), |p: int| encoded_at(data, data_length, p))
}

/// All pairs `(2i, 2i + 1)` with `i < n` hold known symbols.
pub open spec fn pairs_known(data: Seq<u8>, n: int) -> bool {
    forall|i: int| 0 <= i < n ==> (#[trigger] byte_of_symbols(data[2 * i], data[2 * i + 1])) is Some
}

/// The byte decoded from pair `i` of `data`.
pub open spec fn decoded_pair(data: Seq<u8>, i: int) -> u8 {
    byte_of_symbols(data[2 * i], data[2 * i + 1])->0
}

/// `data` after its first `n` pairs have been decoded in place: position `i < n`
/// holds the byte of pair `i`, the rest is as it was.
pub open spec fn decoded_prefix(data: Seq<u8>, n: int) -> Seq<u8> {
    Seq::new(data.len(), |i: int| if i < n { decoded_pair(data, i) } else { data[i] })
}

// ===== Laws of the code =====

/// Number of 1 bits among the low six bits of `s`.
pub open spec fn ones6(s: int) -> int {
    s % 2 + (s / 2) % 2 + (s / 4) % 2 + (s / 8) % 2 + (s / 16) % 2 + (s / 32) % 2
}

/// Bit `i` (`0 <= i < 6`) of `s`.
pub open spec fn bit6(s: int, i: int) -> int {
    if i == 0 {
        s % 2
    } else if i == 1 {
        (s / 2) % 2
    } else if i == 2 {
        (s / 4) % 2
    } else if i == 3 {
        (s / 8) % 2
    } else if i == 4 {
        (s / 16) % 2
    } else {
        (s / 32) % 2
    }
}

/// No four consecutive bits among the low six bits of `s` are equal.
pub open spec fn no_run_of_four(s: int) -> bool {
    forall|i: int|
        0 <= i < 3 ==> !(#[trigger] bit6(s, i) == bit6(s, i + 1) && bit6(s, i + 1) == bit6(s, i + 2)
            && bit6(s, i + 2) == bit6(s, i + 3))
}

/// Every symbol is a 6-bit value with three 1s and three 0s, and no four
/// consecutive bits of it are equal.
pub proof fn lemma_symbols_balanced(nibble: int)
    requires
        0 <= nibble < 16,
    ensures
        symbol_for(nibble) < 64,
        ones6(symbol_for(nibble) as int) == 3,
        no_run_of_four(symbol_for(nibble) as int),
{
}

/// The table is a bijection between the values `0..16` and the known symbols:
/// decoding the symbol of `nibble` gives back `nibble`, and every symbol that
/// decodes to some value is that value's symbol.
pub proof fn lemma_symbol_table_inverse(nibble: int, symbol: u8)
    ensures
        0 <= nibble < 16 ==> half_byte_of(symbol_for(nibble)) == Some(nibble as u8),
        half_byte_of(symbol) matches Some(n) ==> n < 16 && symbol_for(n as int) == symbol,
{
}

/// Each byte survives being split into two symbols and joined again.
pub proof fn lemma_byte_roundtrip(byte: u8)
    ensures
        byte_of_symbols(symbols_of_byte(byte)[0], symbols_of_byte(byte)[1]) == Some(byte),
{
    lemma_symbol_table_inverse(byte as int % 16, 0);
    lemma_symbol_table_inverse(byte as int / 16, 0);
}

/// Encoding the first `data_length` bytes of a buffer and decoding the whole
/// buffer again gives back those bytes in its first `data_length` positions,
/// and every pair of the encoded buffer decodes.
pub proof fn lemma_encode_then_decode(data: Seq<u8>, data_length: int)
    requires
        0 <= data_length,
        2 * data_length <= data.len(),
        data.len() % 2 == 0,
    ensures
        pairs_known(encoded(data, data_length), data.len() as int / 2),
        forall|i: int|
            0 <= i < data_length ==> decoded_pair(encoded(data, data_length), i) == data[i],
{
    let e = encoded(data, data_length);
    assert forall|i: int| 0 <= i < data.len() / 2 implies #[trigger] byte_of_symbols(e[2 * i], e[2 * i + 1])
        == Some(if i < data_length { data[i] } else { data[2 * i] }) by {
        let src = if i < data_length { data[i] } else { data[2 * i] };
        assert((2 * i) / 2 == i);
        assert((2 * i + 1) / 2 == i);
        assert(e[2 * i] == symbol_for(src as int % 16));
        assert(e[2 * i + 1] == symbol_for(src as int / 16));
        lemma_byte_roundtrip(src);
    }
}

/// A running decoder that starts a byte and is given the two symbols of
/// `byte` gives back `byte`, and is then ready for the next byte.
pub proof fn lemma_running_decoder_roundtrip(byte: u8)
    ensures
        ({
            let (pending, first) = decoder_step(None, symbols_of_byte(byte)[0]);
            let (after, second) = decoder_step(pending, symbols_of_byte(byte)[1]);
            &&& first == Err::<u8, RunningDecoderError>(RunningDecoderError::ByteNotReady)
            &&& second == Ok::<u8, RunningDecoderError>(byte)
            &&& after is None
        }),
{
    lemma_symbol_table_inverse(byte as int % 16, 0);
    lemma_symbol_table_inverse(byte as int / 16, 0);
}

/// A symbol that is not in the table is answered `UnknownSymbol` with that
/// symbol and leaves the pending low half (or its absence) as it was; so a
/// decoder that rejected a symbol still turns the two symbols of any byte
/// into that byte.
pub proof fn lemma_unknown_symbol_keeps_pending(pending: Option<u8>, symbol: u8, byte: u8)
    requires
        !SYMBOLS@.contains(symbol),
    ensures
        decoder_step(pending, symbol) == (pending, Err::<u8, RunningDecoderError>(
            RunningDecoderError::UnknownSymbol(symbol),
        )),
        ({
            let after = decoder_step(None, symbol).0;
            let (p1, first) = decoder_step(after, symbol_for(byte as int % 16));
            let (p2, second) = decoder_step(p1, symbol_for(byte as int / 16));
            &&& first == Err::<u8, RunningDecoderError>(RunningDecoderError::ByteNotReady)
            &&& second == Ok::<u8, RunningDecoderError>(byte)
            &&& p2 is None
        }),
{
    lemma_symbol_table_inverse(0, symbol);
    if let Some(n) = half_byte_of(symbol) {
        assert(SYMBOLS@[n as int] == symbol);
    }
    lemma_symbol_table_inverse(byte as int % 16, 0);
    lemma_symbol_table_inverse(byte as int / 16, 0);
}

/// A running decoder, started afresh, after the symbols `symbols` in turn:
/// the low half it holds and the outcome of each symbol.
pub open spec fn decoder_run(symbols: Seq<u8>) -> (Option<u8>, Seq<Result<u8, RunningDecoderError>>)
    decreases symbols.len(),
{
    if symbols.len() == 0 {
        (None, Seq::empty())
    } else {
        let (pending, outcomes) = decoder_run(symbols.drop_last());
        let (after, outcome) = decoder_step(pending, symbols.last());
        (after, outcomes.push(outcome))
    }
}

/// Fed the first `2 * k` symbols of a buffer whose pairs are known, the
/// running decoder answers each even symbol `ByteNotReady` and each odd one
/// with the byte of its pair, and holds nothing afterwards.
proof fn lemma_decoder_run_pairs(symbols: Seq<u8>, k: int)
    requires
        0 <= k,
        2 * k <= symbols.len(),
        pairs_known(symbols, k),
    ensures
        ({
            let (pending, outcomes) = decoder_run(symbols.take(2 * k));
            &&& pending is None
            &&& outcomes.len() == 2 * k
            &&& forall|i: int|
                0 <= i < k ==> outcomes[2 * i] == Err::<u8, RunningDecoderError>(
                    RunningDecoderError::ByteNotReady,
                ) && #[trigger] outcomes[2 * i + 1] == Ok::<u8, RunningDecoderError>(
                    decoded_pair(symbols, i),
                )
        }),
    decreases k,
{
    if k == 0 {
        assert(symbols.take(0) =~= Seq::<u8>::empty());
    } else {
        let p = k - 1;
        assert(pairs_known(symbols, p));
        lemma_decoder_run_pairs(symbols, p);
        let lo = symbols[2 * p];
        let hi = symbols[2 * p + 1];
        assert(byte_of_symbols(lo, hi) is Some);
        assert(symbols.take(2 * k).drop_last() =~= symbols.take(2 * p + 1));
        assert(symbols.take(2 * p + 1).drop_last() =~= symbols.take(2 * p));
        let (p0, o0) = decoder_run(symbols.take(2 * p));
        let (p1, o1) = decoder_run(symbols.take(2 * p + 1));
        let (p2, o2) = decoder_run(symbols.take(2 * k));
        assert(o1 == o0.push(Err::<u8, RunningDecoderError>(RunningDecoderError::ByteNotReady)));
        assert(o2 == o1.push(Ok::<u8, RunningDecoderError>(decoded_pair(symbols, p))));
        assert forall|i: int| 0 <= i < k implies o2[2 * i] == Err::<u8, RunningDecoderError>(
            RunningDecoderError::ByteNotReady,
        ) && #[trigger] o2[2 * i + 1] == Ok::<u8, RunningDecoderError>(decoded_pair(symbols, i)) by {
            if i < p {
                assert(o2[2 * i] == o0[2 * i]);
                assert(o2[2 * i + 1] == o0[2 * i + 1]);
            }
        }
    }
}

/// Feeding a buffer of symbols to a fresh running decoder gives, one byte
/// every second symbol, the bytes that `decode_in_place` leaves at the start
/// of the buffer, and the decoder holds nothing afterwards.
pub proof fn lemma_running_decoder_matches_decode(symbols: Seq<u8>)
    requires
        symbols.len() % 2 == 0,
        pairs_known(symbols, symbols.len() as int / 2),
    ensures
        ({
            let n = symbols.len() as int / 2;
            let (pending, outcomes) = decoder_run(symbols);
            &&& pending is None
            &&& outcomes.len() == symbols.len()
            &&& forall|i: int|
                0 <= i < n ==> outcomes[2 * i] == Err::<u8, RunningDecoderError>(
                    RunningDecoderError::ByteNotReady,
                ) && #[trigger] outcomes[2 * i + 1] == Ok::<u8, RunningDecoderError>(
                    decoded_prefix(symbols, n)[i],
                )
        }),
{
    let n = symbols.len() as int / 2;
    lemma_decoder_run_pairs(symbols, n);
    assert(symbols.take(2 * n) =~= symbols);
}

// ===== Executable code =====

/// Finds the 4-bit value that `symbol` encodes.
pub fn symbol_to_half_byte(symbol: u8) -> (res: Result<u8, RH4b6bDecodeError>)
    ensures
        match res {
            Ok(n) => half_byte_of(symbol) == Some(n),
            Err(e) => half_byte_of(symbol) is None && e == RH4b6bDecodeError::UnknownSymbol(symbol),
        },
        no_unwind
{
    let mut i: usize = 0;
    while i < 16
        invariant
            i <= 16,
            forall|j: int| 0 <= j < i ==> symbol_for(j) != symbol,
        decreases 16 - i,
    {
        if SYMBOLS[i] == symbol {
            proof {
                lemma_symbol_table_inverse(i as int, symbol);
            }
            return Ok(i as u8);
        }
        i += 1;
    }
    proof {
        lemma_symbol_table_inverse(0, symbol);
        if let Some(n) = half_byte_of(symbol) {
            assert(symbol_for(n as int) == symbol);
        }
    }
    Err(RH4b6bDecodeError::UnknownSymbol(symbol))
}

/// Encodes the first `data_length` bytes of `data` in place, each byte into two
/// symbols (low half first). Fails when `data` cannot hold `2 * data_length` bytes.
pub fn encode_in_place(data: &mut [u8], data_length: usize) -> (res: Result<
    (),
    RH4b6bEncodeError,
>)
    requires
        data_length * 2 <= usize::MAX,
        old(data)@.len() < data_length * 2 || old(data)@.len() % 2 == 0,
    ensures
        res is Err <==> old(data)@.len() < data_length * 2,
        res is Err ==> final(data)@ == old(data)@,
        res is Ok ==> final(data)@ == encoded(old(data)@, data_length as int),
{
    if data.len() < data_length * 2 {
        return Err(RH4b6bEncodeError::DataBufferTooShort);
    }
    let ghost orig = data@;
    // Move every byte n to position 2n, starting from the end
    let mut i: usize = data_length;
    while i > 0
        invariant
            i <= data_length,
            data_length * 2 <= data@.len(),
            data@.len() == orig.len(),
            forall|p: int|
                0 <= p < data@.len() ==> #[trigger] data@[p] == if p < i {
                    orig[p]
                } else if p % 2 == 0 && p / 2 < data_length && p / 2 >= i {
                    orig[p / 2]
                } else {
                    orig[p]
                },
        decreases i,
    {
        i -= 1;
        let b = data[i];
        data[i * 2] = b;
    }
    // Encode every pair of bytes
    let n_pairs = data.len() / 2;
    let mut k: usize = 0;
    while k < n_pairs
        invariant
            k <= n_pairs,
            n_pairs * 2 == data@.len(),
            data@.len() <= usize::MAX,
            data@.len() == orig.len(),
            data_length * 2 <= data@.len(),
            forall|p: int|
                0 <= p < data@.len() ==> #[trigger] data@[p] == if p < 2 * k {
                    encoded_at(orig, data_length as int, p)
                } else if p % 2 == 0 && p / 2 < data_length {
                    orig[p / 2]
                } else {
                    orig[p]
                },
        decreases n_pairs - k,
    {
        let x = data[2 * k];
        assert(x >> 4u8 == x / 16 && x & 0xf == x % 16) by (bit_vector);
        data[2 * k + 1] = SYMBOLS[(x >> 4) as usize];
        data[2 * k] = SYMBOLS[(x & 0xf) as usize];
        assert((2 * k as int) / 2 == k && (2 * k as int + 1) / 2 == k);
        k += 1;
    }
    assert(data@ =~= encoded(orig, data_length as int));
    Ok(())
}

/// Decodes `data` in place: pair `i` of symbols becomes byte `i`. Returns the
/// number of decoded bytes. Fails when the length is odd (nothing changed) or
/// on the first pair holding an unknown symbol (the pairs before it are decoded).
pub fn decode_in_place(data: &mut [u8]) -> (res: Result<usize, RH4b6bDecodeError>)
    ensures
        res == Err::<usize, _>(RH4b6bDecodeError::DataSizeNotEven) <==> old(data)@.len() % 2 == 1,
        res == Err::<usize, _>(RH4b6bDecodeError::DataSizeNotEven) ==> final(data)@ == old(data)@,
        res is Ok <==> (old(data)@.len() % 2 == 0 && pairs_known(old(data)@, old(data)@.len() as int / 2)),
        res matches Ok(n) ==> n == old(data)@.len() / 2 && final(data)@ == decoded_prefix(
            old(data)@,
            n as int,
        ),
        res matches Err(RH4b6bDecodeError::UnknownSymbol(s)) ==> exists|k: int|
            0 <= k < old(data)@.len() / 2 && pairs_known(old(data)@, k) && byte_of_symbols(
                old(data)@[2 * k],
                old(data)@[2 * k + 1],
            ) is None && s == unknown_of_pair(old(data)@[2 * k], old(data)@[2 * k + 1])
                && final(data)@ == decoded_prefix(old(data)@, k),
{
    let len = data.len();
    assert(len & 1 == 1 <==> len % 2 == 1) by (bit_vector);
    if len & 1 == 1 {
        return Err(RH4b6bDecodeError::DataSizeNotEven);
    }
    let ghost orig = data@;
    let n = data.len() / 2;
    let mut i: usize = 0;
    while i < n
        invariant
            i <= n,
            n * 2 == orig.len(),
            orig.len() % 2 == 0,
            orig.len() <= usize::MAX,
            orig == old(data)@,
            data@.len() == orig.len(),
            pairs_known(orig, i as int),
            data@ == decoded_prefix(orig, i as int),
        decreases n - i,
    {
        let ls_symbol = data[i * 2];
        let ms_symbol = data[i * 2 + 1];
        match symbols_to_byte(ls_symbol, ms_symbol) {
            Ok(b) => {
                data[i] = b;
                proof {
                    assert forall|j: int| 0 <= j < i + 1 implies (#[trigger] byte_of_symbols(
                        orig[2 * j],
                        orig[2 * j + 1],
                    )) is Some by {
                        if j < i {
                            assert(pairs_known(orig, i as int));
                        }
                    }
                    assert(data@ =~= decoded_prefix(orig, i + 1));
                }
                i += 1;
            },
            Err(e) => {
                proof {
                    assert(data@[2 * i as int] == orig[2 * i as int]);
                    assert(data@[2 * i as int + 1] == orig[2 * i as int + 1]);
                    assert(byte_of_symbols(orig[2 * i as int], orig[2 * i as int + 1]) is None);
                    assert(!pairs_known(orig, n as int));
                }
                return Err(e);
            },
        }
    }
    Ok(n)
}

/// Joins two symbols into the byte they encode: `ls_symbol` gives the low
/// half, `ms_symbol` the high half.
pub fn symbols_to_byte(ls_symbol: u8, ms_symbol: u8) -> (res: Result<u8, RH4b6bDecodeError>)
    ensures
        match res {
            Ok(b) => byte_of_symbols(ls_symbol, ms_symbol) == Some(b),
            Err(e) => byte_of_symbols(ls_symbol, ms_symbol) is None && e
                == RH4b6bDecodeError::UnknownSymbol(unknown_of_pair(ls_symbol, ms_symbol)),
        },
{
    let mut byte = symbol_to_half_byte(ls_symbol)?;
    let hi = symbol_to_half_byte(ms_symbol)?;
    proof {
        lemma_symbol_table_inverse(0, ls_symbol);
        lemma_symbol_table_inverse(0, ms_symbol);
    }
    assert(byte < 16 && hi < 16 ==> (byte | (hi << 4u8)) == byte + 16 * hi) by (bit_vector);
    byte |= (hi << 4) as u8;
    Ok(byte)
}

/// Decodes a stream of symbols one at a time: every second symbol completes a byte.
pub struct RunningDecoder {
    byte: u8,
    ms_nibble_next: bool,
}

impl RunningDecoder {
    #[verifier::type_invariant]
    spec fn inv(self) -> bool {
        self.ms_nibble_next ==> self.byte < 16
    }

    /// The low half of the byte in progress, once its symbol has arrived;
    /// `None` while the next symbol starts a new byte.
    pub closed spec fn pending(self) -> Option<u8> {
        if self.ms_nibble_next {
            Some(self.byte)
        } else {
            None
        }
    }

    pub fn new() -> (res: Self)
        ensures
            res.pending() is None,
    {
        Self { byte: 0, ms_nibble_next: false }
    }

    /// Forgets the byte in progress: the next symbol starts a new byte.
    pub fn reset(&mut self)
        ensures
            final(self).pending() is None,
        no_unwind
    {
        self.ms_nibble_next = false;
        self.byte = 0;
    }

    /// Takes the next symbol. The first symbol of a pair is the low half of a
    /// byte and gives `Err(ByteNotReady)`; the second gives the whole byte.
    /// An unknown symbol gives `Err(UnknownSymbol)` and leaves the decoder as it was.
    pub fn next_nibble(&mut self, nibble: u8) -> (res: Result<u8, RunningDecoderError>)
        ensures
            (final(self).pending(), res) == decoder_step(old(self).pending(), nibble),
            !SYMBOLS@.contains(nibble) ==> res == Err::<u8, RunningDecoderError>(
                RunningDecoderError::UnknownSymbol(nibble),
            ) && final(self).pending() == old(self).pending(),
        no_unwind
    {
        proof {
            use_type_invariant(&*self);
            lemma_symbol_table_inverse(0, nibble);
            if let Some(n) = half_byte_of(nibble) {
                assert(SYMBOLS@[n as int] == nibble);
            }
        }
        if self.ms_nibble_next {
            let h = match symbol_to_half_byte(nibble) {
                Ok(h) => h,
                Err(_) => {
                    return Err(RunningDecoderError::UnknownSymbol(nibble));
                },
            };
            let lo = self.byte;
            assert(lo < 16 && h < 16 ==> (lo | (h << 4u8)) == lo + 16 * h) by (bit_vector);
            let b = lo | (h << 4);
            self.ms_nibble_next = false;
            self.byte = b;
            Ok(b)
        } else {
            let h = match symbol_to_half_byte(nibble) {
                Ok(h) => h,
                Err(_) => {
                    return Err(RunningDecoderError::UnknownSymbol(nibble));
                },
            };
            self.byte = h;
            self.ms_nibble_next = true;
            Err(RunningDecoderError::ByteNotReady)
        }
    }
}

#[derive(Debug, Clone, Copy, PartialEq, Eq, Structural)]
pub enum RunningDecoderError {
    UnknownSymbol(u8),
    ByteNotReady,
}

#[derive(Debug, Clone, Copy, PartialEq, Eq, Structural)]
pub enum RH4b6bEncodeError {
    DataBufferTooShort,
}

#[derive(Debug, Clone, Copy, PartialEq, Eq, Structural)]
pub enum RH4b6bDecodeError {
    DataSizeNotEven,
    UnknownSymbol(u8),
}

} // verus!
