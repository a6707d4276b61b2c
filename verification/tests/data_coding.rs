use heapless::Vec;
use ook_radio::data_coding::radio_head_4b6b::{
    decode_in_place, encode_in_place, symbol_to_half_byte, symbols_to_byte, RH4b6bDecodeError,
    RH4b6bEncodeError, RunningDecoder, RunningDecoderError, SYMBOLS,
};

const RAW_DATA: &[u8] = b"Mornin'";
const CORRECT_ENCODED_DATA: &[u8] = &[
    0x2c, 0x16, 0x34, 0x1a, 0x13, 0x1c, 0x32, 0x1a, 0x25, 0x1a, 0x32, 0x1a, 0x1c, 0x13,
];

#[test]
fn encode_test() {
    let mut data: [u8; 14] = [0; 14];
    for (i, byte) in RAW_DATA.iter().enumerate() {
        data[i] = *byte;
    }

    encode_in_place(&mut data, RAW_DATA.len()).unwrap();

    assert!(data == CORRECT_ENCODED_DATA);
}

#[test]
fn encode_not_enought_space() {
    let mut data = [0; 6];
    let length = data.len();

    assert!(matches!(encode_in_place(&mut data, length), Err(_)));

    assert!(matches!(encode_in_place(&mut data, length * 2 - 1), Err(_)));
}

#[test]
fn decode_test() {
    let mut data = [0; CORRECT_ENCODED_DATA.len()];
    CORRECT_ENCODED_DATA
        .iter()
        .enumerate()
        .for_each(|(i, byte)| data[i] = *byte);

    let _ = decode_in_place(&mut data).inspect_err(|err| match err {
        RH4b6bDecodeError::UnknownSymbol(symbol) => panic!("Unknown symbol: {}", symbol),
        RH4b6bDecodeError::DataSizeNotEven => panic!("Data size not event"),
    });

    assert!(
        &data[..RAW_DATA.len()] == RAW_DATA,
        "Expected: {:?}\nReceived: {:?}",
        RAW_DATA,
        &data[..RAW_DATA.len()]
    );
}

#[test]
fn running_decoder() {
    let mut decoder = RunningDecoder::new();

    let mut decoded_data = Vec::<_, 7>::new();

    for nibble in CORRECT_ENCODED_DATA {
        match decoder.next_nibble(*nibble) {
            Ok(byte) => decoded_data.push(byte).unwrap(),
            Err(err) => match err {
                RunningDecoderError::ByteNotReady => {}
                RunningDecoderError::UnknownSymbol(s) => {
                    panic!("Unknown symbol {}", s);
                }
            },
        }
    }

    assert!(
        decoded_data == RAW_DATA,
        "Data expected: {:?}\nData received: {:?}",
        RAW_DATA,
        decoded_data
    )
}

// ── further cases ───────────────────────────────────────────────────────────

#[test]
fn symbols_are_balanced_and_short_runs() {
    for symbol in SYMBOLS {
        assert!(symbol < 64);
        assert_eq!(symbol.count_ones(), 3);
        for i in 0..3 {
            let window = (symbol >> i) & 0xf;
            assert!(window != 0 && window != 0xf, "run of four in {symbol:#x}");
        }
    }
}

#[test]
fn symbol_table_lookup() {
    for (i, symbol) in SYMBOLS.iter().enumerate() {
        assert_eq!(symbol_to_half_byte(*symbol).unwrap(), i as u8);
    }
    assert_eq!(symbol_to_half_byte(0x0d), Ok(0));
    assert_eq!(symbol_to_half_byte(0x34), Ok(15));
    assert_eq!(
        symbol_to_half_byte(0x00),
        Err(RH4b6bDecodeError::UnknownSymbol(0x00))
    );
    assert_eq!(
        symbol_to_half_byte(0x3f),
        Err(RH4b6bDecodeError::UnknownSymbol(0x3f))
    );
}

#[test]
fn symbols_to_byte_cases() {
    // 'M' = 0x4d: low half 0xd -> 0x2c, high half 0x4 -> 0x16
    assert_eq!(symbols_to_byte(0x2c, 0x16), Ok(0x4d));
    assert_eq!(symbols_to_byte(0x0d, 0x34), Ok(0xf0));
    assert_eq!(
        symbols_to_byte(0x01, 0x02),
        Err(RH4b6bDecodeError::UnknownSymbol(0x01))
    );
    assert_eq!(
        symbols_to_byte(0x0d, 0x02),
        Err(RH4b6bDecodeError::UnknownSymbol(0x02))
    );
}

#[test]
fn encode_then_decode_every_byte() {
    let mut data = [0u8; 512];
    for i in 0..256 {
        data[i] = i as u8;
    }
    encode_in_place(&mut data, 256).unwrap();
    assert_eq!(decode_in_place(&mut data), Ok(256));
    for i in 0..256 {
        assert_eq!(data[i], i as u8);
    }
}

#[test]
fn encode_fills_trailing_pairs() {
    // The pairs after the encoded bytes carry the encoding of the byte at 2k
    let mut data = [0x12u8, 0xff, 0x00, 0x00, 0x35, 0x00];
    encode_in_place(&mut data, 1).unwrap();
    assert_eq!(data, [SYMBOLS[2], SYMBOLS[1], SYMBOLS[0], SYMBOLS[0], SYMBOLS[5], SYMBOLS[3]]);
}

#[test]
fn encode_error_kind() {
    let mut data = [7u8; 3];
    assert_eq!(
        encode_in_place(&mut data, 2),
        Err(RH4b6bEncodeError::DataBufferTooShort)
    );
    assert_eq!(data, [7, 7, 7]);
}

#[test]
fn decode_odd_length() {
    let mut data = [0x0d, 0x0d, 0x0d];
    assert_eq!(
        decode_in_place(&mut data),
        Err(RH4b6bDecodeError::DataSizeNotEven)
    );
    assert_eq!(data, [0x0d, 0x0d, 0x0d]);
}

#[test]
fn decode_stops_at_unknown_symbol() {
    let mut data = [0x2c, 0x16, 0x0d, 0x3f, 0x0d, 0x0d];
    assert_eq!(
        decode_in_place(&mut data),
        Err(RH4b6bDecodeError::UnknownSymbol(0x3f))
    );
    // The first pair was decoded, the rest is untouched
    assert_eq!(data, [0x4d, 0x16, 0x0d, 0x3f, 0x0d, 0x0d]);
}

#[test]
fn running_decoder_unknown_symbol_keeps_state() {
    let mut decoder = RunningDecoder::new();
    assert_eq!(decoder.next_nibble(0x2c), Err(RunningDecoderError::ByteNotReady));
    assert_eq!(
        decoder.next_nibble(0x00),
        Err(RunningDecoderError::UnknownSymbol(0x00))
    );
    assert_eq!(decoder.next_nibble(0x16), Ok(0x4d));
    decoder.reset();
    assert_eq!(decoder.next_nibble(0x16), Err(RunningDecoderError::ByteNotReady));
}

#[test]
fn running_decoder_matches_decode_in_place() {
    let symbols = CORRECT_ENCODED_DATA;
    let mut decoded = symbols.to_vec();
    assert_eq!(decode_in_place(&mut decoded), Ok(symbols.len() / 2));

    let mut decoder = RunningDecoder::new();
    for (i, symbol) in symbols.iter().enumerate() {
        let outcome = decoder.next_nibble(*symbol);
        if i % 2 == 0 {
            assert_eq!(outcome, Err(RunningDecoderError::ByteNotReady));
        } else {
            assert_eq!(outcome, Ok(decoded[i / 2]));
        }
    }
    assert_eq!(&decoded[..RAW_DATA.len()], RAW_DATA);
}
