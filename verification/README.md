# ook_radio

An on-off keying radio driver for a single digital line, written in Verus:
every function of the library carries a contract, and Verus proves that the
code meets it and never panics.

## Layout

- `src/data_coding/radio_head_4b6b.rs`: the 4b6b line code (each half byte
  travels as a balanced 6-bit symbol), in place and as a running decoder,
  with the laws of the code (the table is a bijection, encoding then decoding
  gives the data back).
- `src/driver/pll.rs`: the software PLL that turns samples of the line into bits.
- `src/driver/transmitter.rs`, `src/driver/receiver.rs`: the transmitting and
  receiving state machines, one step per sample period. They take and return
  line levels; the pins stay with the caller.
- `src/driver/link.rs`: a message sent by a transmitter reaches a receiver
  that samples the line in phase.
- `src/ook_driver.rs`: a half-duplex driver that both sends and receives, with
  `heapless` buffers behind a few trusted wrappers.
- `src/ook_link.rs`: a message sent by one such driver reaches another one
  ticked together with it; the sync sequence synchronizes a receiver
  whatever it saw before.
- `src/mock_pin.rs`: a line held in memory, for tests.
- `app/`: the same state machines attached to `embedded-hal` pins, and copies
  of the state types that print with `ufmt`.
- `tests/`: the test suite.
