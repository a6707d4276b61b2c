use ook_radio::consts;

#[test]
fn consts_bounds() {
    assert!(
        consts::MAX_MESSAGE_LENGTH <= 255,
        "Message length must fit into 1 byte. MAX_MESSAGE_LENGTH is too big"
    );

    assert!(
        consts::MAX_MESSAGE_LENGTH != 0,
        "Message length is 0. MAX_MESSAGE_LENGTH is too small"
    );
}
