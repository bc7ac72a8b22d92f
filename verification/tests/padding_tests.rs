use sha512_circuit::padding::{array_to_bits, pad_message};

fn message_of_len(len: usize) -> Vec<bool> {
    let mut msg = Vec::new();
    for i in 0..len {
        msg.push(i % 3 == 0);
    }
    msg
}

fn check_layout(len: usize) {
    let msg = message_of_len(len);
    let padded = pad_message(&msg).expect("padding must succeed for this length");
    // Positive multiple of 1024.
    assert!(padded.len() > 0);
    assert_eq!(padded.len() % 1024, 0);
    let block_count = (len + 129 + 1023) / 1024;
    assert_eq!(padded.len(), 1024 * block_count);
    let p = padded.len() - 128 - len;
    assert!(p > 1);
    // Message bits, then a fixed 1, then p - 1 zeros, then the length.
    for i in 0..len {
        assert_eq!(padded[i], msg[i]);
    }
    assert!(padded[len]);
    for i in (len + 1)..(len + p) {
        assert!(!padded[i]);
    }
    for i in 0..128 {
        let expected = (len as u128 >> (127 - i)) & 1 == 1;
        assert_eq!(padded[len + p + i], expected);
    }
}

#[test]
fn test_padding_layout_small_lengths() {
    check_layout(0);
    check_layout(1);
    check_layout(24);
    check_layout(128);
    check_layout(894);
}

#[test]
fn test_padding_layout_block_boundaries() {
    check_layout(896);
    check_layout(1023);
    check_layout(1024);
    check_layout(2048);
    check_layout(895 + 1023);
}

#[test]
fn test_padding_rejected_when_p_is_one() {
    // L = 895 gives padded_len = 1024 and p = 1024 - 128 - 895 = 1.
    let msg = message_of_len(895);
    assert!(pad_message(&msg).is_err());
    // The same residue one block later fails too.
    let msg2 = message_of_len(895 + 1024);
    assert!(pad_message(&msg2).is_err());
}

#[test]
fn test_array_to_bits_order() {
    let bytes: Vec<u8> = vec![0b1000_0000, 0x0F];
    let bits = array_to_bits(&bytes);
    assert_eq!(bits.len(), 16);
    let expected = vec![
        true, false, false, false, false, false, false, false, false, false, false, false, true,
        true, true, true,
    ];
    assert_eq!(bits, expected);
}

#[test]
fn test_array_to_bits_single_bits() {
    let bytes: Vec<u8> = vec![0x01, 0x02];
    let bits = array_to_bits(&bytes);
    for (i, &b) in bits.iter().enumerate() {
        assert_eq!(b, i == 7 || i == 14);
    }
}
