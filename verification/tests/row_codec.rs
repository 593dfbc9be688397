use simpledb::row::{
    DecodeError, Row, EMAIL_COLUMN_WIDTH, EMAIL_OFFSET, ID_COLUMN_WIDTH, ID_OFFSET, ROW_SIZE,
    USERNAME_COLUMN_WIDTH, USERNAME_OFFSET,
};

#[test]
fn row_layout_constants() {
    assert_eq!(ID_OFFSET, 0);
    assert_eq!(ID_COLUMN_WIDTH, 4);
    assert_eq!(USERNAME_OFFSET, 4);
    assert_eq!(USERNAME_COLUMN_WIDTH, 32);
    assert_eq!(EMAIL_OFFSET, 36);
    assert_eq!(EMAIL_COLUMN_WIDTH, 255);
    assert_eq!(ROW_SIZE, 291);
}

#[test]
fn new_row_pads_fields_with_zeros() {
    let row = Row::new(5, "abc", "de");
    assert_eq!(row.id, 5);
    assert_eq!(row.username.len(), 32);
    assert_eq!(&row.username[..3], "abc".as_bytes());
    assert!(row.username[3..].iter().all(|b| *b == 0));
    assert_eq!(row.email.len(), 255);
    assert_eq!(&row.email[..2], "de".as_bytes());
    assert!(row.email[2..].iter().all(|b| *b == 0));
}

#[test]
fn new_row_cuts_text_that_is_too_long() {
    let username = "u".repeat(40);
    let email = "e".repeat(300);
    let row = Row::new(1, &username, &email);
    assert_eq!(row.username, "u".repeat(32).into_bytes());
    assert_eq!(row.email, "e".repeat(255).into_bytes());
    assert_eq!(row.get_username().unwrap(), "u".repeat(32));
    assert_eq!(row.get_email().unwrap(), "e".repeat(255));
}

#[test]
fn a_cut_inside_a_character_reads_back_as_an_error() {
    let username = format!("{}é", "u".repeat(31));
    assert_eq!(username.len(), 33);
    let row = Row::new(1, &username, "mail");
    assert_eq!(row.username.len(), 32);
    assert_eq!(row.get_username(), Err(DecodeError::Username));
    assert_eq!(row.get_email(), Ok("mail"));
    assert_eq!(row.to_text(), Err(DecodeError::Username));
}

#[test]
fn serialized_row_has_fixed_layout() {
    let row = Row::new(0x01020304, "alice", "alice@x.com");
    let mut buffer = vec![0xffu8; ROW_SIZE + 3];
    row.serialize(&mut buffer);
    assert_eq!(&buffer[0..4], &0x01020304u32.to_ne_bytes());
    assert_eq!(&buffer[4..9], "alice".as_bytes());
    assert!(buffer[9..36].iter().all(|b| *b == 0));
    assert_eq!(&buffer[36..47], "alice@x.com".as_bytes());
    assert!(buffer[47..291].iter().all(|b| *b == 0));
    assert_eq!(&buffer[291..], &[0xffu8, 0xff, 0xff]);
}

#[test]
fn the_id_is_stored_in_the_byte_order_of_the_machine() {
    let little = 1u16.to_ne_bytes()[0] == 1;
    let row = Row::new(0x0a0b0c0d, "", "");
    let mut buffer = vec![0u8; ROW_SIZE];
    row.serialize(&mut buffer);
    if little {
        assert_eq!(&buffer[0..4], &[0x0d, 0x0c, 0x0b, 0x0a]);
    } else {
        assert_eq!(&buffer[0..4], &[0x0a, 0x0b, 0x0c, 0x0d]);
    }
    let mut stored = vec![0u8; ROW_SIZE];
    stored[0..4].copy_from_slice(&[1, 2, 3, 4]);
    let id = Row::deserialize(&stored).id;
    if little {
        assert_eq!(id, 0x04030201);
    } else {
        assert_eq!(id, 0x01020304);
    }
}

#[test]
fn serialize_fills_a_buffer_of_exactly_one_row() {
    let row = Row::new(u32::MAX, "x", "y");
    let mut buffer = vec![7u8; ROW_SIZE];
    row.serialize(&mut buffer);
    assert_eq!(&buffer[0..4], &[0xffu8; 4]);
    assert_eq!(buffer[4], b'x');
    assert_eq!(buffer[36], b'y');
    assert_eq!(buffer.iter().filter(|b| **b == 7).count(), 0);
}

#[test]
fn deserialize_reads_the_id_in_native_order() {
    let mut buffer = vec![0u8; ROW_SIZE];
    buffer[0..4].copy_from_slice(&0xdeadbeefu32.to_ne_bytes());
    let row = Row::deserialize(&buffer);
    assert_eq!(row.id, 0xdeadbeef);
    assert_ne!(row.id, 0xdeadbeefu32.swap_bytes());
}

#[test]
fn deserialize_takes_the_fields_as_they_are() {
    let mut buffer = vec![0u8; ROW_SIZE + 10];
    for (i, byte) in buffer.iter_mut().enumerate() {
        *byte = (i % 251) as u8;
    }
    let row = Row::deserialize(&buffer);
    assert_eq!(row.id, u32::from_ne_bytes([0, 1, 2, 3]));
    assert_eq!(row.username, buffer[4..36].to_vec());
    assert_eq!(row.email, buffer[36..291].to_vec());
}

#[test]
fn round_trip_gives_back_id_and_texts() {
    let cases = [
        (0u32, "", ""),
        (1, "alice", "alice@x.com"),
        (u32::MAX, "a", "b"),
        (77, "name with spaces", "mail\twith\ttabs"),
        (123456789, "δοκιμή", "テスト@例え.jp"),
        (5, "inner\0zero", "x\0y"),
    ];
    for (id, username, email) in cases {
        let row = Row::new(id, username, email);
        let mut buffer = vec![0xaau8; ROW_SIZE];
        row.serialize(&mut buffer);
        let back = Row::deserialize(&buffer);
        assert_eq!(back.id, id);
        assert_eq!(back.get_username().unwrap(), username);
        assert_eq!(back.get_email().unwrap(), email);
        assert_eq!(back.username, row.username);
        assert_eq!(back.email, row.email);
    }
}

#[test]
fn zeros_at_the_end_of_a_text_are_taken_for_padding() {
    let row = Row::new(1, "a\0", "b\0\0");
    let mut buffer = vec![0u8; ROW_SIZE];
    row.serialize(&mut buffer);
    let back = Row::deserialize(&buffer);
    assert_eq!(back.get_username().unwrap(), "a");
    assert_eq!(back.get_email().unwrap(), "b");
}

#[test]
fn full_width_texts_do_not_run_into_the_next_field() {
    let username = "u".repeat(USERNAME_COLUMN_WIDTH);
    let email = "e".repeat(EMAIL_COLUMN_WIDTH);
    let row = Row::new(9, &username, &email);
    let mut buffer = vec![0u8; ROW_SIZE + 1];
    buffer[ROW_SIZE] = 0x55;
    row.serialize(&mut buffer);
    assert_eq!(&buffer[0..4], &9u32.to_ne_bytes());
    assert!(buffer[4..36].iter().all(|b| *b == b'u'));
    assert!(buffer[36..291].iter().all(|b| *b == b'e'));
    assert_eq!(buffer[ROW_SIZE], 0x55);
    let back = Row::deserialize(&buffer);
    assert_eq!(back.id, 9);
    assert_eq!(back.get_username().unwrap(), username);
    assert_eq!(back.get_email().unwrap(), email);
}

#[test]
fn a_slot_of_zeros_reads_as_empty_texts() {
    let buffer = vec![0u8; ROW_SIZE];
    let row = Row::deserialize(&buffer);
    assert_eq!(row.id, 0);
    assert_eq!(row.get_username(), Ok(""));
    assert_eq!(row.get_email(), Ok(""));
    assert_eq!(row.to_text(), Ok("0  ".to_string()));
}

#[test]
fn bytes_that_are_no_text_give_a_decode_error() {
    let mut buffer = vec![0u8; ROW_SIZE];
    buffer[4] = 0xc3;
    let row = Row::deserialize(&buffer);
    assert_eq!(row.get_username(), Err(DecodeError::Username));
    assert_eq!(row.get_email(), Ok(""));
    assert_eq!(row.to_text(), Err(DecodeError::Username));

    let mut buffer = vec![0u8; ROW_SIZE];
    buffer[36] = b'a';
    buffer[37] = 0xff;
    let row = Row::deserialize(&buffer);
    assert_eq!(row.get_username(), Ok(""));
    assert_eq!(row.get_email(), Err(DecodeError::Email));
    assert_eq!(row.to_text(), Err(DecodeError::Email));
}

#[test]
fn the_username_is_reported_before_the_email() {
    let mut buffer = vec![0u8; ROW_SIZE];
    buffer[4] = 0x80;
    buffer[36] = 0x80;
    assert_eq!(Row::deserialize(&buffer).to_text(), Err(DecodeError::Username));
}

#[test]
fn to_text_writes_id_username_email() {
    let alice = Row::new(1, "alice", "alice@x.com");
    assert_eq!(alice.to_text(), Ok("1 alice alice@x.com".to_string()));
    assert_eq!(Row::new(0, "a", "b").to_text(), Ok("0 a b".to_string()));
    assert_eq!(Row::new(10, "a", "b").to_text(), Ok("10 a b".to_string()));
    let largest = Row::new(4294967295, "zoë", "ü@x");
    assert_eq!(largest.to_text(), Ok("4294967295 zoë ü@x".to_string()));
    assert_eq!(Row::new(1000000, "", "").to_text(), Ok("1000000  ".to_string()));
}
