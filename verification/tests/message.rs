use octopos::{get_msg, set_msg, MessageBuffer, MessageError, BUFSIZE};

#[test]
fn test_normal_message() {
    let mut slot = MessageBuffer::new();
    let messages = ["hello", "octopos", "test", "message"];
    let mut buf = [0u8; 64];

    for message in messages.iter().map(|s| s.as_bytes()) {
        let len = message.len();

        let set_len = set_msg(&mut slot, message, len).expect("set_msg failed");
        assert_eq!(set_len, len);

        let get_len = get_msg(&slot, &mut buf, len).expect("get_msg failed");
        assert_eq!(get_len, len);
        assert_eq!(&buf[..get_len], message);
    }
}

#[test]
fn test_partial_message() {
    let mut slot = MessageBuffer::new();
    let message = b"octopos";
    let mut buf = [0u8; 64];

    let set_len = set_msg(&mut slot, message, 4).expect("partial set_msg failed");
    assert_eq!(set_len, 4);

    let get_len = get_msg(&slot, &mut buf, 4).expect("partial get_msg failed");
    assert_eq!(get_len, 4);
    assert_eq!(&buf[..get_len], b"octo");
}

#[test]
fn test_overwrite_message() {
    let mut slot = MessageBuffer::new();
    let mut buf = [0u8; 64];

    let first = b"long message";
    let second = b"short";

    assert_eq!(
        set_msg(&mut slot, first, first.len()).expect("first set_msg failed"),
        first.len()
    );

    assert_eq!(
        set_msg(&mut slot, second, second.len()).expect("second set_msg failed"),
        second.len()
    );

    let get_len = get_msg(&slot, &mut buf, second.len()).expect("get_msg failed");

    assert_eq!(get_len, second.len());
    assert_eq!(&buf[..get_len], second);

    assert!(get_msg(&slot, &mut buf, first.len()).is_err());
}

#[test]
fn test_invalid_set_length() {
    let mut slot = MessageBuffer::new();
    let message = b"test";

    assert!(set_msg(&mut slot, message, 10).is_err());
}

#[test]
fn test_invalid_get_length() {
    let mut slot = MessageBuffer::new();
    let message = b"test";
    let mut buf = [0u8; 64];

    set_msg(&mut slot, message, message.len()).expect("set_msg failed");

    assert!(get_msg(&slot, &mut buf, 5).is_err());
}

#[test]
fn test_empty_message() {
    let mut slot = MessageBuffer::new();
    let mut buf = [0u8; 1];

    let set_len = set_msg(&mut slot, b"", 0).expect("empty set_msg failed");
    assert_eq!(set_len, 0);

    let get_len = get_msg(&slot, &mut buf, 0).expect("empty get_msg failed");
    assert_eq!(get_len, 0);
}

#[test]
fn fresh_slot_refuses_any_nonempty_read() {
    let slot = MessageBuffer::new();
    let mut buf = [7u8; 4];
    assert_eq!(get_msg(&slot, &mut buf, 1), Err(MessageError::OutOfRange));
    assert_eq!(buf, [7u8; 4]);
    assert_eq!(get_msg(&slot, &mut buf, 0), Ok(0));
}

#[test]
fn read_after_write_keeps_rest_of_destination() {
    let mut slot = MessageBuffer::new();
    assert_eq!(slot.set_msg(b"abcdef", 6), Ok(6));
    let mut buf = [b'x'; 8];
    assert_eq!(slot.get_msg(&mut buf, 3), Ok(3));
    assert_eq!(&buf, b"abcxxxxx");
}

#[test]
fn refused_store_keeps_previous_message() {
    let mut slot = MessageBuffer::new();
    assert_eq!(set_msg(&mut slot, b"keep", 4), Ok(4));
    assert_eq!(set_msg(&mut slot, b"toolong", 8), Err(MessageError::OutOfRange));
    let mut buf = [0u8; 4];
    assert_eq!(get_msg(&slot, &mut buf, 4), Ok(4));
    assert_eq!(&buf, b"keep");
}

#[test]
fn store_limited_by_capacity() {
    let mut slot = MessageBuffer::new();
    let big = vec![b'z'; BUFSIZE + 1];
    assert_eq!(set_msg(&mut slot, &big, BUFSIZE + 1), Err(MessageError::OutOfRange));
    assert_eq!(set_msg(&mut slot, &big, BUFSIZE), Ok(BUFSIZE));
    let mut out = vec![0u8; BUFSIZE];
    assert_eq!(get_msg(&slot, &mut out, BUFSIZE), Ok(BUFSIZE));
    assert!(out.iter().all(|&b| b == b'z'));
}

#[test]
fn read_into_short_destination_refused() {
    let mut slot = MessageBuffer::new();
    assert_eq!(set_msg(&mut slot, b"hello", 5), Ok(5));
    let mut buf = [0u8; 3];
    assert_eq!(get_msg(&slot, &mut buf, 4), Err(MessageError::OutOfRange));
    assert_eq!(buf, [0u8; 3]);
}

#[test]
fn message_error_text() {
    assert_eq!(MessageError::OutOfRange.as_str(), "out of range");
}

#[test]
fn reads_survive_refused_stores() {
    let mut slot = MessageBuffer::new();
    assert_eq!(set_msg(&mut slot, b"kernel", 6), Ok(6));
    for bad in [7usize, 100, BUFSIZE + 1] {
        assert_eq!(set_msg(&mut slot, b"kernel", bad), Err(MessageError::OutOfRange));
        for k in 0..=6 {
            let mut buf = [0u8; 6];
            assert_eq!(get_msg(&slot, &mut buf, k), Ok(k));
            assert_eq!(&buf[..k], &b"kernel"[..k]);
        }
    }
}
