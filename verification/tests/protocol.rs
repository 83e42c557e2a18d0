use nyrun::protocol::{message_len, read_message, set_var, write_message, FrameError, MAX_MESSAGE};

#[test]
fn a_message_is_read_as_it_was_written() {
    for n in [0usize, 1, 5, 255, 256, 65536, 70000] {
        let data: Vec<u8> = (0..n).map(|i| (i % 251) as u8).collect();
        let mut stream = write_message(&data);
        assert_eq!(stream[..4], (n as u32).to_be_bytes());
        assert_eq!(read_message(&stream), Ok(data.clone()));
        stream.push(7);
        assert_eq!(read_message(&stream), Ok(data));
    }
}

#[test]
fn a_message_that_is_cut_off() {
    let stream = write_message(&vec![1, 2, 3]);
    for n in 0..stream.len() {
        assert_eq!(read_message(&stream[..n].to_vec()), Err(FrameError::UnexpectedEof));
    }
}

#[test]
fn a_message_over_the_limit() {
    let at = (MAX_MESSAGE as u32).to_be_bytes().to_vec();
    let over = (MAX_MESSAGE as u32 + 1).to_be_bytes().to_vec();
    assert_eq!(MAX_MESSAGE, 10 * 1024 * 1024);
    assert_eq!(message_len(&at), Ok(MAX_MESSAGE));
    assert_eq!(message_len(&over), Err(FrameError::TooLarge));
    assert_eq!(read_message(&at), Err(FrameError::UnexpectedEof));
    assert_eq!(read_message(&over), Err(FrameError::TooLarge));
    assert_eq!(read_message(&vec![255, 255, 255, 255]), Err(FrameError::TooLarge));
    let long = vec![0u8; MAX_MESSAGE + 1];
    assert_eq!(read_message(&write_message(&long)), Err(FrameError::TooLarge));
}

#[test]
fn a_variable_is_set_once() {
    let mut vars = Vec::new();
    for (k, v) in [("A", "1"), ("B", "2"), ("A", "3")] {
        set_var(&mut vars, k.to_string(), v.to_string());
    }
    vars.sort();
    assert_eq!(vars, vec![("A".to_string(), "3".to_string()), ("B".to_string(), "2".to_string())]);
}
