use meshcore::{
    frame_packet, read_task, write_task, FrameBuffer, ReadStep, WriteEvent, WriteStep, FRAME_START,
    READ_SIZE,
};

fn feed(buffer: &mut FrameBuffer, chunk: &[u8]) -> Vec<Vec<u8>> {
    match read_task::<()>(buffer, Ok(chunk)) {
        ReadStep::Deliver(frames) => frames,
        ReadStep::Disconnect => panic!("the link should still be up"),
    }
}

#[test]
fn test_frame_packet() {
    let data = vec![0x01, 0x02, 0x03];
    let framed = frame_packet(&data);

    assert_eq!(framed[0], FRAME_START);
    assert_eq!(framed[1], 0x03); // Length low byte
    assert_eq!(framed[2], 0x00); // Length high byte
    assert_eq!(&framed[3..], &data);
}

#[test]
fn test_frame_packet_empty() {
    let data: Vec<u8> = vec![];
    let framed = frame_packet(&data);

    assert_eq!(framed.len(), 3);
    assert_eq!(framed[0], FRAME_START);
    assert_eq!(framed[1], 0x00); // Length low byte
    assert_eq!(framed[2], 0x00); // Length high byte
}

#[test]
fn test_frame_packet_single_byte() {
    let data = vec![0xFF];
    let framed = frame_packet(&data);

    assert_eq!(framed.len(), 4);
    assert_eq!(framed[0], FRAME_START);
    assert_eq!(framed[1], 0x01);
    assert_eq!(framed[2], 0x00);
    assert_eq!(framed[3], 0xFF);
}

#[test]
fn test_frame_packet_256_bytes() {
    let data = vec![0xAA; 256];
    let framed = frame_packet(&data);

    assert_eq!(framed.len(), 259);
    assert_eq!(framed[0], FRAME_START);
    assert_eq!(framed[1], 0x00); // 256 & 0xFF = 0
    assert_eq!(framed[2], 0x01); // 256 >> 8 = 1
    assert_eq!(&framed[3..], &data[..]);
}

#[test]
fn test_frame_packet_large() {
    let data = vec![0xBB; 1000];
    let framed = frame_packet(&data);

    assert_eq!(framed.len(), 1003);
    assert_eq!(framed[0], FRAME_START);
    // 1000 = 0x03E8
    assert_eq!(framed[1], 0xE8); // Low byte
    assert_eq!(framed[2], 0x03); // High byte
}

#[test]
fn test_frame_start_constant() {
    assert_eq!(FRAME_START, 0x3c);
    assert_eq!(FRAME_START, b'<');
}

#[test]
fn the_length_field_holds_the_low_sixteen_bits() {
    let data = vec![7u8; 65536 + 2];
    let framed = frame_packet(&data);
    assert_eq!(framed.len(), 65536 + 5);
    assert_eq!(&framed[..3], &[0x3c, 0x02, 0x00]);
    assert_eq!(&framed[3..], &data[..]);
}

#[test]
fn a_new_buffer_is_empty() {
    let mut buffer = FrameBuffer::new();
    assert_eq!(buffer.len(), 0);
    assert_eq!(buffer.next_frame(), None);
    assert_eq!(buffer.drain_frames(), Vec::<Vec<u8>>::new());
}

#[test]
fn the_buffer_appends_and_drops() {
    let mut buffer = FrameBuffer::new();
    buffer.extend_from_slice(&[0x3c, 2, 0, 5]);
    assert_eq!(buffer.len(), 4);
    assert_eq!(buffer.next_frame(), None);
    assert_eq!(buffer.len(), 4);
    buffer.extend_from_slice(&[6, 0x3c]);
    assert_eq!(buffer.next_frame(), Some(vec![5, 6]));
    assert_eq!(buffer.len(), 1);
}

#[test]
fn a_framed_packet_reads_back() {
    for size in [0usize, 1, 2, 3, 255, 256, 1000, 65535] {
        let data: Vec<u8> = (0..size).map(|i| (i * 7) as u8).collect();
        let mut buffer = FrameBuffer::new();
        assert_eq!(feed(&mut buffer, &frame_packet(&data)), vec![data]);
        assert_eq!(buffer.len(), 0);
    }
}

#[test]
fn a_packet_that_is_too_long_does_not_read_back() {
    let data = vec![0u8; 65536];
    let mut buffer = FrameBuffer::new();
    assert_eq!(feed(&mut buffer, &frame_packet(&data)), vec![Vec::<u8>::new()]);
}

#[test]
fn frames_come_out_in_order_however_the_stream_is_cut() {
    let packets = vec![vec![1u8, 0x3c, 3], vec![], vec![0x3c; 5], vec![9]];
    let mut stream = Vec::new();
    for packet in &packets {
        stream.extend_from_slice(&frame_packet(packet));
    }
    for size in 1..=stream.len() {
        let mut buffer = FrameBuffer::new();
        let mut frames = Vec::new();
        for chunk in stream.chunks(size) {
            frames.extend(feed(&mut buffer, chunk));
        }
        assert_eq!(frames, packets);
        assert_eq!(buffer.len(), 0);
    }
}

#[test]
fn noise_before_a_frame_is_dropped() {
    let mut buffer = FrameBuffer::new();
    let mut stream = vec![0u8, 1, 2, 0xff, 0x3e];
    stream.extend_from_slice(&frame_packet(&[4, 5]));
    assert_eq!(feed(&mut buffer, &stream), vec![vec![4, 5]]);
    assert_eq!(buffer.len(), 0);
}

#[test]
fn the_last_two_bytes_are_held_even_if_they_are_noise() {
    let mut buffer = FrameBuffer::new();
    assert!(feed(&mut buffer, &[1, 2, 3, 4, 5]).is_empty());
    assert_eq!(buffer.len(), 2);
    assert_eq!(feed(&mut buffer, &frame_packet(&[8])), vec![vec![8]]);
}

#[test]
fn a_partial_frame_is_held() {
    let mut buffer = FrameBuffer::new();
    assert!(feed(&mut buffer, &[0x3c, 0xff, 0xff, 1, 2, 3]).is_empty());
    assert_eq!(buffer.len(), 6);
    let mut left = 65535 - 3;
    while left > READ_SIZE {
        assert!(feed(&mut buffer, &vec![0u8; READ_SIZE]).is_empty());
        left -= READ_SIZE;
        assert!(buffer.len() < 65538);
    }
    let frames = feed(&mut buffer, &vec![0u8; left]);
    assert_eq!(frames.len(), 1);
    assert_eq!(frames[0].len(), 65535);
    assert_eq!(buffer.len(), 0);
}

#[test]
fn the_end_of_the_stream_and_a_failed_read_disconnect() {
    let mut buffer = FrameBuffer::new();
    assert!(feed(&mut buffer, &[0x3c, 9]).is_empty());
    assert!(matches!(read_task::<()>(&mut buffer, Ok(&[])), ReadStep::Disconnect));
    assert!(matches!(read_task(&mut buffer, Err("gone")), ReadStep::Disconnect));
    assert_eq!(buffer.len(), 2);
}

#[test]
fn the_write_task_frames_what_is_queued() {
    match write_task(WriteEvent::Queued(vec![1, 2])) {
        WriteStep::Write(packet) => assert_eq!(packet, vec![0x3c, 2, 0, 1, 2]),
        _ => panic!("a packet should be written"),
    }
    assert!(matches!(write_task(WriteEvent::Written), WriteStep::Receive));
}

#[test]
fn the_write_task_ends_with_the_queue_or_a_failed_write() {
    assert!(matches!(write_task(WriteEvent::Closed), WriteStep::Stop));
    assert!(matches!(write_task(WriteEvent::WriteFailed), WriteStep::Stop));
}
