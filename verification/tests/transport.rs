use rodecaster_usb::error::{ParseError, UsbError};
use rodecaster_usb::transport::{
    assemble_packet, build_frames, frames_needed, PacketReader, FRAME_PAYLOAD_SIZE, FRAME_SIZE,
};

fn read_back(frames: &[Vec<u8>]) -> (Vec<u8>, usize) {
    let mut reader = PacketReader::start(&frames[0][1..]).unwrap();
    let mut used = 1;
    while !reader.is_complete() {
        reader.push_frame(&frames[used][1..]);
        used += 1;
    }
    (reader.into_packet(), used)
}

#[test]
fn one_frame_packet() {
    let frames = build_frames(0x03, &[0xAD, 0x10, 0xA7, 0xB0]);
    assert_eq!(frames.len(), 1);
    assert_eq!(frames[0].len(), FRAME_SIZE);
    assert_eq!(&frames[0][..9], &[0x03, 0x04, 0x00, 0x00, 0x00, 0xAD, 0x10, 0xA7, 0xB0]);
    assert!(frames[0][9..].iter().all(|b| *b == 0));
}

#[test]
fn packet_split_over_frames() {
    let data: Vec<u8> = (0..300u32).map(|i| (i % 251) as u8).collect();
    let frames = build_frames(0x03, &data);
    assert_eq!(frames.len(), 2);
    assert!(frames.iter().all(|f| f.len() == FRAME_SIZE && f[0] == 0x03));
    // length prefix 300 = 0x012C
    assert_eq!(&frames[0][1..5], &[0x2C, 0x01, 0x00, 0x00]);
    assert_eq!(&frames[0][5..], &data[..FRAME_PAYLOAD_SIZE - 4]);
    assert_eq!(&frames[1][1..50], &data[251..]);
    assert!(frames[1][50..].iter().all(|b| *b == 0));
}

#[test]
fn reading_gives_back_what_was_written() {
    for n in [0usize, 1, 250, 251, 252, 506, 507, 1000] {
        let data: Vec<u8> = (0..n).map(|i| (i * 7 % 256) as u8).collect();
        let frames = build_frames(0x04, &data);
        let (packet, used) = read_back(&frames);
        assert_eq!(packet, data);
        assert_eq!(used, frames.len());
    }
}

#[test]
fn exact_multiple_of_frame_payload_needs_no_extra_frame() {
    // 4 bytes of length + 251 bytes fill one frame exactly
    let data = vec![0x11u8; 251];
    assert_eq!(build_frames(0x03, &data).len(), 1);
    let data = vec![0x11u8; 506];
    assert_eq!(build_frames(0x03, &data).len(), 2);
}

#[test]
fn short_first_frame_is_refused() {
    assert!(matches!(PacketReader::start(&[0x01, 0x00, 0x00]), Err(UsbError::FrameParse(ParseError::Incomplete))));
}

#[test]
fn reader_takes_no_more_than_announced() {
    let mut first = vec![0x03, 0x00, 0x00, 0x00, 0xAA];
    first.resize(FRAME_PAYLOAD_SIZE, 0x00);
    let reader = PacketReader::start(&first).unwrap();
    assert!(reader.is_complete());
    assert_eq!(reader.into_packet(), vec![0xAA, 0x00, 0x00]);
}

#[test]
fn reader_collects_continuation_frames() {
    let first = vec![0x06, 0x00, 0x00, 0x00, 0x01, 0x02];
    let mut reader = PacketReader::start(&first).unwrap();
    assert!(!reader.is_complete());
    reader.push_frame(&[0x03, 0x04, 0x05, 0x06, 0x07]);
    assert!(reader.is_complete());
    assert_eq!(reader.into_packet(), vec![0x01, 0x02, 0x03, 0x04, 0x05, 0x06]);
}

#[test]
fn any_run_of_reports_is_read_up_to_the_announced_length() {
    // three frames of 255 bytes announcing 600 bytes: ceil(604 / 255) = 3 reports
    let mut first = vec![0x58, 0x02, 0x00, 0x00];
    first.resize(255, 0x11);
    let second = vec![0x22u8; 255];
    let third = vec![0x33u8; 255];
    let mut reader = PacketReader::start(&first).unwrap();
    reader.push_frame(&second);
    assert!(!reader.is_complete());
    reader.push_frame(&third);
    assert!(reader.is_complete());
    let packet = reader.into_packet();
    let mut expected = vec![0x11u8; 251];
    expected.extend(vec![0x22u8; 255]);
    expected.extend(vec![0x33u8; 94]);
    assert_eq!(packet, expected);
}

#[test]
fn frames_needed_counts_reports_of_the_announced_length() {
    assert_eq!(frames_needed(&[0x01, 0x00, 0x00]), None);
    assert_eq!(frames_needed(&[0x00, 0x00, 0x00, 0x00]), Some(1));
    assert_eq!(frames_needed(&[0xFB, 0x00, 0x00, 0x00]), Some(1)); // 251 + 4 = 255
    assert_eq!(frames_needed(&[0xFC, 0x00, 0x00, 0x00]), Some(2)); // 252 + 4 = 256
    assert_eq!(frames_needed(&[0x58, 0x02, 0x00, 0x00, 0x11]), Some(3)); // 600 + 4 = 604
}

#[test]
fn assemble_packet_reads_back_written_reports() {
    for n in [0usize, 3, 251, 252, 506, 507, 900] {
        let data: Vec<u8> = (0..n).map(|i| (i * 13 % 256) as u8).collect();
        let frames: Vec<Vec<u8>> = build_frames(0x04, &data).into_iter().map(|f| f[1..].to_vec()).collect();
        assert_eq!(frames_needed(&frames[0]), Some(frames.len()));
        assert_eq!(assemble_packet(&frames), Some(data));
    }
}

#[test]
fn assemble_packet_refuses_a_wrong_number_of_reports() {
    let data = vec![0x5Au8; 300];
    let frames: Vec<Vec<u8>> = build_frames(0x04, &data).into_iter().map(|f| f[1..].to_vec()).collect();
    assert_eq!(frames.len(), 2);
    assert_eq!(assemble_packet(&frames[..1].to_vec()), None);
    let mut more = frames.clone();
    more.push(vec![0u8; FRAME_PAYLOAD_SIZE]);
    assert_eq!(assemble_packet(&more), None);
    assert_eq!(assemble_packet(&Vec::new()), None);
    assert_eq!(assemble_packet(&vec![vec![0x01, 0x00]]), None);
}
