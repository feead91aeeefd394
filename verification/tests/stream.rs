use agni::stream::{lacks_room, reserve_at_least, seek_target, FileStream};
use bytes::BytesMut;

fn send(data: &[u8], start: u64, end: u64, pieces: &[usize]) -> Vec<u8> {
    let mut stream = FileStream::new(8, start, end);
    let mut at = seek_target(start).unwrap_or(0) as usize;
    let mut sent = Vec::new();
    let mut turn = 0;
    while stream.prepare() {
        let n = pieces[turn % pieces.len()].min(data.len() - at);
        stream.buf.extend_from_slice(&data[at..at + n]);
        match stream.take_chunk(n) {
            Some(chunk) => sent.extend_from_slice(&chunk),
            None => return sent,
        }
        at += n;
        turn += 1;
    }
    sent
}

#[test]
fn stretch_is_sent_byte_for_byte() {
    let data: Vec<u8> = (0..100).collect();
    assert_eq!(send(&data, 0, 100, &[8]), data);
    assert_eq!(send(&data, 10, 31, &[8]), data[10..31].to_vec());
    assert_eq!(send(&data, 10, 31, &[1, 7, 3]), data[10..31].to_vec());
    assert_eq!(send(&data, 5, 5, &[8]), Vec::<u8>::new());
}

#[test]
fn short_file_ends_the_stream() {
    let data: Vec<u8> = (0..10).collect();
    assert_eq!(send(&data, 4, 40, &[8]), data[4..].to_vec());
}

#[test]
fn last_piece_is_cut() {
    let mut stream = FileStream::new(8, 0, 3);
    assert!(stream.prepare());
    stream.buf.extend_from_slice(b"abcdef");
    assert_eq!(&stream.take_chunk(6).unwrap()[..], b"abc");
    assert_eq!(stream.remaining, 0);
    assert!(stream.buf.is_empty());
    assert!(!stream.prepare());
}

#[test]
fn start_of_a_file_is_not_sought() {
    assert_eq!(seek_target(0), None);
    assert_eq!(seek_target(9), Some(9));
}

#[test]
fn room_is_made() {
    let mut buf = BytesMut::new();
    buf.extend_from_slice(b"xy");
    reserve_at_least(&mut buf, 100);
    assert!(buf.capacity() - buf.len() >= 100);
    assert_eq!(&buf[..], b"xy");
}

#[test]
fn room_is_what_is_not_taken() {
    assert!(!lacks_room(10, 2, 8));
    assert!(lacks_room(10, 2, 9));
    assert!(!lacks_room(0, 0, 0));
    assert!(lacks_room(0, 0, 1));
}

#[test]
fn chunks_follow_one_another() {
    let data: Vec<u8> = (0..30).collect();
    let mut stream = FileStream::new(8, 0, 20);
    assert!(stream.prepare());
    stream.buf.extend_from_slice(&data[..8]);
    let first = stream.take_chunk(8).unwrap();
    assert_eq!(&first[..], &data[..8]);
    assert_eq!(stream.remaining, 12);
    let rest = send(&data[8..], 0, 12, &[5]);
    assert_eq!([first.to_vec(), rest].concat(), data[..20].to_vec());
}
