//! Unit scenarios for the streaming read session: ordered, contiguous part
//! delivery and range reads with end-of-object clipping.

use s3_file_connector::session::ReadSession;
use s3_file_connector::FsError;

fn session() -> ReadSession {
    ReadSession::new("b".to_string(), "a/1.txt".to_string(), 10)
}

#[test]
fn parts_arrive_in_order_and_serve_ranges() {
    let mut s = session();
    assert_eq!(s.object_len(), 10);
    assert_eq!(s.received_len(), 0);
    assert!(s.push_part(0, b"0123".to_vec()).is_ok());
    assert!(s.push_part(4, b"4567".to_vec()).is_ok());
    assert_eq!(s.received_len(), 8);
    assert_eq!(s.read_range(0, 4).unwrap(), b"0123".to_vec());
    assert_eq!(s.read_range(4, 4).unwrap(), b"4567".to_vec());
    // The tail has not arrived yet: not servable.
    assert!(s.read_range(8, 2).is_none());
    assert!(s.push_part(8, b"89".to_vec()).is_ok());
    assert_eq!(s.read_range(8, 2).unwrap(), b"89".to_vec());
}

#[test]
fn read_clips_at_end_of_object() {
    let mut s = session();
    assert!(s.push_part(0, b"0123456789".to_vec()).is_ok());
    // Asking for more than exists returns exactly what exists.
    assert_eq!(s.read_range(6, 100).unwrap(), b"6789".to_vec());
    // At or past the end: an empty reply, not a failure.
    assert_eq!(s.read_range(10, 4).unwrap(), Vec::<u8>::new());
    assert_eq!(s.read_range(99, 4).unwrap(), Vec::<u8>::new());
}

#[test]
fn non_contiguous_part_is_refused_without_corruption() {
    let mut s = session();
    assert!(s.push_part(0, b"01".to_vec()).is_ok());
    // A gap in the stream breaks the contiguity contract.
    assert_eq!(s.push_part(5, b"56".to_vec()).unwrap_err(), FsError::ProtocolViolation);
    // The session is untouched: the next contiguous part still lands.
    assert_eq!(s.received_len(), 2);
    assert!(s.push_part(2, b"23".to_vec()).is_ok());
    assert_eq!(s.read_range(0, 4).unwrap(), b"0123".to_vec());
}

#[test]
fn part_running_past_object_size_is_refused() {
    let mut s = session();
    assert_eq!(
        s.push_part(0, b"0123456789AB".to_vec()).unwrap_err(),
        FsError::ProtocolViolation
    );
    assert_eq!(s.received_len(), 0);
}

#[test]
fn backwards_read_past_discarded_bytes_is_not_servable() {
    let mut s = session();
    assert!(s.push_part(0, b"0123456789".to_vec()).is_ok());
    assert_eq!(s.read_range(6, 2).unwrap(), b"67".to_vec());
    // Bytes below offset 6 were discarded; the stream cannot rewind.
    assert!(s.read_range(2, 2).is_none());
    assert_eq!(s.consumed_to(), 6);
}
