use gateslam::session::{contains_bytes, scan_chunk, termination_outcome, ChunkVerdict, ProcessError, READY_MARKER};

#[test]
fn ready_marker_ends_the_wait() {
    let chunk = b"2024-01-01 Peer Connection Initiated\n2024-01-01 Initialization Sequence Completed\n".to_vec();
    match scan_chunk(chunk.clone()) {
        ChunkVerdict::Ready(bytes) => assert_eq!(bytes, chunk),
        _ => panic!("the marker must be seen"),
    }
}

#[test]
fn other_output_is_logged() {
    let chunk = b"TCP/UDP: Preserving recently used remote address\n".to_vec();
    match scan_chunk(chunk.clone()) {
        ChunkVerdict::Log(bytes) => assert_eq!(bytes, chunk),
        _ => panic!("output without the marker is only logged"),
    }
    match scan_chunk(b"Initialization Sequence".to_vec()) {
        ChunkVerdict::Log(_) => {}
        _ => panic!("a part of the marker is not the marker"),
    }
}

#[test]
fn chunk_that_is_not_utf8_is_still_read_and_logged() {
    let mut chunk = READY_MARKER.as_bytes().to_vec();
    chunk.push(0xe2);
    match scan_chunk(chunk.clone()) {
        ChunkVerdict::Ready(bytes) => assert_eq!(bytes, chunk),
        _ => panic!("the marker must be seen in any chunk"),
    }
    let broken = vec![0x41, 0xff, 0x42];
    match scan_chunk(broken.clone()) {
        ChunkVerdict::Log(bytes) => assert_eq!(bytes, broken),
        _ => panic!("a chunk without the marker is logged"),
    }
}

#[test]
fn byte_search() {
    assert!(contains_bytes(b"abcabd", b"abd"));
    assert!(!contains_bytes(b"abcabc", b"abd"));
    assert!(contains_bytes(b"abc", b""));
    assert!(!contains_bytes(b"ab", b"abc"));
    assert!(contains_bytes(b"abc", b"abc"));
}

#[test]
fn termination_results() {
    assert!(termination_outcome(Ok(true)).is_ok());
    assert!(matches!(termination_outcome(Ok(false)), Err(ProcessError::Unsuccessful)));
    match termination_outcome(Err("no sudo".to_string())) {
        Err(ProcessError::Spawn(why)) => assert_eq!(why, "no sudo"),
        _ => panic!("a stop command that cannot run is a spawn failure"),
    }
}
