use maguro::DownloadSession;
use maguro::RetrievalError;
use maguro::SegmentResponse;
use maguro::run_download;

fn urls(n: usize) -> Vec<String> {
    (0..n).map(|i| format!("http://cdn.example/v/s{}.m4s", i)).collect()
}

fn chunks(parts: &[&str]) -> Vec<Vec<u8>> {
    parts.iter().map(|p| p.as_bytes().to_vec()).collect()
}

#[test]
fn download_writes_chunks_in_order() {
    let responses = vec![
        SegmentResponse::new(chunks(&["A", "B"]), true),
        SegmentResponse::new(chunks(&["C"]), true),
        SegmentResponse::new(chunks(&["D", "E"]), true),
    ];
    let mut sink: Vec<u8> = Vec::new();
    let mut deliveries: Vec<Vec<u8>> = Vec::new();
    let r = run_download(&urls(3), &responses, &mut sink, &mut deliveries);
    assert_eq!(r, Ok(()));
    assert_eq!(sink, b"ABCDE".to_vec());
    assert_eq!(deliveries.len(), 5);
    assert_eq!(deliveries, chunks(&["A", "B", "C", "D", "E"]));
}

#[test]
fn transport_failure_aborts_at_its_ordinal() {
    let responses = vec![
        SegmentResponse::new(chunks(&["A"]), true),
        SegmentResponse::new(chunks(&["B"]), false),
        SegmentResponse::new(chunks(&["C"]), true),
    ];
    let mut sink: Vec<u8> = Vec::new();
    let mut deliveries: Vec<Vec<u8>> = Vec::new();
    let r = run_download(&urls(3), &responses, &mut sink, &mut deliveries);
    assert_eq!(r, Err(RetrievalError::TransportFailure { index: 1 }));
    // The failing segment's arrived chunks are kept; not one byte of
    // segment 2 was requested or written.
    assert_eq!(sink, b"AB".to_vec());
    assert_eq!(deliveries, chunks(&["A", "B"]));
}

#[test]
fn failure_on_first_segment_writes_nothing_more() {
    let responses = vec![
        SegmentResponse::new(vec![], false),
        SegmentResponse::new(chunks(&["X"]), true),
    ];
    let mut sink: Vec<u8> = Vec::new();
    let mut deliveries: Vec<Vec<u8>> = Vec::new();
    let r = run_download(&urls(2), &responses, &mut sink, &mut deliveries);
    assert_eq!(r, Err(RetrievalError::TransportFailure { index: 0 }));
    assert!(sink.is_empty());
    assert!(deliveries.is_empty());
}

#[test]
fn empty_url_sequence_downloads_nothing() {
    let mut sink: Vec<u8> = Vec::new();
    let mut deliveries: Vec<Vec<u8>> = Vec::new();
    let r = run_download(&urls(0), &Vec::new(), &mut sink, &mut deliveries);
    assert_eq!(r, Ok(()));
    assert!(sink.is_empty());
    assert!(deliveries.is_empty());
}

#[test]
fn session_requests_segments_strictly_in_order() {
    // A driver over a mock transport: the transport panics if any
    // segment beyond the failing one is ever requested.
    let mut session = DownloadSession::new(urls(3));
    let mut sink: Vec<u8> = Vec::new();
    let mut requested: Vec<usize> = Vec::new();
    let mut result: Result<(), RetrievalError> = Ok(());
    loop {
        if session.finished {
            break;
        }
        let index = session.next;
        match session.begin_segment() {
            None => break,
            Some(url) => {
                assert_eq!(url, format!("http://cdn.example/v/s{}.m4s", index));
                requested.push(index);
                if index >= 2 {
                    panic!("segment 2 must never be requested after the failure at 1");
                }
                if index == 0 {
                    let e = session.accept_chunk(&mut sink, b"A", true);
                    assert!(e.is_none());
                    session.end_segment();
                } else {
                    result = Err(session.fail_segment());
                }
            },
        }
    }
    assert_eq!(requested, vec![0, 1]);
    assert_eq!(result, Err(RetrievalError::TransportFailure { index: 1 }));
    assert_eq!(sink, b"A".to_vec());
    assert!(session.finished);
}

#[test]
fn refused_chunk_aborts_without_writing() {
    let mut session = DownloadSession::new(urls(1));
    let mut sink: Vec<u8> = Vec::new();
    let url = session.begin_segment();
    assert!(url.is_some());
    let e = session.accept_chunk(&mut sink, b"A", false);
    assert_eq!(e, Some(RetrievalError::CallbackFailure { index: 0 }));
    assert!(sink.is_empty());
    assert!(session.finished);
}
