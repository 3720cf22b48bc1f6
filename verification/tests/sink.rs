//! The append-only window, and what a backend reports of itself.

use downpour::h1h2::{capabilities, TransportMode};
use downpour::remote::NegotiatedProtocol;
use downpour::sink::{RangeSink, SinkError};

/// One recorded write: the offset it landed at, and the bytes.
type RecordedWrite = (u64, Vec<u8>);

/// Store a chunk through the window into a recording target.
fn store(
    sink: &mut RangeSink,
    writes: &mut Vec<RecordedWrite>,
    bytes: &[u8],
) -> Result<(), SinkError> {
    if let Ok(offset) = sink.place(bytes.len()) {
        writes.push((offset, bytes.to_vec()));
    }
    sink.accept(bytes.len(), Ok(()))
}

#[test]
fn a_sink_appends_from_its_base_offset_and_cannot_seek() {
    let mut writes = Vec::new();
    let mut sink = RangeSink::new(4096, None);

    assert_eq!(sink.base_offset(), 4096);
    assert_eq!(sink.next_offset(), 4096);

    store(&mut sink, &mut writes, b"hello").expect("accepted");
    store(&mut sink, &mut writes, b"world").expect("accepted");

    assert_eq!(sink.written(), 10);
    assert_eq!(sink.next_offset(), 4106);
    assert_eq!(
        writes,
        vec![(4096, b"hello".to_vec()), (4101, b"world".to_vec())]
    );
}

#[test]
fn a_sink_refuses_to_write_past_its_grant() {
    let mut writes = Vec::new();
    let mut sink = RangeSink::new(0, Some(8));

    store(&mut sink, &mut writes, b"12345678").expect("exactly the grant is fine");
    let error =
        store(&mut sink, &mut writes, b"9").expect_err("one byte past the grant is refused");
    assert!(matches!(
        error,
        SinkError::BeyondGrant {
            grant: 8,
            already_written: 8,
            attempted: 1
        }
    ));
    assert_eq!(
        writes.len(),
        1,
        "the refused write must not have reached the target"
    );
}

#[test]
fn an_over_long_chunk_is_refused_whole() {
    let mut writes = Vec::new();
    let mut sink = RangeSink::new(0, Some(4));
    let error = store(&mut sink, &mut writes, b"toolong").expect_err("refused");
    assert!(matches!(error, SinkError::BeyondGrant { attempted: 7, .. }));
    assert_eq!(sink.written(), 0);
    assert!(writes.is_empty());
}

#[test]
fn a_chunk_that_storage_refused_is_not_counted() {
    let mut sink = RangeSink::new(10, None);
    let refused = sink.accept(4, Err(SinkError::NoSpace { offset: 10 }));
    assert_eq!(refused, Err(SinkError::NoSpace { offset: 10 }));
    assert_eq!(sink.written(), 0);
    assert_eq!(sink.next_offset(), 10);
}

#[test]
fn a_window_at_the_end_of_the_address_space_overflows() {
    let mut sink = RangeSink::new(u64::MAX, None);
    assert_eq!(sink.accept(1, Ok(())), Ok(()));
    assert_eq!(sink.place(1), Err(SinkError::LengthOverflow));
    sink.rebase(7, Some(2));
    assert_eq!(sink.base_offset(), 7);
    assert_eq!(sink.place(2), Ok(7));
}

#[test]
fn the_real_backend_is_also_a_trait_object() {
    let offered = capabilities(TransportMode::Negotiated);
    assert_eq!(offered.name, "h1h2");
    assert!(offered.supports_ranges);
    assert!(
        offered.multiplexes_streams,
        "a negotiated backend may reach HTTP/2, so capacity can be added as streams"
    );
}

#[test]
fn an_http1_only_backend_reports_that_it_cannot_multiplex() {
    let offered = capabilities(TransportMode::Http1Only);
    assert_eq!(offered.protocols, vec![NegotiatedProtocol::Http11]);
    assert!(!offered.multiplexes_streams);
    assert_eq!(TransportMode::default(), TransportMode::Negotiated);
}
