use slicer_toolbox::archive::{collect_entries, ArchiveEvent, ArchiveFileIterator};
use slicer_toolbox::errors::SlicerError;

#[test]
fn chunks_accumulate_into_one_buffer_per_entry() {
    let events = vec![
        ArchiveEvent::StartOfEntry,
        ArchiveEvent::DataChunk(b"ab".to_vec()),
        ArchiveEvent::DataChunk(b"cd".to_vec()),
        ArchiveEvent::EndOfEntry,
        ArchiveEvent::StartOfEntry,
        ArchiveEvent::DataChunk(b"e".to_vec()),
        ArchiveEvent::EndOfEntry,
    ];
    let entries = collect_entries(&events).unwrap();
    assert_eq!(entries, vec![b"abcd".to_vec(), b"e".to_vec()]);
}

#[test]
fn an_unterminated_entry_yields_nothing() {
    let events = vec![
        ArchiveEvent::StartOfEntry,
        ArchiveEvent::DataChunk(b"partial".to_vec()),
    ];
    let entries = collect_entries(&events).unwrap();
    assert!(entries.is_empty());
}

#[test]
fn a_corrupt_stream_aborts() {
    let events = vec![
        ArchiveEvent::StartOfEntry,
        ArchiveEvent::DataChunk(b"ab".to_vec()),
        ArchiveEvent::Failure("truncated header".to_string()),
        ArchiveEvent::EndOfEntry,
    ];
    let e = collect_entries(&events).unwrap_err();
    match e {
        SlicerError::ArchiveError(m) => assert_eq!(m, "truncated header"),
        other => panic!("expected an archive error, got {other:?}"),
    }
}

#[test]
fn the_iterator_clears_on_entry_start() {
    let mut it = ArchiveFileIterator::new();
    assert!(it.next(&ArchiveEvent::DataChunk(b"junk".to_vec())).is_none());
    assert!(it.next(&ArchiveEvent::StartOfEntry).is_none());
    assert!(it.next(&ArchiveEvent::DataChunk(b"xy".to_vec())).is_none());
    let done = it.next(&ArchiveEvent::EndOfEntry).unwrap().unwrap();
    assert_eq!(done, b"xy".to_vec());
}
