//! Reassembly of streams.

use zetta_transport::range_list;
use zetta_transport::stream_buffer::StreamReceiveBuffer;

#[test]
fn write_and_read_sequential() {
    let mut buf = StreamReceiveBuffer::new(4096);
    buf.write(0, b"hello").unwrap();
    let chunk = buf.read_contiguous().unwrap();
    assert_eq!(&chunk[..], b"hello");
    assert!(buf.read_contiguous().is_none());
}

#[test]
fn out_of_order_delivery() {
    let mut buf = StreamReceiveBuffer::new(4096);
    buf.write(5, b"world").unwrap();
    assert!(buf.read_contiguous().is_none());
    buf.write(0, b"hello").unwrap();
    let chunk = buf.read_contiguous().unwrap();
    assert_eq!(&chunk[..], b"helloworld");
    assert!(buf.read_contiguous().is_none());
}

#[test]
fn duplicate_write_handled() {
    let mut buf = StreamReceiveBuffer::new(4096);
    let added1 = buf.write(0, b"hello").unwrap();
    let added2 = buf.write(0, b"hello").unwrap();
    assert_eq!(added1, 5);
    assert_eq!(added2, 0);
    let chunk = buf.read_contiguous().unwrap();
    assert_eq!(&chunk[..], b"hello");
}

#[test]
fn overlapping_write() {
    let mut buf = StreamReceiveBuffer::new(4096);
    buf.write(0, b"hello world").unwrap();
    buf.write(6, b"WORLD!!").unwrap();
    let chunk = buf.read_contiguous().unwrap();
    assert_eq!(chunk.len(), 13);
}

#[test]
fn circular_wrap_around() {
    let mut buf = StreamReceiveBuffer::new(16);
    buf.write(0, b"0123456789abcdef").unwrap();
    let _ = buf.read_contiguous();
    buf.write(16, b"NEW_DATA").unwrap();
    let chunk = buf.read_contiguous().unwrap();
    assert_eq!(&chunk[..], b"NEW_DATA");
}

#[test]
fn window_overflow_returns_none() {
    let mut buf = StreamReceiveBuffer::new(100);
    let result = buf.write(0, &vec![0u8; 101]);
    assert!(result.is_none());
}

#[test]
fn buffered_ranges_merge_correctly() {
    let mut buf = StreamReceiveBuffer::new(4096);
    let added1 = buf.write(0, b"12345").unwrap();
    let added2 = buf.write(10, b"abcde").unwrap();
    assert_eq!(added1, 5);
    assert_eq!(added2, 5);
    let _ = buf.read_contiguous();
    let added3 = buf.write(5, b"67890").unwrap();
    assert_eq!(added3, 5);
    let chunk = buf.read_contiguous().unwrap();
    assert_eq!(chunk.len(), 10);
}

#[test]
fn a_wrapped_read_gives_back_what_was_written() {
    let mut buf = StreamReceiveBuffer::new(16);
    buf.write(0, b"0123456789").unwrap();
    assert_eq!(&buf.read_contiguous().unwrap()[..], b"0123456789");
    buf.write(16, b"wrapped").unwrap();
    buf.write(10, b"before").unwrap();
    assert_eq!(&buf.read_contiguous().unwrap()[..], b"beforewrapped");
    assert_eq!(buf.read_head, 23);
}

#[test]
fn a_write_that_joins_many_ranges_counts_only_the_gaps() {
    let mut buf = StreamReceiveBuffer::new(64);
    assert_eq!(buf.write(2, b"ab"), Some(2));
    assert_eq!(buf.write(6, b"cd"), Some(2));
    assert_eq!(buf.write(10, b"ef"), Some(2));
    assert_eq!(buf.write(0, b"XXXXXXXXXXXXXX"), Some(8));
    assert_eq!(buf.received_ranges.len(), 1);
    assert_eq!(&buf.read_contiguous().unwrap()[..], b"XXXXXXXXXXXXXX");
}

#[test]
fn an_empty_write_changes_nothing() {
    let mut buf = StreamReceiveBuffer::new(4);
    assert_eq!(buf.write(100, b""), Some(0));
    assert_eq!(buf.write_head, 0);
    assert!(buf.read_contiguous().is_none());
}

#[test]
fn the_listed_ranges_behave_alike() {
    let mut buf = range_list::StreamReceiveBuffer::new(16);
    assert!(buf.write(5, b"world"));
    assert!(buf.write(12, b"tail"));
    assert!(!buf.write(12, b"tails"));
    assert!(buf.read_contiguous().is_none());
    assert!(buf.write(0, b"hello"));
    assert_eq!(buf.received_ranges, vec![(0, 10), (12, 16)]);
    assert_eq!(&buf.read_contiguous().unwrap()[..], b"helloworld");
    assert_eq!(buf.received_ranges, vec![(12, 16)]);
    assert!(buf.write(10, b"--"));
    assert_eq!(&buf.read_contiguous().unwrap()[..], b"--tail");
    assert!(buf.received_ranges.is_empty());
}

#[test]
fn ranges_melt_together() {
    let mut buf = StreamReceiveBuffer::new(100);
    assert_eq!(buf.add_range(10, 20), 10);
    assert_eq!(buf.add_range(30, 40), 10);
    assert_eq!(buf.received_ranges.len(), 2);
    assert_eq!(buf.add_range(15, 30), 10);
    assert_eq!(buf.received_ranges.get(&10), Some(&40));
    assert_eq!(buf.received_ranges.len(), 1);
    assert_eq!(buf.add_range(12, 18), 0);
    assert_eq!((buf.read_head, buf.write_head), (0, 0));
}
