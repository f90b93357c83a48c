use aedat_utilities::write_buffer::{WriteBuffer, CSV_BUF_SIZE, FRAME_BUF_SIZE};

#[test]
fn buffer_accumulates_and_flushes() {
    let mut buf = WriteBuffer::new(10);
    assert!(!buf.needs_flush());
    buf.push("1,2,3\n");
    assert!(!buf.needs_flush());
    buf.push("4,5,6\n");
    assert!(buf.needs_flush());
    let out = buf.take();
    assert_eq!(out, b"1,2,3\n4,5,6\n".to_vec());
    assert!(!buf.needs_flush());
    // The remainder after the loop is handed out even below the mark.
    buf.push("7\n");
    assert!(!buf.needs_flush());
    assert_eq!(buf.take(), b"7\n".to_vec());
}

#[test]
fn buffer_marks_match_output_paths() {
    assert_eq!(CSV_BUF_SIZE, 150000);
    assert_eq!(FRAME_BUF_SIZE, 150);
}
