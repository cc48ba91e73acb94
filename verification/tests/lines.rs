use git_productivity_analyzer::lines::count_lines_in_bytes;

#[test]
fn empty_blob_has_no_lines() {
    assert_eq!(count_lines_in_bytes(b""), 0);
}

#[test]
fn lines_end_with_a_line_feed_or_the_blob() {
    assert_eq!(count_lines_in_bytes(b"a"), 1);
    assert_eq!(count_lines_in_bytes(b"a\n"), 1);
    assert_eq!(count_lines_in_bytes(b"a\nb"), 2);
    assert_eq!(count_lines_in_bytes(b"a\nb\n"), 2);
    assert_eq!(count_lines_in_bytes(b"\n"), 1);
    assert_eq!(count_lines_in_bytes(b"\n\n\n"), 3);
}

#[test]
fn long_blobs_are_counted_exactly() {
    let mut data = Vec::new();
    for i in 0..1000 {
        data.extend_from_slice(format!("line number {}\n", i).as_bytes());
    }
    assert_eq!(count_lines_in_bytes(&data), 1000);
    data.extend_from_slice(b"tail");
    assert_eq!(count_lines_in_bytes(&data), 1001);
}
