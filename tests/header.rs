use replay_server::error::{bad_data, ConnectionError};
use replay_server::header::{parse_connection_header, read_initial_header, ConnectionType};

#[test]
fn parses_writer_header() {
    let h = parse_connection_header(b"P/2/foo").unwrap();
    assert_eq!(h.type_, ConnectionType::WRITER);
    assert_eq!(h.id, 2);
    assert_eq!(h.name, "foo");
}

#[test]
fn parses_reader_header_with_terminator() {
    let r = read_initial_header(b"G/2/foo\0rest", false).unwrap().unwrap();
    assert_eq!(r.0.type_, ConnectionType::READER);
    assert_eq!(r.0.id, 2);
    assert_eq!(r.0.name, "foo");
    assert_eq!(r.1, 8);
}

#[test]
fn parses_largest_id_and_utf8_name() {
    let h = parse_connection_header("P/4294967295/zażółć".as_bytes()).unwrap();
    assert_eq!(h.id, 4294967295);
    assert_eq!(h.name, "zażółć");
    let h = parse_connection_header(b"G/007/").unwrap();
    assert_eq!(h.id, 7);
    assert_eq!(h.name, "");
}

#[test]
fn rejects_malformed_headers() {
    for bad in [
        &b""[..],
        b"P",
        b"X/2/foo",
        b"P2/foo",
        b"P//foo",
        b"P/2",
        b"P/2a/foo",
        b"P/4294967296/foo",
        b"P/99999999999999999999/foo",
        b"P/2/fo/o",
        b"P/2/\xff\xfe",
    ] {
        assert!(matches!(parse_connection_header(bad), Err(ConnectionError::BadData(_))), "{:?}", bad);
    }
}

#[test]
fn incomplete_header_asks_for_more() {
    assert!(matches!(read_initial_header(b"P/2/fo", false), Ok(None)));
    assert!(matches!(read_initial_header(b"", false), Ok(None)));
}

#[test]
fn test_server_single_empty_connection() {
    // A connection that closes without sending anything yields no header.
    assert!(matches!(read_initial_header(b"", true), Err(ConnectionError::NoData)));
    assert!(matches!(read_initial_header(b"P/2/fo", true), Err(ConnectionError::BadData(_))));
}

#[test]
fn overlong_header_is_rejected() {
    let mut long = b"P/2/".to_vec();
    long.extend(std::iter::repeat(b'a').take(1100));
    assert!(matches!(read_initial_header(&long, false), Err(ConnectionError::BadData(_))));
    let mut just_fits = b"P/2/".to_vec();
    just_fits.extend(std::iter::repeat(b'a').take(1019));
    just_fits.push(0);
    assert_eq!(just_fits.len(), 1024);
    assert!(matches!(read_initial_header(&just_fits, false), Ok(Some((_, 1024)))));
    just_fits.insert(5, b'a');
    assert!(matches!(read_initial_header(&just_fits, false), Err(ConnectionError::BadData(_))));
}

#[test]
fn bad_data_keeps_reason() {
    match bad_data("oops") {
        ConnectionError::BadData(s) => assert_eq!(s, "oops"),
        _ => panic!("wrong variant"),
    }
}
