use fluxsyncd::ipc::{
    bad_opening, bad_request, read_line_capped, LineReader, LineStep, LINES_DROPPED, MAX_IPC_LINE,
};

#[test]
fn read_line_capped_accepts_exactly_the_cap() {
    let mut data = vec![b'a'; MAX_IPC_LINE - 1];
    data.push(b'\n');
    let out = read_line_capped(&vec![data], MAX_IPC_LINE)
        .expect("a line totalling exactly MAX_IPC_LINE bytes must be accepted");
    assert_eq!(out.len(), MAX_IPC_LINE);
}

#[test]
fn read_line_capped_rejects_one_byte_over_the_cap() {
    let mut data = vec![b'a'; MAX_IPC_LINE];
    data.push(b'\n');
    assert!(
        read_line_capped(&vec![data], MAX_IPC_LINE).is_none(),
        "a line totalling MAX_IPC_LINE + 1 bytes must be rejected"
    );
}

#[test]
fn a_line_is_read_however_it_is_cut() {
    let whole = b"one line\nand more".to_vec();
    for cut in 0..whole.len() {
        let chunks = vec![whole[..cut].to_vec(), whole[cut..].to_vec()];
        assert_eq!(read_line_capped(&chunks, 9), Some("one line\n".to_string()));
        assert_eq!(read_line_capped(&chunks, 8), None);
    }
    assert_eq!(read_line_capped(&vec![b"no end".to_vec()], 100), Some("no end".to_string()));
    assert_eq!(read_line_capped(&Vec::new(), 100), Some(String::new()));
}

#[test]
fn a_line_is_fed_piece_by_piece() {
    let mut line = LineReader::new();
    assert_eq!(line.feed(b"ab", 4), LineStep::More { taken: 2 });
    assert_eq!(line.feed(b"c\nd", 4), LineStep::Done { taken: 2 });
    assert_eq!(line.text(), "abc\n");
    let mut long = LineReader::new();
    assert_eq!(long.feed(b"abcde\n", 4), LineStep::TooLong { taken: 6 });
    assert!(long.bytes.is_empty());
}

#[test]
fn bad_lines_are_answered() {
    let r = bad_request("oops");
    assert!(!r.ok);
    assert_eq!((r.id, r.err), (0, Some("bad json: oops".to_string())));
    assert_eq!(bad_opening("x"), "opening line not a Subscribe: x");
    assert_eq!(LINES_DROPPED, "(some log lines were dropped)");
    assert_eq!(MAX_IPC_LINE, 64 * 1024 * 1024);
}
