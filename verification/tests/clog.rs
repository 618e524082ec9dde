use nimble_rs::clog::{emit_level, line_text, log_fragment, log_level, LineBuf, LogLevel, LINE_MAX};

#[test]
fn log_levels() {
    assert_eq!(log_level(0), LogLevel::Debug);
    assert_eq!(log_level(1), LogLevel::Info);
    assert_eq!(log_level(2), LogLevel::Warn);
    assert_eq!(log_level(3), LogLevel::Error);
    assert_eq!(log_level(4), LogLevel::Error);
    assert_eq!(log_level(-1), LogLevel::Error);
}

#[test]
fn empty_lines_are_not_emitted() {
    assert_eq!(emit_level(1, b""), None);
    assert_eq!(emit_level(1, b"x"), Some(LogLevel::Info));
}

#[test]
fn fragments_join_into_lines() {
    let mut line = LineBuf::new();
    assert!(line.feed(1, b"hello ").is_empty());
    let lines = line.feed(1, b"world\nnext");
    assert_eq!(lines.len(), 1);
    assert_eq!(lines[0].text, b"hello world".to_vec());
    assert_eq!(lines[0].level, 1);
    let lines = line.feed(0, b" part\n");
    assert_eq!(lines.len(), 1);
    assert_eq!(lines[0].text, b"next part".to_vec());
}

#[test]
fn line_takes_highest_level() {
    let mut line = LineBuf::new();
    line.feed(2, b"warn ");
    let lines = line.feed(0, b"then debug\n");
    assert_eq!(lines[0].level, 2);
    // The next line starts again at level 0
    let lines = line.feed(0, b"plain\n");
    assert_eq!(lines[0].level, 0);
}

#[test]
fn long_lines_are_split() {
    let mut line = LineBuf::new();
    let long = vec![b'a'; LINE_MAX + 10];
    let lines = line.feed(1, &long);
    assert_eq!(lines.len(), 1);
    assert_eq!(lines[0].text.len(), LINE_MAX);
    let lines = line.feed(1, b"\n");
    assert_eq!(lines.len(), 1);
    assert_eq!(lines[0].text.len(), 10);
    assert_eq!(lines[0].level, 1);
}

#[test]
fn split_line_restarts_at_level_zero() {
    let mut line = LineBuf::new();
    let lines = line.feed(2, &vec![b'a'; LINE_MAX + 1]);
    assert_eq!(lines.len(), 1);
    assert_eq!(lines[0].level, 2);
    let lines = line.feed(0, b"\n");
    assert_eq!(lines[0].text, b"a".to_vec());
    assert_eq!(lines[0].level, 0);
}

#[test]
fn log_fragment_emits_non_empty_lines() {
    let mut line = LineBuf::new();
    let out = log_fragment(&mut line, 3, Some(b"\n\nboom\n"));
    assert_eq!(out.len(), 1);
    assert_eq!(out[0].level, LogLevel::Error);
    assert_eq!(out[0].text, b"boom".to_vec());
    assert!(log_fragment(&mut line, 3, None).is_empty());
}

#[test]
fn reassembly_keeps_every_byte() {
    let mut line = LineBuf::new();
    let input: Vec<u8> = (0..600u32)
        .map(|i| if i % 97 == 0 { b'\n' } else { b'a' + (i % 26) as u8 })
        .collect();
    let mut joined = Vec::new();
    for chunk in input.chunks(7) {
        for l in line.feed(1, chunk) {
            assert!(l.text.len() <= LINE_MAX);
            joined.extend_from_slice(&l.text);
        }
    }
    for l in line.feed(1, b"\n") {
        joined.extend_from_slice(&l.text);
    }
    let printable: Vec<u8> = input.iter().copied().filter(|b| *b != b'\n').collect();
    assert_eq!(joined, printable);
}

#[test]
fn line_texts() {
    assert_eq!(line_text(b"ble_hs: started"), "ble_hs: started");
    assert_eq!(line_text("caf\u{e9}".as_bytes()), "caf\u{e9}");
    assert_eq!(line_text(&[0x66, 0xff, 0x6f]), "<non-utf8 log line>");
    assert_eq!(line_text(&[0xed, 0xa0, 0x80]), "<non-utf8 log line>");
}

#[test]
fn long_line_is_cut_into_chunks() {
    let mut buf = LineBuf::new();
    let mut msg = vec![b'a'; 600];
    msg.push(b'\n');
    let out = log_fragment(&mut buf, 1, Some(&msg));
    let lens: Vec<usize> = out.iter().map(|l| l.text.len()).collect();
    assert_eq!(lens, vec![LINE_MAX, LINE_MAX, 600 - 2 * LINE_MAX]);
}

#[test]
fn line_split_over_calls_keeps_highest_level() {
    let mut buf = LineBuf::new();
    assert!(log_fragment(&mut buf, 0, Some(b"par")).is_empty());
    assert!(log_fragment(&mut buf, 3, None).is_empty());
    assert!(log_fragment(&mut buf, 2, Some(b"t one")).is_empty());
    let out = log_fragment(&mut buf, 1, Some(b"!\n"));
    assert_eq!(out.len(), 1);
    assert_eq!(out[0].text, b"part one!".to_vec());
    assert_eq!(out[0].level, log_level(2));
}

#[test]
fn calls_break_lines_as_one_fragment() {
    let mut split = LineBuf::new();
    let mut lines = Vec::new();
    for (lvl, part) in [(0, &b"ab"[..]), (1, &b"c\nde"[..]), (2, &b"f\n\ng"[..])] {
        lines.extend(log_fragment(&mut split, lvl, Some(part)).into_iter().map(|l| l.text));
    }
    let mut whole = LineBuf::new();
    let one: Vec<Vec<u8>> = log_fragment(&mut whole, 0, Some(b"abc\ndef\n\ng"))
        .into_iter()
        .map(|l| l.text)
        .collect();
    assert_eq!(lines, one);
    assert_eq!(lines, vec![b"abc".to_vec(), b"def".to_vec()]);
}
