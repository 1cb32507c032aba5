use trade_edge::sse::{white_space, SseDecoder};

#[test]
fn events_come_when_their_frame_completes() {
    let mut d = SseDecoder::new();
    assert!(d.feed("data: {\"a\":1}\n").is_empty());
    assert_eq!(d.feed("\n"), vec!["{\"a\":1}".to_string()]);
    assert!(d.buf.is_empty());
}

#[test]
fn a_frame_may_carry_several_data_lines_and_others() {
    let mut d = SseDecoder::new();
    let out = d.feed("event: x\r\ndata:one\r\n  data:  two  \nid: 3\n\ndata: three\n\ndata: rest");
    assert_eq!(out, vec!["one".to_string(), "two".to_string(), "three".to_string()]);
    assert_eq!(d.buf.iter().collect::<String>(), "data: rest");
}

#[test]
fn unicode_white_space_is_trimmed() {
    let mut d = SseDecoder::new();
    let out = d.feed("\u{3000}data:\u{a0}x\u{2009}\n\n");
    assert_eq!(out, vec!["x".to_string()]);
    assert!(white_space('\u{85}'));
    assert!(!white_space('x'));
    assert!(!white_space('\u{200B}'));
}

#[test]
fn chunk_boundaries_do_not_matter() {
    let stream = "data: 1\n\n: comment\n\ndata: 2\ndata:3\n\ndata: 4";
    let mut whole = SseDecoder::new();
    let all = whole.feed(stream);
    for cut in 0..stream.len() {
        if !stream.is_char_boundary(cut) {
            continue;
        }
        let mut d = SseDecoder::new();
        let mut got = d.feed(&stream[..cut]);
        got.extend(d.feed(&stream[cut..]));
        assert_eq!(got, all);
        assert_eq!(d.buf, whole.buf);
    }
    assert_eq!(all, vec!["1".to_string(), "2".to_string(), "3".to_string()]);
}

#[test]
fn lines_without_data_prefix_carry_nothing() {
    let mut d = SseDecoder::new();
    assert!(d.feed("dat: x\n\n:data: y\n\ndata\n\n").is_empty());
    assert_eq!(d.feed("data:\n\n"), vec![String::new()]);
}
