use remiaft::encoding::{decode_console_bytes, trim_partial_utf8_suffix, StreamDecoder};

#[test]
fn keeps_valid_utf8_intact() {
    let text = "[11:31:38 WARN]: 服务器日志 with ANSI \u{1b}[31mred\u{1b}[0m";
    assert_eq!(decode_console_bytes(text.as_bytes()), text);
}

#[test]
fn drops_partial_utf8_character_at_end() {
    let mut bytes = "日志".as_bytes().to_vec();
    bytes.pop();
    assert_eq!(decode_console_bytes(&bytes), "日");
}

#[test]
fn never_panics_on_arbitrary_bytes() {
    let bytes = [0xff, 0xfe, b'a', 0x80, 0xc2];
    let decoded = decode_console_bytes(&bytes);
    assert!(decoded.contains('a'));
}

#[test]
fn decodes_gbk_log_lines_when_utf8_fails() {
    let mut bytes = b"[11:31:38 WARN]: ".to_vec();
    bytes.extend([0xb7, 0xfe, 0xce, 0xf1, 0xc6, 0xf7, 0xd2, 0xd1, 0xc6, 0xf4, 0xb6, 0xaf]);
    assert_eq!(decode_console_bytes(&bytes), "[11:31:38 WARN]: 服务器已启动");
}

#[test]
fn decodes_shift_jis_log_lines_when_utf8_fails() {
    let mut bytes = b"[INFO]: ".to_vec();
    bytes.extend([0x83, 0x54, 0x81, 0x5b, 0x83, 0x6f, 0x81, 0x5b, 0x8b, 0x4e, 0x93, 0xae]);
    assert_eq!(decode_console_bytes(&bytes), "[INFO]: サーバー起動");
}

#[test]
fn stream_reassembles_utf8_split_across_chunks() {
    let mut decoder = StreamDecoder::new();
    let bytes = "服务器".as_bytes();
    let mut output = String::new();
    output.push_str(&decoder.push(&bytes[..4]));
    output.push_str(&decoder.push(&bytes[4..]));
    output.push_str(&decoder.flush());
    assert_eq!(output, "服务器");
}

#[test]
fn stream_decodes_gbk_line_split_mid_character() {
    let mut decoder = StreamDecoder::new();
    let bytes = [0xb7, 0xfe, 0xce, 0xf1, 0xc6, 0xf7, b'\n'];
    let mut output = String::new();
    output.push_str(&decoder.push(&bytes[..3]));
    output.push_str(&decoder.push(&bytes[3..]));
    assert_eq!(output, "服务器\n");
}

#[test]
fn stream_passes_ascii_through_immediately() {
    let mut decoder = StreamDecoder::new();
    assert_eq!(decoder.push(b"> "), "> ");
    assert!(decoder.flush().is_empty());
}

#[test]
fn stream_reassembles_any_split_of_utf8() {
    let text = "aé日😀\nz";
    let bytes = text.as_bytes();
    for first in 0..bytes.len() {
        for second in first..bytes.len() {
            let mut decoder = StreamDecoder::new();
            let mut output = decoder.push(&bytes[..first]);
            output.push_str(&decoder.push(&bytes[first..second]));
            output.push_str(&decoder.push(&bytes[second..]));
            output.push_str(&decoder.flush());
            assert_eq!(output, text);
        }
    }
}

#[test]
fn partial_characters_are_cut_off() {
    assert_eq!(trim_partial_utf8_suffix(&[b'a', 0xe6, 0x97]), b"a");
    assert_eq!(trim_partial_utf8_suffix(b"abc"), b"abc");
    assert_eq!(trim_partial_utf8_suffix("日".as_bytes()), "日".as_bytes());
}

#[test]
fn whole_characters_are_returned_with_each_push() {
    let text = "日志 naïve 🙂 done";
    let bytes = text.as_bytes();
    let mut decoder = StreamDecoder::new();
    let mut out = String::new();
    for at in 0..bytes.len() {
        out.push_str(&decoder.push(&bytes[at..at + 1]));
        let whole = match std::str::from_utf8(&bytes[..at + 1]) {
            Ok(whole) => whole,
            Err(err) => std::str::from_utf8(&bytes[..err.valid_up_to()]).unwrap(),
        };
        assert_eq!(out, whole);
        assert!(at + 1 - whole.len() <= 3);
    }
    assert_eq!(out, text);
    assert_eq!(decoder.flush(), "");
}
