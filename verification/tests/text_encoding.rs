use remiaft::text_encoding::{
    accept_repair, cjk_score, decode_console_bytes, mojibake_score, repair_gbk_mojibake,
};

#[test]
fn decodes_raw_gbk_console_bytes() {
    assert_eq!(decode_console_bytes(&[0xce, 0xef, 0xc6, 0xb7]), "物品");
}

#[test]
fn repairs_utf8_text_containing_gbk_mojibake() {
    assert_eq!(
        decode_console_bytes("ÎïÆ· red µÄ²ÛÎ»ÎÞÐ§".as_bytes()),
        "物品 red 的槽位无效"
    );
}

#[test]
fn clean_text_is_not_repaired() {
    assert_eq!(repair_gbk_mojibake("plain text"), None);
    assert_eq!(decode_console_bytes("plain text".as_bytes()), "plain text");
    assert_eq!(decode_console_bytes("物品".as_bytes()), "物品");
}

#[test]
fn scores_count_characters() {
    assert_eq!(cjk_score("物a品"), 2);
    assert_eq!(cjk_score("abc"), 0);
    assert!(mojibake_score("ÎïÆ·") > 0);
    assert_eq!(mojibake_score("abc"), 0);
}

#[test]
fn repairs_with_errors_are_refused() {
    assert_eq!(accept_repair("ÎïÆ·", Some(("物品".to_string(), true))), None);
    assert_eq!(accept_repair("ÎïÆ·", None), None);
    assert_eq!(
        accept_repair("ÎïÆ·", Some(("物品".to_string(), false))).as_deref(),
        Some("物品")
    );
}
