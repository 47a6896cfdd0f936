use rke2_image_manager::clipboard::{base64_encode, copied_message, copy_text, osc52_sequence};
use rke2_image_manager::log_viewer::LogSelection;

#[test]
fn base64_standard_vectors() {
    let cases = [
        ("", ""),
        ("f", "Zg=="),
        ("fo", "Zm8="),
        ("foo", "Zm9v"),
        ("foob", "Zm9vYg=="),
        ("fooba", "Zm9vYmE="),
        ("foobar", "Zm9vYmFy"),
    ];
    for (plain, encoded) in cases {
        assert_eq!(base64_encode(plain.as_bytes()), encoded);
    }
    assert_eq!(base64_encode(&[0xfb, 0xff]), "+/8=");
    assert_eq!(base64_encode("é✓".as_bytes()), "w6ninJM=");
}

#[test]
fn osc52_wraps_the_encoding() {
    assert_eq!(osc52_sequence("hi"), "\x1b]52;c;aGk=\x07");
}

#[test]
fn copy_takes_selection_or_whole_log() {
    let lines = vec!["STEP 1".to_string(), "STEP 2".to_string()];
    let none = LogSelection::default();
    assert_eq!(copy_text(&none, &lines), "STEP 1\nSTEP 2");
    let mut sel = LogSelection::default();
    sel.start(0, 5);
    sel.update(1, 4);
    assert_eq!(copy_text(&sel, &lines), "1\nSTEP");
    assert_eq!(copy_text(&none, &[]), "");
}

#[test]
fn copied_message_reports_bytes() {
    assert_eq!(copied_message(42), "Copied selection to clipboard (42 bytes)");
}
