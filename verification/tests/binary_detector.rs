use refac::binary_detector::{
    extension, is_binary_extension, is_printable_ascii, is_valid_utf8_start, BinaryDetector,
    BinaryReason, ContentKind,
};

#[test]
fn test_binary_extension_detection() {
    let detector = BinaryDetector::default();

    assert!(detector.is_binary_by_extension("test.exe"));
    assert!(detector.is_binary_by_extension("test.jpg"));
    assert!(detector.is_binary_by_extension("test.pdf"));
    assert!(detector.is_binary_by_extension("TEST.EXE"));

    assert!(!detector.is_binary_by_extension("test.txt"));
    assert!(!detector.is_binary_by_extension("test.rs"));
    assert!(!detector.is_binary_by_extension("test.py"));
    assert!(!detector.is_binary_by_extension("Makefile"));
}

#[test]
fn test_text_file_detection() {
    let detector = BinaryDetector::default();
    let data = b"This is a text file with some content.\nIt has multiple lines and should be detected as text.\n";

    assert!(detector.is_text_file("test.txt", data));
    assert!(!detector.is_binary("test.txt", data));
}

#[test]
fn test_binary_file_detection() {
    let detector = BinaryDetector::default();
    let data = [0x00u8, 0x01, 0x02, 0x03, 0xFF, 0xFE, 0xFD];

    assert!(!detector.is_text_file("test.bin", &data));
    assert!(detector.is_binary("test.bin", &data));
    assert!(detector.is_binary("test.txt", &data));
}

#[test]
fn test_empty_file_detection() {
    let detector = BinaryDetector::default();

    assert!(detector.is_text_file("empty.txt", &[]));
    assert!(!detector.is_binary("empty.txt", &[]));
}

#[test]
fn test_utf8_file_detection() {
    let detector = BinaryDetector::default();
    let text = "Hello, 世界! 🌍\nThis file contains émojis and unicode characters: 日本語\n";

    assert!(detector.is_text_file("unicode.txt", text.as_bytes()));
    assert!(!detector.is_binary("unicode.txt", text.as_bytes()));
}

#[test]
fn test_binary_reason() {
    let detector = BinaryDetector::default();

    let reason = detector.get_binary_reason("test.exe", &[]);
    assert!(reason.is_some());
    assert!(reason.unwrap().message().contains("extension"));

    let reason = detector.get_binary_reason("test.bin", b"some text\x00more text");
    assert!(reason.is_some());
    let reason_str = reason.unwrap().message();
    assert!(
        reason_str.contains("extension") || reason_str.contains("null")
            || reason_str.contains("binary")
    );

    let reason = detector.get_binary_reason("test.txt", b"This is just text\n");
    assert!(reason.is_none());
}

#[test]
fn test_printable_ascii() {
    assert!(is_printable_ascii(b' '));
    assert!(is_printable_ascii(b'A'));
    assert!(is_printable_ascii(b'0'));
    assert!(is_printable_ascii(b'~'));
    assert!(is_printable_ascii(b'\t'));
    assert!(is_printable_ascii(b'\n'));
    assert!(is_printable_ascii(b'\r'));

    assert!(!is_printable_ascii(0x00));
    assert!(!is_printable_ascii(0x01));
    assert!(!is_printable_ascii(0x7F));
    assert!(!is_printable_ascii(0x80));
    assert!(!is_printable_ascii(0xFF));
}

#[test]
fn test_utf8_start_detection() {
    assert!(is_valid_utf8_start(0x41));
    assert!(is_valid_utf8_start(0xC2));
    assert!(is_valid_utf8_start(0xE0));
    assert!(is_valid_utf8_start(0xF0));

    assert!(!is_valid_utf8_start(0x80));
    assert!(!is_valid_utf8_start(0xBF));
    assert!(!is_valid_utf8_start(0xF8));
    assert!(!is_valid_utf8_start(0xFF));
}

#[test]
fn extension_is_what_follows_the_last_dot() {
    assert_eq!(extension("archive.tar.gz"), Some("gz".to_string()));
    assert_eq!(extension("a."), Some(String::new()));
    assert_eq!(extension(".hidden"), None);
    assert_eq!(extension(".."), None);
    assert_eq!(extension("Makefile"), None);
    assert_eq!(extension(""), None);
    assert_eq!(extension(".config.json"), Some("json".to_string()));
}

#[test]
fn sniffing_reads_marks_nul_bytes_and_magic_numbers() {
    let detector = BinaryDetector::default();
    // A mark at the start makes a text of the sample, as long as it holds no NUL byte.
    assert!(!detector.is_binary("notes.txt", &[0xEF, 0xBB, 0xBF, b'a']));
    assert!(!detector.is_binary("notes.txt", &[0xFF, 0xFE, b'a', 0x01]));
    assert!(detector.is_binary("notes.txt", &[0xFF, 0xFE, b'a', 0x00]));
    assert!(detector.is_binary("notes.txt", &[0xEF, 0xBB, 0xBF, b'a', 0x00]));
    assert_eq!(
        detector.get_binary_reason("notes.txt", &[0xEF, 0xBB, 0xBF, b'a', 0x00]),
        Some(BinaryReason::NullBytes)
    );
    assert!(detector.is_binary("notes.txt", b"%PDF-1.4 text"));
    assert!(detector.is_binary("notes.txt", b"\x89PNG"));
    assert!(!detector.is_binary("notes.txt", b"PDF"));
    assert_eq!(
        detector.get_binary_reason("notes.txt", b"ab\x00"),
        Some(BinaryReason::ContentInspection)
    );
}

#[test]
fn a_nul_byte_anywhere_in_the_sample_makes_a_file_binary() {
    let detector = BinaryDetector::default();
    for at in [0usize, 1023, 1024, 2000, 8191] {
        let mut data = vec![b'a'; 9000];
        data[at] = 0;
        assert!(detector.is_binary("data.txt", &data));
        assert!(!detector.is_text_file("data.txt", &data));
        assert!(detector.get_binary_reason("data.txt", &data).is_some());
    }
    let mut late = vec![b'a'; 9000];
    late[2000] = 0;
    assert_eq!(detector.get_binary_reason("data.txt", &late), Some(BinaryReason::NullBytes));
    // What lies behind the sample is not looked at.
    let mut behind = vec![b'a'; 9000];
    behind[8192] = 0;
    assert!(!detector.is_binary("data.txt", &behind));
    assert_eq!(detector.get_binary_reason("data.txt", &behind), None);
}

#[test]
fn only_the_sample_is_looked_at() {
    let detector = BinaryDetector::new(4, 30);
    assert_eq!(detector.sample(b"abcdefgh"), b"abcd");
    assert_eq!(detector.sample(b"ab"), b"ab");
    assert!(!detector.is_binary("data.txt", b"abcd\x00"));
    assert!(detector.is_binary("data.txt", b"abc\x00"));
}

#[test]
fn statistics_decide_where_sniffing_gave_no_answer() {
    let detector = BinaryDetector::default();
    assert!(!detector.is_binary_by_content_analysis(&[]));
    assert!(detector.is_binary_by_content_analysis(b"a\x00b"));
    // 3 of 10 out of place is not above 30 in a hundred; 4 of 10 is.
    let three = [0x80u8, 0x80, 0x80, b'a', b'a', b'a', b'a', b'a', b'a', b'a'];
    let four = [0x80u8, 0x80, 0x80, 0xF8, b'a', b'a', b'a', b'a', b'a', b'a'];
    assert!(!detector.is_binary_by_content_analysis(&three));
    assert!(detector.is_binary_by_content_analysis(&four));
    // Control characters and lead bytes are not out of place.
    assert!(!detector.is_binary_by_content_analysis(&[0x01, 0x02, 0xC2, 0xE0]));

    assert!(!detector.decide(false, None, &three));
    assert!(detector.decide(false, None, &four));
    assert!(detector.decide(true, Some(ContentKind::Utf8), &three));
    assert!(detector.decide(false, Some(ContentKind::Binary), &three));
    assert!(!detector.decide(false, Some(ContentKind::Utf16Le), &four));
    // A NUL byte decides whatever the sniffing said.
    assert!(detector.decide(false, Some(ContentKind::Utf16Le), b"a\x00"));
    assert!(detector.decide(false, Some(ContentKind::Utf8), b"a\x00"));
    assert!(!detector.decide(false, Some(ContentKind::Utf8), b"a"));
}

#[test]
fn the_reason_agrees_with_the_verdict() {
    let detector = BinaryDetector::default();
    let four = [0x80u8, 0x80, 0x80, 0xF8, b'a', b'a', b'a', b'a', b'a', b'a'];
    assert_eq!(detector.explain(true, None, &four), Some(BinaryReason::Extension));
    assert_eq!(
        detector.explain(false, Some(ContentKind::Binary), &four),
        Some(BinaryReason::ContentInspection)
    );
    assert_eq!(detector.explain(false, Some(ContentKind::Utf8), &four), None);
    assert_eq!(
        detector.explain(false, Some(ContentKind::Utf8), b"a\x00"),
        Some(BinaryReason::NullBytes)
    );
    assert_eq!(detector.explain(false, None, b"a\x00"), Some(BinaryReason::NullBytes));
    assert_eq!(
        detector.explain(false, None, &four),
        Some(BinaryReason::NonPrintableRatio { non_printable: 4, total: 10 })
    );
    assert_eq!(detector.explain(false, None, b"plain"), None);
    assert_eq!(detector.explain(false, None, &[]), None);
    assert_eq!(BinaryReason::NullBytes.message(), "Contains null bytes");
    assert_eq!(
        BinaryReason::NonPrintableRatio { non_printable: 4, total: 10 }.message(),
        "High ratio of non-printable characters"
    );
}

#[test]
fn the_table_lists_extensions_in_lower_case() {
    for known in ["exe", "zip", "png", "mp4", "mp3", "pdf", "sqlite3", "o", "qcow2", "7z"] {
        assert!(is_binary_extension(known));
    }
    for unknown in ["txt", "rs", "EXE", "", "exe ", ".exe", "md"] {
        assert!(!is_binary_extension(unknown));
    }
    let detector = BinaryDetector::default();
    assert!(detector.is_binary_by_extension("archive.tar.GZ"));
    assert!(detector.is_binary_by_extension("photo.JpEg"));
    assert!(!detector.is_binary_by_extension(".exe"));
    assert!(!detector.is_binary_by_extension("exe"));
}
