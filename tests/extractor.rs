use select_save::extractor::Extractor;

fn extractor(json: &str) -> Extractor {
    match Extractor::new(json) {
        Ok(e) => e,
        Err(e) => panic!("config refused: {}", e.message),
    }
}

#[test]
fn zero_padded_single_byte() {
    let e = extractor(r#"{"srm": ["{0x10:03}"]}"#);
    let mut content = vec![0u8; 0x20];
    content[0x10] = 5;
    assert_eq!(e.extract("srm", &content), vec!["005".to_string()]);
}

#[test]
fn range_is_little_endian() {
    let e = extractor(r#"{"srm": ["{0x00~0x01}"]}"#);
    assert_eq!(e.extract("srm", &[0x34, 0x12]), vec!["4660".to_string()]);
}

#[test]
fn out_of_range_offset_reads_question_marks() {
    let e = extractor(r#"{"srm": ["Level {0x00} of {0x40}", "{0x01~0x05}"]}"#);
    assert_eq!(
        e.extract("srm", &[7, 1]),
        vec!["Level 7 of ??".to_string(), "??".to_string()]
    );
}

#[test]
fn space_padding_and_plain_decimal() {
    let e = extractor(r#"{"sav": ["[{0:4}]", "{1}", "{0x0~0x1:+2}"]}"#);
    assert_eq!(
        e.extract("sav", &[7, 1]),
        vec!["[   7]".to_string(), "1".to_string(), "263".to_string()]
    );
}

#[test]
fn reversed_range_is_zero() {
    let e = extractor(r#"{"sav": ["{0x01~0x00}"]}"#);
    assert_eq!(e.extract("sav", &[9, 9]), vec!["0".to_string()]);
}

#[test]
fn bad_subpatterns_read_question_marks() {
    let e = extractor(r#"{"sav": ["{0x00:x}", "{zz}", "{0x0~}", "{}", "a{b", "{{0}"]}"#);
    assert_eq!(
        e.extract("sav", &[3]),
        vec![
            "??".to_string(),
            "??".to_string(),
            "??".to_string(),
            "{}".to_string(),
            "a{b".to_string(),
            "??".to_string()
        ]
    );
}

#[test]
fn eight_bytes_read_as_signed() {
    let e = extractor(r#"{"sav": ["{0~7}", "{0~7:05}"]}"#);
    assert_eq!(
        e.extract("sav", &[0xff; 8]),
        vec!["-1".to_string(), "-0001".to_string()]
    );
}

#[test]
fn unknown_extension_gives_nothing() {
    let e = extractor(r#"{"srm": ["{0}"]}"#);
    assert!(e.extract("sav", &[1]).is_empty());
    assert!(e.templates_for("sav").is_none());
    assert_eq!(e.templates_for("srm").map(|t| t.len()), Some(1));
}

#[test]
fn malformed_config_is_refused() {
    assert!(Extractor::new("{\"srm\": 3}").is_err());
    assert!(Extractor::new("not json").is_err());
    assert!(Extractor::new("{}").is_ok());
}

#[test]
fn subpattern_alone() {
    let e = extractor("{}");
    assert_eq!(e.extract_subpattern(&[0, 2], "0x1:3"), Some("  2".to_string()));
    assert_eq!(e.extract_subpattern(&[0, 2], "0x0x1"), None);
    assert_eq!(e.extract_subpattern(&[7], "+0"), None);
    assert_eq!(e.extract_subpattern(&[7], "0x"), None);
    assert_eq!(e.extract_subpattern(&[7], "0x1~0x2~0x3"), None);
    assert_eq!(e.extract_subpattern(&[7], "0X0"), None);
    assert_eq!(e.extract_subpattern(&[0, 2], "2"), None);
    assert_eq!(e.extract_pattern(&[4], "x{0}y"), "x4y".to_string());
}

#[test]
fn out_of_range_region_inside_a_template() {
    let e = extractor(r#"{"srm": ["L{0x05}", "a{0x05}b{0x00}c"]}"#);
    assert_eq!(
        e.extract("srm", &[1, 2]),
        vec!["L??".to_string(), "a??b1c".to_string()]
    );
}
