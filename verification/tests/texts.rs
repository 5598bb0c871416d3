use moho::text::{chars_of, is_whitespace, same_text, trim_range};

#[test]
fn white_space_is_the_unicode_property() {
    for code in 0..=0x10FFFFu32 {
        if let Some(c) = char::from_u32(code) {
            assert_eq!(is_whitespace(c), c.is_whitespace(), "U+{:04X}", code);
        }
    }
}

#[test]
fn chars_of_gives_the_characters() {
    assert_eq!(chars_of(""), Vec::<char>::new());
    assert_eq!(chars_of("aé✓"), vec!['a', 'é', '✓']);
}

#[test]
fn same_text_compares_characters() {
    assert!(same_text("", ""));
    assert!(same_text("name", "name"));
    assert!(!same_text("name", "Name"));
    assert!(!same_text("name", "names"));
    assert!(!same_text("é", "e\u{301}"));
    let owned = String::from("hey");
    assert!(same_text(&owned, "hey"));
}

#[test]
fn trim_range_trims_like_str_trim() {
    let samples = [
        "",
        " ",
        "a",
        "  a  ",
        "\t a b \n",
        "\u{a0}x\u{2003}",
        " \u{200b} ",
        "a \u{3000}",
        "\u{85}\u{1680}y z\u{2028}\u{2029}",
    ];
    for sample in samples {
        let chars: Vec<char> = sample.chars().collect();
        let (a, b) = trim_range(&chars, 0, chars.len());
        let trimmed: String = chars[a..b].iter().collect();
        assert_eq!(trimmed, sample.trim(), "{:?}", sample);
    }
}

#[test]
fn trim_range_stays_in_the_run() {
    let chars: Vec<char> = "  ab  cd  ".chars().collect();
    assert_eq!(trim_range(&chars, 3, 7), (3, 7));
    assert_eq!(trim_range(&chars, 4, 6), (6, 6));
    assert_eq!(trim_range(&chars, 0, 4), (2, 4));
    assert_eq!(trim_range(&chars, 5, 5), (5, 5));
}
