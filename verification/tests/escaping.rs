use moho::escape;
use moho::helpers::{escaped_answer, push_escaped, push_escaped_run, push_run, shell_special};

#[test]
fn escape_puts_one_backslash_before_each_sensitive_character() {
    assert_eq!(escape("\""), "\\\"");
    assert_eq!(escape("$"), "\\$");
    assert_eq!(escape("`"), "\\`");
    assert_eq!(escape("\\"), "\\\\");
    assert_eq!(escape("say \"hi\" to $USER"), "say \\\"hi\\\" to \\$USER");
    assert_eq!(escape("a\\$b"), "a\\\\\\$b");
}

#[test]
fn escape_leaves_other_text_alone() {
    assert_eq!(escape(""), "");
    assert_eq!(escape("plain 'text' {with} #other! chars\n"), "plain 'text' {with} #other! chars\n");
    assert_eq!(escape("ünï©ødé ✓"), "ünï©ødé ✓");
}

#[test]
fn escape_adds_one_character_for_each_sensitive_one() {
    let text = "a\"b$c`d\\e\"\"$$";
    let sensitive = text.chars().filter(|c| shell_special(*c)).count();
    assert_eq!(sensitive, 8);
    assert_eq!(escape(text).chars().count(), text.chars().count() + sensitive);
}

fn read_back(escaped: &str) -> String {
    // what a shell reads between double quotes
    let mut out = String::new();
    let mut chars = escaped.chars().peekable();
    while let Some(c) = chars.next() {
        if c == '\\' {
            match chars.peek() {
                Some(&next) if shell_special(next) => {
                    out.push(next);
                    chars.next();
                }
                _ => out.push(c),
            }
        } else {
            out.push(c);
        }
    }
    out
}

#[test]
fn escaped_text_reads_back_as_the_text() {
    for text in ["", "a", "$", "\\", "\\\\", "\\$", "a\"b", "`x` and \\`y\\`", "\\n"] {
        assert_eq!(read_back(&escape(text)), text);
    }
}

#[test]
fn only_four_characters_are_sensitive() {
    let mut found = Vec::new();
    for code in 0..=0x10FFFFu32 {
        if let Some(c) = char::from_u32(code) {
            if shell_special(c) {
                found.push(c);
            }
        }
    }
    assert_eq!(found, vec!['"', '$', '\\', '`']);
}

#[test]
fn pushing_runs() {
    let chars: Vec<char> = "ab$cd".chars().collect();
    let mut out = String::from(">");
    push_run(&mut out, &chars, 1, 4);
    assert_eq!(out, ">b$c");
    push_escaped_run(&mut out, &chars, 1, 4);
    assert_eq!(out, ">b$cb\\$c");
    push_escaped(&mut out, '`');
    push_escaped(&mut out, 'x');
    assert_eq!(out, ">b$cb\\$c\\`x");
    push_run(&mut out, &chars, 2, 2);
    assert_eq!(out, ">b$cb\\$c\\`x");
}

#[test]
fn answers_are_trimmed_and_escaped() {
    assert_eq!(escaped_answer(""), None);
    assert_eq!(escaped_answer("  \t\n"), None);
    assert_eq!(escaped_answer("value\n"), Some("value".to_string()));
    assert_eq!(
        escaped_answer("  two words \r\n"),
        Some("two words".to_string())
    );
    assert_eq!(
        escaped_answer(" $HOME and \"more\" \n"),
        Some("\\$HOME and \\\"more\\\"".to_string())
    );
    assert_eq!(escaped_answer("\\"), Some("\\\\".to_string()));
}
