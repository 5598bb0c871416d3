use std::path::{Path, PathBuf};

use moho::path::{extension_of, file_name_of, parent_len_of};
use moho::{escape, generate_bash_script, parse_template};

fn samples() -> Vec<String> {
    let names = [
        "", ".", "..", "a", "b.rs", ".hidden", "a.b.c", "x.", "..x", "...", "name.tar.gz", " ",
        ".a.b", "dir.d",
    ];
    let starts = ["", "/", "./", "//", "../", ".//", "/./", "a/", "a//b/", "a/./", "a/../", ".a/"];
    let ends = ["", "/", "//", "/.", "/./", "/..", "/./."];
    let mut out = Vec::new();
    for start in starts {
        for first in names {
            for end in ends {
                out.push(format!("{start}{first}{end}"));
            }
            for second in names {
                out.push(format!("{start}{first}/{second}"));
                out.push(format!("{start}{first}//{second}/"));
            }
        }
    }
    out
}

fn text(chars: &[char]) -> String {
    chars.iter().collect()
}

#[test]
fn parent_is_the_parent_of_the_standard_library() {
    for sample in samples() {
        let chars: Vec<char> = sample.chars().collect();
        let expected = Path::new(&sample)
            .parent()
            .map(|p| p.to_string_lossy().into_owned());
        let found = parent_len_of(&chars).map(|n| text(&chars[..n]));
        assert_eq!(found, expected, "{:?}", sample);
    }
}

#[test]
fn file_name_is_the_file_name_of_the_standard_library() {
    for sample in samples() {
        let chars: Vec<char> = sample.chars().collect();
        let expected = Path::new(&sample)
            .file_name()
            .map(|p| p.to_string_lossy().into_owned());
        let found = file_name_of(&chars).map(|(s, e)| text(&chars[s..e]));
        assert_eq!(found, expected, "{:?}", sample);
    }
}

#[test]
fn extension_is_the_extension_of_the_standard_library() {
    for sample in samples() {
        let chars: Vec<char> = sample.chars().collect();
        let expected = Path::new(&sample)
            .extension()
            .map(|p| p.to_string_lossy().into_owned());
        let found = extension_of(&chars).map(|(s, e)| text(&chars[s..e]));
        assert_eq!(found, expected, "{:?}", sample);
    }
}

fn with_stand_in(path: &str, stand_in: &str) -> String {
    let p = PathBuf::from(path);
    let replaced = match p.extension() {
        Some(ext) => p
            .with_file_name(format!("{stand_in}.meow"))
            .with_extension(ext),
        None => p.with_file_name(stand_in),
    };
    replaced.to_string_lossy().into_owned()
}

fn between<'a>(script: &'a str, from: &str, to: &str) -> &'a str {
    let start = script.find(from).unwrap() + from.len();
    let end = start + script[start..].find(to).unwrap();
    &script[start..end]
}

#[test]
fn script_paths_replace_the_file_name_as_the_standard_library_does() {
    for sample in samples() {
        let template = parse_template("x").unwrap();
        let script = generate_bash_script("demo", template, Some(sample.clone()));
        assert_eq!(
            between(&script, "      echo \"generates file at ", "\"\n"),
            with_stand_in(&sample, "NAME"),
            "{:?}",
            sample
        );
        assert_eq!(
            between(&script, "  echo \"$out\" > \"", "\"\n"),
            with_stand_in(&sample, "${name}"),
            "{:?}",
            sample
        );
        let made = if script.contains("  mkdir -p \"") {
            Some(between(&script, "  mkdir -p \"", "\"\n").to_string())
        } else {
            None
        };
        let expected = Path::new(&sample)
            .parent()
            .map(|p| p.to_string_lossy().into_owned());
        assert_eq!(made, expected, "{:?}", sample);
    }
}

#[test]
fn script_paths_are_escaped_but_for_the_name() {
    let path = "$HOME/\"my\" files/na`me.t$t";
    let template = parse_template("x").unwrap();
    let script = generate_bash_script("demo", template, Some(path.to_string()));
    let expected = format!(
        "{}/${{name}}{}",
        escape("$HOME/\"my\" files"),
        escape(".t$t")
    );
    assert_eq!(between(&script, "  if [ -f \"", "\" ] ; then\n"), expected);
    assert_eq!(
        between(&script, "  echo \"created file at ", "\";\n"),
        expected
    );
    assert_eq!(
        between(&script, "  mkdir -p \"", "\"\n"),
        escape("$HOME/\"my\" files")
    );
}

#[test]
fn paths_with_characters_of_any_width() {
    for sample in ["dé/nom.rs", "a/✓.tar.gz", "目录/文件.文", "x/…/y.z"] {
        let chars: Vec<char> = sample.chars().collect();
        let path = Path::new(sample);
        assert_eq!(
            parent_len_of(&chars).map(|n| text(&chars[..n])),
            path.parent().map(|p| p.to_string_lossy().into_owned())
        );
        assert_eq!(
            extension_of(&chars).map(|(s, e)| text(&chars[s..e])),
            path.extension().map(|p| p.to_string_lossy().into_owned())
        );
    }
}
