use moho::helpers::{escaped_answer, shell_special};
use moho::{generate_bash_script, parse_template};

/// What a shell reads between double quotes, where nothing is left to expand.
fn read_back(quoted: &str) -> String {
    let mut out = String::new();
    let mut chars = quoted.chars().peekable();
    while let Some(c) = chars.next() {
        if c == '\\' {
            match chars.peek() {
                Some(&next) if shell_special(next) => {
                    out.push(next);
                    chars.next();
                }
                _ => out.push(c),
            }
        } else {
            out.push(c);
        }
    }
    out
}

/// The word that the script echoes for `command`, between its double quotes.
fn echoed<'a>(script: &'a str, command: &str) -> &'a str {
    let from = format!("if [ \"$1\" = \"{command}\" ]; then\necho \"");
    let start = script.find(&from).unwrap() + from.len();
    let end = start + script[start..].find("\"\nfi\n").unwrap();
    &script[start..end]
}

#[test]
fn get_template_gives_the_template_back() {
    let sources = [
        "hello {{ hi }} {{ hey | upper }} hii",
        "price: $5, \"quoted\", `ticks` and back\\slash {{ x }}",
        "",
        "line one\nline two {{ a | f | g }}\n",
    ];
    for source in sources {
        let template = parse_template(source).unwrap();
        let script = generate_bash_script("demo", template, None);
        assert_eq!(read_back(echoed(&script, "get-template")), source);
    }
}

#[test]
fn get_vars_gives_path_defaults_and_descriptions_back() {
    let mut template = parse_template("{{ first }} {{ second }} {{ third | upper }}").unwrap();
    template.variables[0].default = escaped_answer("plain value\n");
    template.variables[0].description = escaped_answer("the first one");
    template.variables[1].default = escaped_answer("costs $5 at `home`");
    template.variables[2].description = escaped_answer("shown in upper case");
    let script = generate_bash_script(
        "demo",
        template,
        Some("./some dir/$sub/name.tar.gz".to_string()),
    );

    let payload = read_back(echoed(&script, "get-vars"));
    let values: toml::Value = toml::from_str(&payload).unwrap();

    assert_eq!(
        values.get("default_path").and_then(|v| v.as_str()),
        Some("./some dir/$sub/name.tar.gz")
    );
    let defaults = values.get("defaults").and_then(|v| v.as_table()).unwrap();
    assert_eq!(defaults.len(), 2);
    assert_eq!(defaults["first"].as_str(), Some("plain value"));
    assert_eq!(defaults["second"].as_str(), Some("costs $5 at `home`"));
    let descriptions = values
        .get("descriptions")
        .and_then(|v| v.as_table())
        .unwrap();
    assert_eq!(descriptions.len(), 2);
    assert_eq!(descriptions["first"].as_str(), Some("the first one"));
    assert_eq!(descriptions["third"].as_str(), Some("shown in upper case"));
}

#[test]
fn get_vars_without_values() {
    let template = parse_template("{{ a }}").unwrap();
    let script = generate_bash_script("demo", template, None);
    let payload = read_back(echoed(&script, "get-vars"));
    let values: toml::Value = toml::from_str(&payload).unwrap();
    assert!(values.get("default_path").is_none());
    assert!(values["defaults"].as_table().unwrap().is_empty());
    assert!(values["descriptions"].as_table().unwrap().is_empty());
}
