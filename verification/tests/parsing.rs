use moho::{parse_template, FilteredVariable, IdentifierFault, ParseError, Variable};

fn names<'a>(variables: &[Variable<'a>]) -> Vec<&'a str> {
    variables.iter().map(|v| v.variable).collect()
}

#[test]
fn text_without_placeholders() {
    let source = "plain text, with {single} braces } and { more";
    let out = parse_template(source).unwrap();
    assert_eq!(out.original, source);
    assert_eq!(out.generated, source);
    assert_eq!(out.variables, vec![Variable::new("name")]);
    assert!(out.filtered.is_empty());
    assert!(!out.is_name_used);
}

#[test]
fn text_is_escaped_character_by_character() {
    let out = parse_template("a \"b\" $c `d` \\e").unwrap();
    assert_eq!(out.generated, "a \\\"b\\\" \\$c \\`d\\` \\\\e");
    assert_eq!(names(&out.variables), vec!["name"]);
}

#[test]
fn empty_template() {
    let out = parse_template("").unwrap();
    assert_eq!(out.generated, "");
    assert_eq!(out.original, "");
    assert_eq!(names(&out.variables), vec!["name"]);
    assert!(!out.is_name_used);
}

#[test]
fn closing_braces_outside_a_placeholder_are_text() {
    let out = parse_template("a }} b }}} c").unwrap();
    assert_eq!(out.generated, "a }} b }}} c");
    let out = parse_template("{{x}}}").unwrap();
    assert_eq!(out.generated, "${x}}");
    let out = parse_template("{{x}}}}").unwrap();
    assert_eq!(out.generated, "${x}}}");
}

#[test]
fn one_placeholder() {
    for source in ["{{x}}", "{{ x }}", "{{\tx\n}}", "{{   x}}", "{{x \u{2003}}}"] {
        let out = parse_template(source).unwrap();
        assert_eq!(out.generated, "${x}", "{:?}", source);
        assert_eq!(names(&out.variables), vec!["x", "name"]);
        assert!(out.filtered.is_empty());
        assert!(!out.is_name_used);
    }
}

#[test]
fn repeated_placeholder_is_one_variable() {
    let out = parse_template("{{ x }} and {{x}} and {{  x  }}{{x}}").unwrap();
    assert_eq!(out.generated, "${x} and ${x} and ${x}${x}");
    assert_eq!(names(&out.variables), vec!["x", "name"]);
}

#[test]
fn variables_keep_the_order_of_first_use() {
    let out = parse_template("{{ b }}{{ a }}{{ b }}{{ c | f }}{{ a }}").unwrap();
    assert_eq!(names(&out.variables), vec!["b", "a", "c", "name"]);
    assert_eq!(out.generated, "${b}${a}${b}${c_f}${a}");
}

#[test]
fn name_written_in_the_template() {
    let out = parse_template("{{ a }} {{ name }} {{ b }}").unwrap();
    assert_eq!(names(&out.variables), vec!["a", "name", "b"]);
    assert!(out.is_name_used);

    let out = parse_template("{{ name | upper }}").unwrap();
    assert_eq!(names(&out.variables), vec!["name"]);
    assert!(out.is_name_used);
    assert_eq!(out.generated, "${name_upper}");
}

#[test]
fn filter_chains_are_kept_once() {
    let out = parse_template("{{ a | f }} {{ a|f }} {{ a | g }} {{ b | f }} {{ a | f | g }}")
        .unwrap();
    assert_eq!(
        out.generated,
        "${a_f} ${a_f} ${a_g} ${b_f} ${a_f_g}"
    );
    assert_eq!(names(&out.variables), vec!["a", "b", "name"]);
    let chain = |variable, filters: Vec<&'static str>, name: &str| FilteredVariable {
        variable,
        filters,
        name: name.to_string(),
    };
    assert_eq!(
        out.filtered,
        vec![
            chain("a", vec!["f"], "a_f"),
            chain("a", vec!["g"], "a_g"),
            chain("b", vec!["f"], "b_f"),
            chain("a", vec!["f", "g"], "a_f_g"),
        ]
    );
}

#[test]
fn chains_with_one_name_but_other_segments_are_kept_apart() {
    // both chains are held under the name a_b_c
    let out = parse_template("{{ a_b | c }}{{ a | b_c }}").unwrap();
    assert_eq!(out.filtered.len(), 2);
    assert_eq!(out.filtered[0].name, "a_b_c");
    assert_eq!(out.filtered[1].name, "a_b_c");
    assert_eq!(names(&out.variables), vec!["a_b", "a", "name"]);
}

#[test]
fn nesting_fails() {
    assert_eq!(
        parse_template("{{ a {{ b }} }}").unwrap_err(),
        ParseError::NestedVariable
    );
    assert_eq!(
        parse_template("text {{ a{{").unwrap_err(),
        ParseError::NestedVariable
    );
    assert_eq!(
        parse_template("{{{{").unwrap_err(),
        ParseError::NestedVariable
    );
}

#[test]
fn truncation_fails() {
    for source in ["{{ a", "{{", "{{ a }", "text {{", "{{x}} {{ y", "{{{", "{{ a } }"] {
        assert_eq!(
            parse_template(source).unwrap_err(),
            ParseError::UnfinishedVariable,
            "{:?}",
            source
        );
    }
}

#[test]
fn the_first_error_is_reported() {
    let invalid = |token: &str, fault| ParseError::InvalidIdentifier {
        token: token.to_string(),
        fault,
    };
    assert_eq!(
        parse_template("{{ 1a }} {{ b {{").unwrap_err(),
        invalid("1a", IdentifierFault::BadStart)
    );
    assert_eq!(
        parse_template("{{ a {{ }} {{ 1a }}").unwrap_err(),
        ParseError::NestedVariable
    );
    assert_eq!(
        parse_template("{{ ok }} {{ a | b-c }} {{").unwrap_err(),
        invalid("b-c", IdentifierFault::BadCharacter)
    );
}

#[test]
fn bodies_that_are_no_identifiers() {
    let invalid = |token: &str, fault| ParseError::InvalidIdentifier {
        token: token.to_string(),
        fault,
    };
    assert_eq!(
        parse_template("this is a {{ demo that breaks }} because").unwrap_err(),
        invalid("demo that breaks", IdentifierFault::BadCharacter)
    );
    assert_eq!(
        parse_template("{{}}").unwrap_err(),
        invalid("", IdentifierFault::Blank)
    );
    assert_eq!(
        parse_template("{{   }}").unwrap_err(),
        invalid("", IdentifierFault::Blank)
    );
    assert_eq!(
        parse_template("{{ _ }}").unwrap_err(),
        invalid("_", IdentifierFault::Blank)
    );
    assert_eq!(
        parse_template("{{{ a }}").unwrap_err(),
        invalid("{ a", IdentifierFault::BadStart)
    );
    assert_eq!(
        parse_template("{{ a } }}").unwrap_err(),
        invalid("a }", IdentifierFault::BadCharacter)
    );
    assert_eq!(
        parse_template("{{ a | }}").unwrap_err(),
        invalid("", IdentifierFault::Blank)
    );
}

#[test]
fn text_before_a_placeholder_may_hold_any_character() {
    let out = parse_template("héllo — “{{ who }}” ✓ {{ who | upper }}").unwrap();
    assert_eq!(out.generated, "héllo — “${who}” ✓ ${who_upper}");
    assert_eq!(names(&out.variables), vec!["who", "name"]);
    assert_eq!(out.filtered[0].variable, "who");
}

#[test]
fn a_single_brace_before_a_placeholder() {
    // the first pair of braces opens the placeholder
    let out = parse_template("{ {{ a }}").unwrap();
    assert_eq!(out.generated, "{ ${a}");
    let out = parse_template("{{ a }}{").unwrap();
    assert_eq!(out.generated, "${a}{");
}

#[test]
fn parsing_a_skeleton_again_escapes_again() {
    let once = parse_template("cost: $5").unwrap();
    assert_eq!(once.generated, "cost: \\$5");
    let skeleton = once.generated.clone();
    let twice = parse_template(&skeleton).unwrap();
    assert_eq!(twice.generated, "cost: \\\\\\$5");

    // a skeleton without a character to escape parses to itself
    let once = parse_template("nothing to escape {here}").unwrap();
    let skeleton = once.generated.clone();
    let twice = parse_template(&skeleton).unwrap();
    assert_eq!(twice.generated, once.generated);
}
