use moho::parse::{fault_in, parse_filtered_variable};
use moho::{validate_ident, FilteredVariable, IdentifierFault, ParseError};

fn fault_of(token: &str) -> Option<IdentifierFault> {
    match validate_ident(token) {
        Ok(()) => None,
        Err(ParseError::InvalidIdentifier { token: named, fault }) => {
            assert_eq!(named, token);
            Some(fault)
        }
        Err(other) => panic!("unexpected error {:?}", other),
    }
}

#[test]
fn identifiers_that_pass() {
    for token in ["a_1", "_x", "a", "Z", "__", "_1", "name", "snake_case_9", "CamelCase"] {
        assert_eq!(fault_of(token), None, "{}", token);
    }
}

#[test]
fn identifiers_that_fail() {
    assert_eq!(fault_of("_"), Some(IdentifierFault::Blank));
    assert_eq!(fault_of(""), Some(IdentifierFault::Blank));
    assert_eq!(fault_of("1abc"), Some(IdentifierFault::BadStart));
    assert_eq!(fault_of("a-b"), Some(IdentifierFault::BadCharacter));
}

#[test]
fn rules_are_checked_in_order() {
    // a bad start is reported before a bad character behind it
    assert_eq!(fault_of("-a-"), Some(IdentifierFault::BadStart));
    assert_eq!(fault_of("9"), Some(IdentifierFault::BadStart));
    assert_eq!(fault_of(" a"), Some(IdentifierFault::BadStart));
    assert_eq!(fault_of("a "), Some(IdentifierFault::BadCharacter));
    assert_eq!(fault_of("a b"), Some(IdentifierFault::BadCharacter));
    assert_eq!(fault_of("a|b"), Some(IdentifierFault::BadCharacter));
}

#[test]
fn identifiers_are_ascii() {
    assert_eq!(fault_of("é"), Some(IdentifierFault::BadStart));
    assert_eq!(fault_of("aé"), Some(IdentifierFault::BadCharacter));
    assert_eq!(fault_of("a١"), Some(IdentifierFault::BadCharacter));
    assert_eq!(fault_of("_\u{0301}"), Some(IdentifierFault::BadCharacter));
}

#[test]
fn fault_in_reads_the_run_only() {
    let chars: Vec<char> = "!!abc-d??".chars().collect();
    assert_eq!(fault_in(&chars, 2, 5), None);
    assert_eq!(fault_in(&chars, 2, 7), Some(IdentifierFault::BadCharacter));
    assert_eq!(fault_in(&chars, 1, 5), Some(IdentifierFault::BadStart));
    assert_eq!(fault_in(&chars, 3, 3), Some(IdentifierFault::Blank));
}

#[test]
fn messages_name_token_and_rule() {
    let message = |token: &str| validate_ident(token).unwrap_err().message();
    assert_eq!(message("_"), "identifier _ can't be empty or a single underscore");
    assert_eq!(message(""), "identifier  can't be empty or a single underscore");
    assert_eq!(
        message("1abc"),
        "identifier 1abc has to start with a letter or an underscore"
    );
    assert_eq!(message("a-b"), "identifier a-b contains invalid characters");
    assert_eq!(
        ParseError::NestedVariable.message(),
        "nested variables are not allowed"
    );
    assert_eq!(
        ParseError::UnfinishedVariable.message(),
        "variable was unfinished"
    );
    assert_eq!(
        ParseError::EmptyFilterChain.message(),
        "variable should have at least one ident"
    );
}

#[test]
fn chain_with_two_filters() {
    let chain = parse_filtered_variable("a | f | g").unwrap();
    assert_eq!(
        chain,
        FilteredVariable {
            variable: "a",
            filters: vec!["f", "g"],
            name: "a_f_g".to_string()
        }
    );
}

#[test]
fn chain_segments_are_trimmed() {
    let chain = parse_filtered_variable("  value\t|upper |\u{a0}lower  ").unwrap();
    assert_eq!(chain.variable, "value");
    assert_eq!(chain.filters, vec!["upper", "lower"]);
    assert_eq!(chain.name, "value_upper_lower");
}

#[test]
fn chain_without_bar_is_the_variable_alone() {
    let chain = parse_filtered_variable(" hey ").unwrap();
    assert_eq!(chain.variable, "hey");
    assert!(chain.filters.is_empty());
    assert_eq!(chain.name, "hey");
}

#[test]
fn chain_reports_the_first_bad_segment() {
    let invalid = |token: &str, fault| ParseError::InvalidIdentifier {
        token: token.to_string(),
        fault,
    };
    assert_eq!(
        parse_filtered_variable("a | 1f | g-"),
        Err(invalid("1f", IdentifierFault::BadStart))
    );
    assert_eq!(
        parse_filtered_variable("a b | f"),
        Err(invalid("a b", IdentifierFault::BadCharacter))
    );
    assert_eq!(
        parse_filtered_variable("a |"),
        Err(invalid("", IdentifierFault::Blank))
    );
    assert_eq!(
        parse_filtered_variable("|"),
        Err(invalid("", IdentifierFault::Blank))
    );
    assert_eq!(
        parse_filtered_variable("a | _ | f"),
        Err(invalid("_", IdentifierFault::Blank))
    );
    assert_eq!(
        parse_filtered_variable(""),
        Err(invalid("", IdentifierFault::Blank))
    );
}
