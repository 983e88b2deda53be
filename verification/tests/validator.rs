use content_analyzer::content_types::{Field, Regex, Size, Validation};
use content_analyzer::entry::{LinkKind, NodeKey};
use content_analyzer::json::Json;
use content_analyzer::node::{LinkRef, LinkState, ResolvedNode};
use content_analyzer::validator::{
    admits_integer, admits_length, check_clause, check_in, check_link_content_type, check_regex,
    check_size, search_outcome, validate, Outcome, Rule, ValidationResult,
};

fn leaf_text(s: &str) -> ResolvedNode {
    ResolvedNode::Leaf(Json::Text(s.to_string()))
}

fn no_rules() -> Validation {
    Validation { unique: None, size: None, regex: None, link_content_type: None, in_: None }
}

fn sized(min: Option<i32>, max: Option<i32>) -> Validation {
    Validation { size: Some(Size { min, max }), ..no_rules() }
}

fn pattern(p: &str, flags: Option<&str>) -> Regex {
    Regex { pattern: p.to_string(), flags: flags.map(|f| f.to_string()) }
}

fn with_regex(p: &str, flags: Option<&str>) -> Validation {
    Validation { regex: Some(pattern(p, flags)), ..no_rules() }
}

fn one_of(values: Vec<&str>) -> Validation {
    Validation { in_: Some(values.into_iter().map(|v| v.to_string()).collect()), ..no_rules() }
}

fn linked_to(names: Vec<&str>) -> Validation {
    Validation {
        link_content_type: Some(names.into_iter().map(|v| v.to_string()).collect()),
        ..no_rules()
    }
}

fn a_field(type_: &str, validations: Vec<Validation>) -> Field {
    Field {
        id: "f".to_string(),
        name: "F".to_string(),
        type_: type_.to_string(),
        required: false,
        localized: false,
        validations,
        disabled: false,
        omitted: false,
    }
}

fn a_link(state: LinkState, content_type: Option<&str>) -> ResolvedNode {
    ResolvedNode::Link(LinkRef {
        target: NodeKey { kind: LinkKind::Entry, id: "t".to_string() },
        state,
        content_type: content_type.map(|c| c.to_string()),
    })
}

#[test]
fn size_one_to_ten_on_text() {
    let field = a_field("Symbol", vec![sized(Some(1), Some(10))]);
    assert_eq!(validate(&field, &leaf_text("")), ValidationResult::Invalid(vec![Rule::Size]));
    assert_eq!(
        validate(&field, &leaf_text("12345678901")),
        ValidationResult::Invalid(vec![Rule::Size])
    );
    assert_eq!(validate(&field, &leaf_text("1")), ValidationResult::Valid);
    assert_eq!(validate(&field, &leaf_text("1234567890")), ValidationResult::Valid);
}

#[test]
fn size_with_one_bound_constrains_one_side() {
    let at_least = a_field("Symbol", vec![sized(Some(2), None)]);
    assert_eq!(validate(&at_least, &leaf_text("a")), ValidationResult::Invalid(vec![Rule::Size]));
    assert_eq!(validate(&at_least, &leaf_text("ab")), ValidationResult::Valid);
    assert_eq!(validate(&at_least, &leaf_text(&"x".repeat(5000))), ValidationResult::Valid);
    let at_most = a_field("Symbol", vec![sized(None, Some(2))]);
    assert_eq!(validate(&at_most, &leaf_text("")), ValidationResult::Valid);
    assert_eq!(validate(&at_most, &leaf_text("ab")), ValidationResult::Valid);
    assert_eq!(validate(&at_most, &leaf_text("abc")), ValidationResult::Invalid(vec![Rule::Size]));
    let open = a_field("Symbol", vec![sized(None, None)]);
    assert_eq!(validate(&open, &leaf_text("")), ValidationResult::Valid);
}

#[test]
fn size_counts_characters_not_bytes() {
    let size = Size { min: None, max: Some(3) };
    assert_eq!(check_size(&size, &leaf_text("äöü")), Outcome::Pass);
    assert_eq!(check_size(&size, &leaf_text("äöüß")), Outcome::Fail);
}

#[test]
fn size_on_arrays_integers_and_links() {
    let size = Size { min: Some(2), max: Some(3) };
    let array = |n: usize| ResolvedNode::Leaf(Json::Array(vec![Json::Null; 0].into_iter().chain((0..n).map(|_| Json::Null)).collect()));
    assert_eq!(check_size(&size, &array(1)), Outcome::Fail);
    assert_eq!(check_size(&size, &array(2)), Outcome::Pass);
    assert_eq!(check_size(&size, &array(4)), Outcome::Fail);
    assert_eq!(check_size(&size, &ResolvedNode::Leaf(Json::Integer(3))), Outcome::Pass);
    assert_eq!(check_size(&size, &ResolvedNode::Leaf(Json::Integer(-3))), Outcome::Fail);
    assert_eq!(check_size(&size, &ResolvedNode::Leaf(Json::Integer(i64::MAX))), Outcome::Fail);
    let links = |n: usize| {
        ResolvedNode::Links(
            (0..n)
                .map(|i| LinkRef {
                    target: NodeKey { kind: LinkKind::Asset, id: i.to_string() },
                    state: LinkState::Resolved,
                    content_type: None,
                })
                .collect(),
        )
    };
    assert_eq!(check_size(&size, &links(3)), Outcome::Pass);
    assert_eq!(check_size(&size, &links(0)), Outcome::Fail);
}

#[test]
fn size_is_inert_on_values_without_a_size() {
    let size = Size { min: Some(5), max: Some(6) };
    assert_eq!(check_size(&size, &ResolvedNode::Leaf(Json::Bool(true))), Outcome::Pass);
    assert_eq!(check_size(&size, &ResolvedNode::Leaf(Json::Null)), Outcome::Pass);
    assert_eq!(check_size(&size, &ResolvedNode::Leaf(Json::Decimal("0.5".to_string()))), Outcome::Pass);
    assert_eq!(check_size(&size, &a_link(LinkState::Resolved, None)), Outcome::Pass);
}

#[test]
fn bounds_on_lengths_and_integers() {
    let negative = Size { min: Some(-5), max: Some(-1) };
    assert!(!admits_length(&negative, 0));
    assert!(admits_integer(&negative, -5));
    assert!(admits_integer(&negative, -1));
    assert!(!admits_integer(&negative, 0));
    assert!(!admits_integer(&negative, -6));
    let wide = Size { min: Some(i32::MIN), max: Some(i32::MAX) };
    assert!(admits_length(&wide, 0));
    assert!(admits_length(&wide, i32::MAX as usize));
    assert!(!admits_length(&wide, i32::MAX as usize + 1));
    assert!(!admits_integer(&wide, i64::MIN));
}

#[test]
fn regex_matches_anywhere_in_the_text() {
    let digits = pattern("[0-9]+", None);
    assert_eq!(check_regex(&digits, &leaf_text("abc123")), Outcome::Pass);
    assert_eq!(check_regex(&digits, &leaf_text("abc")), Outcome::Fail);
    let anchored = pattern("^[a-z]+$", None);
    assert_eq!(check_regex(&anchored, &leaf_text("abc")), Outcome::Pass);
    assert_eq!(check_regex(&anchored, &leaf_text("abc1")), Outcome::Fail);
    assert_eq!(check_regex(&pattern("abc", None), &leaf_text("abc")), Outcome::Pass);
    assert_eq!(check_regex(&pattern("abc", None), &leaf_text("xyz")), Outcome::Fail);
}

#[test]
fn regex_flags_switch_matching_modes() {
    assert_eq!(check_regex(&pattern("^hello$", None), &leaf_text("HELLO")), Outcome::Fail);
    assert_eq!(check_regex(&pattern("^hello$", Some("i")), &leaf_text("HELLO")), Outcome::Pass);
    assert_eq!(check_regex(&pattern("^hello$", Some("gi")), &leaf_text("HELLO")), Outcome::Pass);
    assert_eq!(check_regex(&pattern("^b$", None), &leaf_text("a\nb")), Outcome::Fail);
    assert_eq!(check_regex(&pattern("^b$", Some("m")), &leaf_text("a\nb")), Outcome::Pass);
    assert_eq!(check_regex(&pattern("a.b", None), &leaf_text("a\nb")), Outcome::Fail);
    assert_eq!(check_regex(&pattern("a.b", Some("s")), &leaf_text("a\nb")), Outcome::Pass);
    assert_eq!(check_regex(&pattern("^hello$", Some("g")), &leaf_text("HELLO")), Outcome::Fail);
}

#[test]
fn regex_that_does_not_compile_leaves_the_rule_open() {
    let broken = pattern("foo(bar", None);
    assert_eq!(check_regex(&broken, &leaf_text("foo(bar")), Outcome::Unknown);
    let field = a_field("Symbol", vec![with_regex("foo(bar", None)]);
    assert_eq!(validate(&field, &leaf_text("x")), ValidationResult::Indeterminate(vec![Rule::Regex]));
}

#[test]
fn regex_is_inert_on_values_that_are_not_text() {
    let digits = pattern("^[0-9]+$", None);
    assert_eq!(check_regex(&digits, &ResolvedNode::Leaf(Json::Integer(12))), Outcome::Pass);
    assert_eq!(check_regex(&digits, &ResolvedNode::Leaf(Json::Bool(false))), Outcome::Pass);
    assert_eq!(check_regex(&digits, &a_link(LinkState::Unresolved, None)), Outcome::Pass);
    let field = a_field("Integer", vec![with_regex("^x$", None)]);
    assert_eq!(validate(&field, &ResolvedNode::Leaf(Json::Integer(5))), ValidationResult::Valid);
}

#[test]
fn search_answers_map_to_outcomes() {
    assert_eq!(search_outcome(Some(true)), Outcome::Pass);
    assert_eq!(search_outcome(Some(false)), Outcome::Fail);
    assert_eq!(search_outcome(None), Outcome::Unknown);
}

#[test]
fn enumeration_admits_listed_strings_only() {
    let allowed = vec!["red".to_string(), "green".to_string()];
    assert_eq!(check_in(&allowed, &leaf_text("green")), Outcome::Pass);
    assert_eq!(check_in(&allowed, &leaf_text("Green")), Outcome::Fail);
    assert_eq!(check_in(&allowed, &leaf_text("")), Outcome::Fail);
    assert_eq!(check_in(&vec![], &leaf_text("red")), Outcome::Fail);
    assert_eq!(check_in(&allowed, &ResolvedNode::Leaf(Json::Integer(1))), Outcome::Pass);
    let field = a_field("Symbol", vec![one_of(vec!["red"])]);
    assert_eq!(validate(&field, &leaf_text("blue")), ValidationResult::Invalid(vec![Rule::In]));
    assert_eq!(validate(&field, &leaf_text("red")), ValidationResult::Valid);
}

#[test]
fn link_content_type_on_a_link_field() {
    let field = a_field("Link", vec![linked_to(vec!["Author"])]);
    assert_eq!(validate(&field, &a_link(LinkState::Resolved, Some("Author"))), ValidationResult::Valid);
    assert_eq!(validate(&field, &a_link(LinkState::Cyclic, Some("Author"))), ValidationResult::Valid);
    assert_eq!(
        validate(&field, &a_link(LinkState::Resolved, Some("BlogPost"))),
        ValidationResult::Invalid(vec![Rule::LinkContentType])
    );
    assert_eq!(
        validate(&field, &a_link(LinkState::Resolved, None)),
        ValidationResult::Invalid(vec![Rule::LinkContentType])
    );
    assert_eq!(
        validate(&field, &a_link(LinkState::Unresolved, None)),
        ValidationResult::Indeterminate(vec![Rule::LinkContentType])
    );
}

#[test]
fn link_content_type_applies_to_link_fields_only() {
    let allowed = vec!["Author".to_string()];
    let symbol = a_field("Symbol", vec![]);
    assert_eq!(
        check_link_content_type(&symbol, &allowed, &a_link(LinkState::Resolved, Some("BlogPost"))),
        Outcome::Pass
    );
    let link = a_field("Link", vec![]);
    assert_eq!(check_link_content_type(&link, &allowed, &leaf_text("BlogPost")), Outcome::Pass);
    assert_eq!(
        check_link_content_type(&link, &allowed, &a_link(LinkState::Resolved, Some("BlogPost"))),
        Outcome::Fail
    );
    assert_eq!(
        check_link_content_type(&link, &allowed, &a_link(LinkState::Unresolved, None)),
        Outcome::Unknown
    );
}

#[test]
fn absent_clauses_have_no_outcome() {
    let field = a_field("Symbol", vec![]);
    let empty = no_rules();
    let node = leaf_text("x");
    assert_eq!(check_clause(&field, &empty, &node, Rule::Size), None);
    assert_eq!(check_clause(&field, &empty, &node, Rule::Regex), None);
    assert_eq!(check_clause(&field, &empty, &node, Rule::In), None);
    assert_eq!(check_clause(&field, &empty, &node, Rule::LinkContentType), None);
    assert_eq!(check_clause(&field, &sized(Some(2), None), &node, Rule::Size), Some(Outcome::Fail));
    assert_eq!(check_clause(&field, &one_of(vec!["x"]), &node, Rule::In), Some(Outcome::Pass));
}

#[test]
fn rules_combine_across_entries_and_clauses() {
    let both = Validation {
        unique: None,
        size: Some(Size { min: Some(5), max: None }),
        regex: Some(pattern("^[0-9]+$", None)),
        link_content_type: None,
        in_: Some(vec!["abc".to_string()]),
    };
    let field = a_field("Symbol", vec![one_of(vec!["zzz"]), both]);
    assert_eq!(
        validate(&field, &leaf_text("abc")),
        ValidationResult::Invalid(vec![Rule::In, Rule::Size, Rule::Regex])
    );
    assert_eq!(
        validate(&field, &leaf_text("zzz")),
        ValidationResult::Invalid(vec![Rule::Size, Rule::Regex, Rule::In])
    );
}

#[test]
fn a_failing_rule_outweighs_an_open_one() {
    let field = a_field("Symbol", vec![with_regex("(", None), sized(Some(5), None)]);
    assert_eq!(validate(&field, &leaf_text("abc")), ValidationResult::Invalid(vec![Rule::Size]));
    assert_eq!(
        validate(&field, &leaf_text("abcdef")),
        ValidationResult::Indeterminate(vec![Rule::Regex])
    );
}

#[test]
fn uniqueness_is_recorded_but_not_enforced() {
    let unique = Validation { unique: Some(true), ..no_rules() };
    let field = a_field("Symbol", vec![no_rules(), unique]);
    assert!(field.is_unique());
    assert_eq!(validate(&field, &leaf_text("anything")), ValidationResult::Valid);
    let not_unique = Validation { unique: Some(false), ..no_rules() };
    assert!(!a_field("Symbol", vec![not_unique, no_rules()]).is_unique());
    assert!(!a_field("Symbol", vec![]).is_unique());
}

#[test]
fn field_without_validations_is_valid() {
    let field = a_field("Symbol", vec![]);
    assert_eq!(validate(&field, &leaf_text("")), ValidationResult::Valid);
    assert_eq!(validate(&field, &a_link(LinkState::Unresolved, None)), ValidationResult::Valid);
}
