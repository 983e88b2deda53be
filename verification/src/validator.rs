//! Checks a resolved field value against the validation rules that the
//! schema declares on the field.
//!
//! Every clause of every validation entry is checked on its own, and a value
//! must pass them all. A clause that has no meaning for the value at hand is
//! inert. The uniqueness marker is never checked: it needs knowledge of other
//! entries, which the backend has and this library has not.

use vstd::prelude::*;
use crate::content_types::{
    field_type_of, Field, FieldType, FieldView, Regex, RegexView, Size, Validation,
    ValidationView,
};
use crate::json::{Json, JsonValue};
use crate::node::{LinkRefView, LinkState, ResolvedNode, ResolvedNodeView};
use crate::seqs::{lemma_flatten_none, lemma_flatten_step};
use crate::text::{contains_char, contains_text};

verus! {

/// The rules that the validator enforces.
#[derive(Clone, Copy, Debug, PartialEq, Eq)]
pub enum Rule {
    Size,
    Regex,
    In,
    LinkContentType,
}

/// How one clause fares on one value.
#[derive(Clone, Copy, Debug, PartialEq, Eq)]
pub enum Outcome {
    /// The value conforms, or the clause does not apply to it.
    Pass,
    /// The value breaks the clause.
    Fail,
    /// The clause applies but cannot be evaluated.
    Unknown,
}

/// The verdict on a field value.
#[derive(Debug, PartialEq, Eq)]
pub enum ValidationResult {
    /// No clause fails and none is left open.
    Valid,
    /// The rules of the clauses that fail, in declared order.
    Invalid(Vec<Rule>),
    /// No clause fails, but these could not be evaluated.
    Indeterminate(Vec<Rule>),
}

/// The mathematical value of a [`ValidationResult`].
pub enum Verdict {
    Valid,
    Invalid(Seq<Rule>),
    Indeterminate(Seq<Rule>),
}

impl DeepView for ValidationResult {
    type V = Verdict;

    open spec fn deep_view(&self) -> Verdict {
        match self {
            ValidationResult::Valid => Verdict::Valid,
            ValidationResult::Invalid(rules) => Verdict::Invalid(rules@),
            ValidationResult::Indeterminate(rules) => Verdict::Indeterminate(rules@),
        }
    }
}

impl View for ValidationResult {
    type V = Verdict;

    open spec fn view(&self) -> Verdict {
        self.deep_view()
    }
}

/// `n` lies within the bounds; a missing bound admits everything on its side.
pub open spec fn size_admits(size: Size, n: int) -> bool {
    &&& size.min matches Some(lo) ==> lo <= n
    &&& size.max matches Some(hi) ==> n <= hi
}

/// What the size rule measures: the length of a text in characters, the
/// length of an array, or the value of an integer. Other values have no
/// size; a number that is kept as decimal text is among them.
pub open spec fn measure(node: ResolvedNodeView) -> Option<int> {
    match node {
        ResolvedNodeView::Leaf(JsonValue::Text(s)) => Some(s.len() as int),
        ResolvedNodeView::Leaf(JsonValue::Array(items)) => Some(items.len() as int),
        ResolvedNodeView::Leaf(JsonValue::Integer(k)) => Some(k),
        ResolvedNodeView::Links(links) => Some(links.len() as int),
        _ => None,
    }
}

/// The size rule applies to what has a size, and passes on the rest.
pub open spec fn size_outcome(size: Size, node: ResolvedNodeView) -> Outcome {
    match measure(node) {
        Some(n) => if size_admits(size, n) {
            Outcome::Pass
        } else {
            Outcome::Fail
        },
        None => Outcome::Pass,
    }
}

/// What the pattern engine answers when `pattern`, compiled with the three
/// switches, is searched for anywhere in `text`: `Some(true)` or
/// `Some(false)` for a pattern that compiles, `None` for one that does not.
pub uninterp spec fn pattern_search(
    pattern: Seq<char>,
    case_insensitive: bool,
    multi_line: bool,
    dot_matches_new_line: bool,
    text: Seq<char>,
) -> Option<bool>;

/// Whether the flag letter `c` is among the flags.
pub open spec fn has_flag(flags: Option<Seq<char>>, c: char) -> bool {
    flags matches Some(letters) && letters.contains(c)
}

/// The outcome that an answer of the pattern engine stands for.
pub open spec fn outcome_of_search(found: Option<bool>) -> Outcome {
    match found {
        Some(true) => Outcome::Pass,
        Some(false) => Outcome::Fail,
        None => Outcome::Unknown,
    }
}

/// The regex rule applies to text only. The flags `i`, `m` and `s` switch on
/// case-insensitive, multi-line and dot-matches-newline matching; other
/// letters change nothing about whether a match exists.
pub open spec fn regex_outcome(regex: RegexView, node: ResolvedNodeView) -> Outcome {
    match node {
        ResolvedNodeView::Leaf(JsonValue::Text(s)) => outcome_of_search(
            pattern_search(
                regex.pattern,
                has_flag(regex.flags, 'i'),
                has_flag(regex.flags, 'm'),
                has_flag(regex.flags, 's'),
                s,
            ),
        ),
        _ => Outcome::Pass,
    }
}

/// The enumeration rule applies to text only.
pub open spec fn in_outcome(allowed: Seq<Seq<char>>, node: ResolvedNodeView) -> Outcome {
    match node {
        ResolvedNodeView::Leaf(JsonValue::Text(s)) => if allowed.contains(s) {
            Outcome::Pass
        } else {
            Outcome::Fail
        },
        _ => Outcome::Pass,
    }
}

/// The rule on a single link: open while the target is unresolved; else the
/// name of the target's content type must be allowed. A target whose content
/// type the schema does not know, an asset for one, is not allowed.
pub open spec fn link_outcome(allowed: Seq<Seq<char>>, link: LinkRefView) -> Outcome {
    if link.state == LinkState::Unresolved {
        Outcome::Unknown
    } else {
        match link.content_type {
            Some(name) => if allowed.contains(name) {
                Outcome::Pass
            } else {
                Outcome::Fail
            },
            None => Outcome::Fail,
        }
    }
}

/// The link-content-type rule applies to a single link in a field whose
/// declared type is `Link`.
pub open spec fn link_type_outcome(
    tag: Seq<char>,
    allowed: Seq<Seq<char>>,
    node: ResolvedNodeView,
) -> Outcome {
    if field_type_of(tag) == Some(FieldType::Link) {
        match node {
            ResolvedNodeView::Link(link) => link_outcome(allowed, link),
            _ => Outcome::Pass,
        }
    } else {
        Outcome::Pass
    }
}

/// `rule`, where its clause is present and comes out as `wanted`.
pub open spec fn pick(rule: Rule, outcome: Option<Outcome>, wanted: Outcome) -> Seq<Rule> {
    if outcome == Some(wanted) {
        seq![rule]
    } else {
        Seq::empty()
    }
}

/// The outcome of each clause of one validation entry; `None` for an absent clause.
pub open spec fn clause_outcome(
    tag: Seq<char>,
    validation: ValidationView,
    node: ResolvedNodeView,
    rule: Rule,
) -> Option<Outcome> {
    match rule {
        Rule::Size => match validation.size {
            Some(size) => Some(size_outcome(size, node)),
            None => None,
        },
        Rule::Regex => match validation.regex {
            Some(regex) => Some(regex_outcome(regex, node)),
            None => None,
        },
        Rule::In => match validation.in_ {
            Some(allowed) => Some(in_outcome(allowed, node)),
            None => None,
        },
        Rule::LinkContentType => match validation.link_content_type {
            Some(allowed) => Some(link_type_outcome(tag, allowed, node)),
            None => None,
        },
    }
}

/// The rules of one validation entry whose clauses come out as `wanted`, in
/// the order size, regex, enumeration, link content type.
pub open spec fn entry_rules(
    tag: Seq<char>,
    validation: ValidationView,
    node: ResolvedNodeView,
    wanted: Outcome,
) -> Seq<Rule> {
    pick(Rule::Size, clause_outcome(tag, validation, node, Rule::Size), wanted) + pick(
        Rule::Regex,
        clause_outcome(tag, validation, node, Rule::Regex),
        wanted,
    ) + pick(Rule::In, clause_outcome(tag, validation, node, Rule::In), wanted) + pick(
        Rule::LinkContentType,
        clause_outcome(tag, validation, node, Rule::LinkContentType),
        wanted,
    )
}

/// For each validation entry of a field, the rules whose clauses come out as `wanted`.
pub open spec fn field_parts(field: FieldView, node: ResolvedNodeView, wanted: Outcome) -> Seq<
    Seq<Rule>,
> {
    field.validations.map_values(|v: ValidationView| entry_rules(field.type_, v, node, wanted))
}

/// The rules of a field whose clauses come out as `wanted`, over all the
/// validation entries in declared order.
pub open spec fn field_rules(field: FieldView, node: ResolvedNodeView, wanted: Outcome) -> Seq<
    Rule,
> {
    field_parts(field, node, wanted).flatten()
}

/// The verdict on a value: invalid with every failing rule if any clause
/// fails; else indeterminate with every open rule if any clause is open;
/// else valid.
pub open spec fn verdict(field: FieldView, node: ResolvedNodeView) -> Verdict {
    let failed = field_rules(field, node, Outcome::Fail);
    let open = field_rules(field, node, Outcome::Unknown);
    if failed.len() > 0 {
        Verdict::Invalid(failed)
    } else if open.len() > 0 {
        Verdict::Indeterminate(open)
    } else {
        Verdict::Valid
    }
}

/// Tests a length against the bounds.
pub fn admits_length(size: &Size, n: usize) -> (ok: bool)
    ensures
        ok == size_admits(*size, n as int),
{
    let above = match size.min {
        Some(lo) => lo < 0 || lo as usize <= n,
        None => true,
    };
    let below = match size.max {
        Some(hi) => hi >= 0 && n <= hi as usize,
        None => true,
    };
    above && below
}

/// Tests an integer against the bounds.
pub fn admits_integer(size: &Size, k: i64) -> (ok: bool)
    ensures
        ok == size_admits(*size, k as int),
{
    let above = match size.min {
        Some(lo) => lo as i64 <= k,
        None => true,
    };
    let below = match size.max {
        Some(hi) => k <= hi as i64,
        None => true,
    };
    above && below
}

fn outcome_of(ok: bool) -> (outcome: Outcome)
    ensures
        outcome == if ok {
            Outcome::Pass
        } else {
            Outcome::Fail
        },
{
    if ok {
        Outcome::Pass
    } else {
        Outcome::Fail
    }
}

/// Applies a size clause to a value.
pub fn check_size(size: &Size, node: &ResolvedNode) -> (outcome: Outcome)
    ensures
        outcome == size_outcome(*size, node@),
{
    match node {
        ResolvedNode::Leaf(Json::Text(s)) => outcome_of(
            admits_length(size, s.as_str().unicode_len()),
        ),
        ResolvedNode::Leaf(Json::Array(items)) => {
            proof {
                node->Leaf_0.lemma_array_view();
            }
            outcome_of(admits_length(size, items.len()))
        },
        ResolvedNode::Leaf(Json::Integer(k)) => outcome_of(admits_integer(size, *k)),
        ResolvedNode::Links(links) => outcome_of(admits_length(size, links.len())),
        _ => Outcome::Pass,
    }
}

/// Compiles `pattern` with `regex::RegexBuilder` (its `case_insensitive`,
/// `multi_line` and `dot_matches_new_line` switches set as given, all else at
/// the default) and asks `regex::Regex::is_match` whether the pattern matches
/// anywhere in `text`. The answer is taken on trust to depend on these five
/// arguments alone; `None` stands for a pattern that the builder refuses.
#[verifier::external_body]
fn search(
    pattern: &str,
    case_insensitive: bool,
    multi_line: bool,
    dot_matches_new_line: bool,
    text: &str,
) -> (found: Option<bool>)
    ensures
        found == pattern_search(
            pattern@,
            case_insensitive,
            multi_line,
            dot_matches_new_line,
            text@,
        ),
{
    let built = regex::RegexBuilder::new(pattern)
        .case_insensitive(case_insensitive)
        .multi_line(multi_line)
        .dot_matches_new_line(dot_matches_new_line)
        .build();
    match built {
        Ok(compiled) => Some(compiled.is_match(text)),
        Err(_) => None,
    }
}

/// Turns an answer of the pattern engine into an outcome: a match passes, no
/// match fails, and a pattern that does not compile leaves the clause open.
pub fn search_outcome(found: Option<bool>) -> (outcome: Outcome)
    ensures
        outcome == outcome_of_search(found),
{
    match found {
        Some(true) => Outcome::Pass,
        Some(false) => Outcome::Fail,
        None => Outcome::Unknown,
    }
}

fn flag(flags: &Option<String>, c: char) -> (set: bool)
    ensures
        set == has_flag(flags.deep_view(), c),
{
    match flags {
        Some(letters) => contains_char(letters.as_str(), c),
        None => false,
    }
}

/// Applies a regex clause to a value.
pub fn check_regex(regex: &Regex, node: &ResolvedNode) -> (outcome: Outcome)
    ensures
        outcome == regex_outcome(regex@, node@),
{
    match node {
        ResolvedNode::Leaf(Json::Text(s)) => {
            let found = search(
                regex.pattern.as_str(),
                flag(&regex.flags, 'i'),
                flag(&regex.flags, 'm'),
                flag(&regex.flags, 's'),
                s.as_str(),
            );
            search_outcome(found)
        },
        _ => Outcome::Pass,
    }
}

/// Applies an enumeration clause to a value.
pub fn check_in(allowed: &Vec<String>, node: &ResolvedNode) -> (outcome: Outcome)
    ensures
        outcome == in_outcome(allowed.deep_view(), node@),
{
    match node {
        ResolvedNode::Leaf(Json::Text(s)) => outcome_of(contains_text(allowed, s.as_str())),
        _ => Outcome::Pass,
    }
}

/// Applies a link-content-type clause to the value of `field`.
pub fn check_link_content_type(
    field: &Field,
    allowed: &Vec<String>,
    node: &ResolvedNode,
) -> (outcome: Outcome)
    ensures
        outcome == link_type_outcome(field@.type_, allowed.deep_view(), node@),
{
    match field.field_type() {
        Some(FieldType::Link) => {},
        _ => {
            return Outcome::Pass;
        },
    }
    match node {
        ResolvedNode::Link(link) => {
            match link.state {
                LinkState::Unresolved => Outcome::Unknown,
                _ => match &link.content_type {
                    Some(name) => outcome_of(contains_text(allowed, name.as_str())),
                    None => Outcome::Fail,
                },
            }
        },
        _ => Outcome::Pass,
    }
}

/// The outcome of one clause of a validation entry; `None` where the entry
/// does not carry the clause.
pub fn check_clause(
    field: &Field,
    validation: &Validation,
    node: &ResolvedNode,
    rule: Rule,
) -> (outcome: Option<Outcome>)
    ensures
        outcome == clause_outcome(field@.type_, validation@, node@, rule),
{
    match rule {
        Rule::Size => match &validation.size {
            Some(size) => Some(check_size(size, node)),
            None => None,
        },
        Rule::Regex => match &validation.regex {
            Some(regex) => Some(check_regex(regex, node)),
            None => None,
        },
        Rule::In => match &validation.in_ {
            Some(allowed) => Some(check_in(allowed, node)),
            None => None,
        },
        Rule::LinkContentType => match &validation.link_content_type {
            Some(allowed) => Some(check_link_content_type(field, allowed, node)),
            None => None,
        },
    }
}

/// Files `rule` under the failed or the open rules, according to its outcome.
fn record(rule: Rule, outcome: Option<Outcome>, failed: &mut Vec<Rule>, open: &mut Vec<Rule>)
    ensures
        final(failed)@ == old(failed)@ + pick(rule, outcome, Outcome::Fail),
        final(open)@ == old(open)@ + pick(rule, outcome, Outcome::Unknown),
{
    match outcome {
        Some(Outcome::Fail) => {
            failed.push(rule);
        },
        Some(Outcome::Unknown) => {
            open.push(rule);
        },
        _ => {},
    }
    assert(failed@ =~= old(failed)@ + pick(rule, outcome, Outcome::Fail));
    assert(open@ =~= old(open)@ + pick(rule, outcome, Outcome::Unknown));
}

/// Decides whether a resolved field value conforms to the rules declared on
/// its field.
pub fn validate(field: &Field, node: &ResolvedNode) -> (result: ValidationResult)
    ensures
        result@ == verdict(field@, node@),
{
    let mut failed: Vec<Rule> = Vec::new();
    let mut open: Vec<Rule> = Vec::new();
    let ghost failing = field_parts(field@, node@, Outcome::Fail);
    let ghost unknown = field_parts(field@, node@, Outcome::Unknown);
    proof {
        lemma_flatten_none(failing);
        lemma_flatten_none(unknown);
    }
    let mut i: usize = 0;
    while i < field.validations.len()
        invariant
            i <= field.validations.len(),
            field@.validations.len() == field.validations.len(),
            failing == field_parts(field@, node@, Outcome::Fail),
            unknown == field_parts(field@, node@, Outcome::Unknown),
            failed@ == failing.take(i as int).flatten(),
            open@ == unknown.take(i as int).flatten(),
        decreases field.validations.len() - i,
    {
        let validation = &field.validations[i];
        assert(validation@ == field@.validations[i as int]);
        let ghost failed_before = failed@;
        let ghost open_before = open@;
        record(
            Rule::Size,
            check_clause(field, validation, node, Rule::Size),
            &mut failed,
            &mut open,
        );
        record(
            Rule::Regex,
            check_clause(field, validation, node, Rule::Regex),
            &mut failed,
            &mut open,
        );
        record(Rule::In, check_clause(field, validation, node, Rule::In), &mut failed, &mut open);
        record(
            Rule::LinkContentType,
            check_clause(field, validation, node, Rule::LinkContentType),
            &mut failed,
            &mut open,
        );
        proof {
            lemma_flatten_step(failing, i as int);
            lemma_flatten_step(unknown, i as int);
            assert(failed@ =~= failed_before + failing[i as int]);
            assert(open@ =~= open_before + unknown[i as int]);
        }
        i += 1;
    }
    proof {
        assert(failing.take(i as int) =~= failing);
        assert(unknown.take(i as int) =~= unknown);
    }
    if failed.len() > 0 {
        ValidationResult::Invalid(failed)
    } else if open.len() > 0 {
        ValidationResult::Indeterminate(open)
    } else {
        ValidationResult::Valid
    }
}

} // verus!
