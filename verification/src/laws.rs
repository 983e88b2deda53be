//! What holds of every content type, every verdict and every resolution,
//! proved from the definitions in `content_types`, `validator` and `resolver`.

use vstd::prelude::*;
use crate::content_types::{
    field_type_of, ContentType, ContentTypeView, FieldType, FieldView, Size, ValidationView,
};
use crate::entry::{EntryView, FieldValueView, NodeKeyView, Payload, PayloadView};
use crate::json::JsonValue;
use crate::graph::{has_edge, is_walk, lemma_walk_suffix, reaches};
use crate::node::{
    DiagnosticKind, DiagnosticView, LinkRefView, LinkState, ResolvedEntryView, ResolvedNodeView,
};
use crate::resolver::{
    declared_parts, diagnostic_parts, emitted, entry_diagnostics, find_in, finding_parts, home,
    included_parts, keys_of, link_finding, link_graph, link_state, link_targets, report_parts,
    resolution_of, resolved_fields, resolved_link, resolved_value, rule_findings, slot_findings,
    slots, successor, successor_parts, successors, tagged, target_parts, top_level, type_of,
};
use crate::seqs::{
    lemma_flatten_empty_parts, lemma_flatten_member, lemma_flatten_none, lemma_flatten_step,
    lemma_part_member, lemma_position,
};
use crate::validator::{
    entry_rules, field_parts, field_rules, size_admits, verdict, Outcome, Rule, Verdict,
};

verus! {

/// Every link of node `a` has a target among the nodes.
pub open spec fn targets_present(
    nodes: Seq<EntryView>,
    schema: Seq<ContentTypeView>,
    a: int,
) -> bool {
    forall|t: int|
        0 <= t < link_targets(schema, nodes[a]).len() ==> find_in(
            nodes,
            #[trigger] link_targets(schema, nodes[a])[t],
        ) is Some
}

/// A payload without top-level entries resolves to nothing: no entries, no
/// included entries and no diagnostics, whatever the pool and the schema hold.
pub proof fn lemma_empty_top_level(payload: PayloadView, schema: Seq<ContentTypeView>)
    requires
        payload.items.len() == 0,
    ensures
        resolution_of(payload, schema).entries == Seq::<ResolvedEntryView>::empty(),
        resolution_of(payload, schema).included == Seq::<ResolvedEntryView>::empty(),
        resolution_of(payload, schema).diagnostics == Seq::<DiagnosticView>::empty(),
{
    let nodes = payload.nodes();
    assert(top_level(0).len() == 0);
    assert forall|a: int| 0 <= a < nodes.len() implies !emitted(nodes, schema, 0, a) by {
    }
    lemma_flatten_empty_parts(included_parts(nodes, schema, 0));
    lemma_flatten_empty_parts(report_parts(nodes, schema, 0));
    assert(resolution_of(payload, schema).entries =~= Seq::empty());
}

/// The findings of the validator are never link findings.
proof fn lemma_rule_findings(verdict: Verdict, j: int)
    requires
        0 <= j < rule_findings(verdict).len(),
    ensures
        rule_findings(verdict)[j] != DiagnosticKind::Unresolved,
        rule_findings(verdict)[j] != DiagnosticKind::Cyclic,
{
}

/// The links of a resolved value stand for the targets of the raw value, one by one.
proof fn lemma_links_of_value(
    nodes: Seq<EntryView>,
    schema: Seq<ContentTypeView>,
    a: int,
    value: FieldValueView,
)
    ensures
        resolved_value(nodes, schema, a, value).links().len() == value.targets().len(),
        forall|p: int|
            0 <= p < value.targets().len() ==> #[trigger] resolved_value(
                nodes,
                schema,
                a,
                value,
            ).links()[p] == resolved_link(nodes, schema, a, value.targets()[p]),
{
}

/// Where every link of an entry has a target, none of the entry's
/// diagnostics reports an unresolved link.
pub proof fn lemma_entry_without_unresolved(
    nodes: Seq<EntryView>,
    schema: Seq<ContentTypeView>,
    a: int,
    k: int,
)
    requires
        0 <= a < nodes.len(),
        targets_present(nodes, schema, a),
        0 <= k < entry_diagnostics(nodes, schema, a).len(),
    ensures
        entry_diagnostics(nodes, schema, a)[k].kind != DiagnosticKind::Unresolved,
{
    let parts = diagnostic_parts(nodes, schema, a);
    let at = lemma_flatten_member(parts, k);
    let slot = slots(schema, nodes[a])[at.0];
    let node = resolved_value(nodes, schema, a, slot.value);
    let findings = slot_findings(slot, node);
    assert(parts[at.0] == tagged(nodes[a].key, slot.id, findings));
    let kind = findings[at.1];
    assert(entry_diagnostics(nodes, schema, a)[k].kind == kind);
    let on_links = finding_parts(node.links()).flatten();
    if at.1 < on_links.len() {
        let link_at = lemma_flatten_member(finding_parts(node.links()), at.1);
        let link = node.links()[link_at.0];
        assert(link_finding(link)[link_at.1] == kind);
        if kind == DiagnosticKind::Unresolved {
            lemma_links_of_value(nodes, schema, a, slot.value);
            let target = slot.value.targets()[link_at.0];
            assert(link == resolved_link(nodes, schema, a, target));
            assert(find_in(nodes, target) is None);
            assert(target_parts(slots(schema, nodes[a]))[at.0] == slot.value.targets());
            let t = lemma_part_member(target_parts(slots(schema, nodes[a])), at.0, link_at.0);
            assert(link_targets(schema, nodes[a])[t] == target);
        }
    } else {
        match slot.rules {
            Some(field) => {
                lemma_rule_findings(verdict(field, node), at.1 - on_links.len());
            },
            None => {},
        }
    }
}

/// Where every link of an entry has a target, none of the links in the
/// entry's resolved fields is marked unresolved.
pub proof fn lemma_entry_without_unresolved_links(
    nodes: Seq<EntryView>,
    schema: Seq<ContentTypeView>,
    a: int,
    k: int,
    p: int,
)
    requires
        0 <= a < nodes.len(),
        targets_present(nodes, schema, a),
        0 <= k < resolved_fields(nodes, schema, a).len(),
        0 <= p < resolved_fields(nodes, schema, a)[k].value.links().len(),
    ensures
        resolved_fields(nodes, schema, a)[k].value.links()[p].state != LinkState::Unresolved,
{
    let slot = slots(schema, nodes[a])[k];
    lemma_links_of_value(nodes, schema, a, slot.value);
    let target = slot.value.targets()[p];
    assert(target_parts(slots(schema, nodes[a]))[k] == slot.value.targets());
    let t = lemma_part_member(target_parts(slots(schema, nodes[a])), k, p);
    assert(link_targets(schema, nodes[a])[t] == target);
}

/// Where every link of every resolved entry has a target in the pool or at
/// the top level, no diagnostic of the resolution reports an unresolved link.
pub proof fn lemma_no_unresolved(payload: PayloadView, schema: Seq<ContentTypeView>, k: int)
    requires
        forall|a: int|
            0 <= a < payload.nodes().len() && #[trigger] emitted(
                payload.nodes(),
                schema,
                payload.items.len(),
                a,
            ) ==> targets_present(payload.nodes(), schema, a),
        0 <= k < resolution_of(payload, schema).diagnostics.len(),
    ensures
        resolution_of(payload, schema).diagnostics[k].kind != DiagnosticKind::Unresolved,
{
    let nodes = payload.nodes();
    let parts = report_parts(nodes, schema, payload.items.len());
    let at = lemma_flatten_member(parts, k);
    assert(emitted(nodes, schema, payload.items.len(), at.0));
    lemma_entry_without_unresolved(nodes, schema, at.0, at.1);
}

/// Every resolved field of an entry whose content type the schema knows is
/// a declared field of that type that is neither disabled nor omitted.
pub proof fn lemma_resolved_fields_are_active(
    nodes: Seq<EntryView>,
    schema: Seq<ContentTypeView>,
    a: int,
    k: int,
) -> (at: int)
    requires
        type_of(schema, nodes[a]) is Some,
        0 <= k < resolved_fields(nodes, schema, a).len(),
    ensures
        0 <= at < type_of(schema, nodes[a])->Some_0.fields.len(),
        type_of(schema, nodes[a])->Some_0.fields[at].id == resolved_fields(nodes, schema, a)[k].id,
        type_of(schema, nodes[a])->Some_0.fields[at].is_active(),
{
    let content_type = type_of(schema, nodes[a])->Some_0;
    let parts = declared_parts(nodes[a], content_type.fields);
    let found = lemma_flatten_member(parts, k);
    found.0
}

/// A single link whose target no node carries is marked unresolved, and the
/// links of its field give rise to exactly one finding, an unresolved one.
pub proof fn lemma_absent_target_marked_once(
    nodes: Seq<EntryView>,
    schema: Seq<ContentTypeView>,
    a: int,
    target: NodeKeyView,
)
    requires
        find_in(nodes, target) is None,
    ensures
        resolved_value(nodes, schema, a, FieldValueView::Link(target))
            == ResolvedNodeView::Link(resolved_link(nodes, schema, a, target)),
        resolved_link(nodes, schema, a, target).state == LinkState::Unresolved,
        finding_parts(
            resolved_value(nodes, schema, a, FieldValueView::Link(target)).links(),
        ).flatten() == seq![DiagnosticKind::Unresolved],
{
    let node = resolved_value(nodes, schema, a, FieldValueView::Link(target));
    let parts = finding_parts(node.links());
    lemma_flatten_none(parts);
    lemma_flatten_step(parts, 0);
    assert(parts.take(1) =~= parts);
    assert(parts.flatten() =~= seq![DiagnosticKind::Unresolved]);
}

/// A link of node `a` whose target is found at node `t` is an edge of the link graph.
pub proof fn lemma_link_is_edge(
    nodes: Seq<EntryView>,
    schema: Seq<ContentTypeView>,
    a: int,
    i: int,
    t: int,
)
    requires
        nodes.len() <= usize::MAX,
        0 <= a < nodes.len(),
        0 <= i < link_targets(schema, nodes[a]).len(),
        find_in(nodes, link_targets(schema, nodes[a])[i]) == Some(t),
    ensures
        has_edge(link_graph(nodes, schema), a, t),
{
    let targets = link_targets(schema, nodes[a]);
    let parts = successor_parts(nodes, targets);
    assert(parts[i] == successor(nodes, targets[i]));
    lemma_position(keys_of(nodes), targets[i]);
    let k = lemma_part_member(parts, i, 0);
    let g = link_graph(nodes, schema);
    assert(g[a] == successors(nodes, schema, a));
    assert(g[a][k] == t);
}

/// Two entries that link to each other: the link from the first to the
/// second is cyclic. By symmetry so is the link back, so both ends of a
/// mutual reference are marked.
pub proof fn lemma_mutual_links_are_cyclic(
    nodes: Seq<EntryView>,
    schema: Seq<ContentTypeView>,
    a: int,
    b: int,
    i: int,
    j: int,
)
    requires
        nodes.len() <= usize::MAX,
        0 <= a < nodes.len(),
        0 <= b < nodes.len(),
        0 <= i < link_targets(schema, nodes[a]).len(),
        0 <= j < link_targets(schema, nodes[b]).len(),
        link_targets(schema, nodes[a])[i] == nodes[b].key,
        link_targets(schema, nodes[b])[j] == nodes[a].key,
        find_in(nodes, nodes[b].key) == Some(b),
    ensures
        link_state(nodes, schema, a, nodes[b].key) == LinkState::Cyclic,
{
    lemma_position(keys_of(nodes), nodes[a].key);
    assert(keys_of(nodes)[a] == nodes[a].key);
    let h = home(nodes, a);
    assert(find_in(nodes, nodes[a].key) == Some(h));
    lemma_link_is_edge(nodes, schema, b, j, h);
    let g = link_graph(nodes, schema);
    let path = seq![b, h];
    assert(is_walk(g, path));
    assert(path.first() == b && path.last() == h);
    assert(reaches(g, b, h));
}

/// A link whose target lies on a path of links that ends at the entry
/// holding the link is cyclic: whatever way the entry was come by, a link
/// back onto that way is marked.
pub proof fn lemma_link_back_onto_path_is_cyclic(
    nodes: Seq<EntryView>,
    schema: Seq<ContentTypeView>,
    path: Seq<int>,
    a: int,
    target: NodeKeyView,
    i: int,
)
    requires
        is_walk(link_graph(nodes, schema), path),
        path.last() == home(nodes, a),
        0 <= i < path.len(),
        find_in(nodes, target) == Some(path[i]),
    ensures
        link_state(nodes, schema, a, target) == LinkState::Cyclic,
{
    lemma_walk_suffix(link_graph(nodes, schema), path, i);
}

/// A link that is marked resolved lies on no cycle: its target does not
/// lead back to the entry that holds it.
pub proof fn lemma_resolved_links_are_acyclic(
    nodes: Seq<EntryView>,
    schema: Seq<ContentTypeView>,
    a: int,
    target: NodeKeyView,
)
    requires
        link_state(nodes, schema, a, target) == LinkState::Resolved,
    ensures
        find_in(nodes, target) matches Some(t) && !reaches(
            link_graph(nodes, schema),
            t,
            home(nodes, a),
        ),
{
}

/// Two copies of one payload and of one schema resolve alike: the entries,
/// the included entries and the diagnostics agree in order and content.
pub proof fn lemma_resolution_is_deterministic(
    first: Payload,
    second: Payload,
    schema: Vec<ContentType>,
    again: Vec<ContentType>,
)
    requires
        first@ == second@,
        schema.deep_view() == again.deep_view(),
    ensures
        resolution_of(first@, schema.deep_view()) == resolution_of(second@, again.deep_view()),
        resolution_of(first@, schema.deep_view()).diagnostics == resolution_of(
            second@,
            again.deep_view(),
        ).diagnostics,
{
}

/// A field whose one validation entry carries nothing but a size: a text is
/// valid where its length lies within the bounds, and else invalid for the
/// size rule alone.
pub proof fn lemma_size_on_text(field: FieldView, size: Size, text: Seq<char>)
    requires
        field.validations == seq![
            ValidationView {
                unique: None,
                size: Some(size),
                regex: None,
                link_content_type: None,
                in_: None,
            },
        ],
    ensures
        verdict(field, ResolvedNodeView::Leaf(JsonValue::Text(text))) == if size_admits(
            size,
            text.len() as int,
        ) {
            Verdict::Valid
        } else {
            Verdict::Invalid(seq![Rule::Size])
        },
{
    let node = ResolvedNodeView::Leaf(JsonValue::Text(text));
    lemma_single_entry(field, node, Outcome::Fail);
    lemma_single_entry(field, node, Outcome::Unknown);
    let failed = entry_rules(field.type_, field.validations[0], node, Outcome::Fail);
    let open = entry_rules(field.type_, field.validations[0], node, Outcome::Unknown);
    assert(open =~= Seq::empty());
    if size_admits(size, text.len() as int) {
        assert(failed =~= Seq::empty());
    } else {
        assert(failed =~= seq![Rule::Size]);
    }
}

/// A link field whose one validation entry carries nothing but a list of
/// content types: a link to an existing target whose content type is not on
/// the list is invalid for exactly one rule, the link content type.
pub proof fn lemma_link_type_mismatch(
    field: FieldView,
    allowed: Seq<Seq<char>>,
    link: LinkRefView,
    name: Seq<char>,
)
    requires
        field_type_of(field.type_) == Some(FieldType::Link),
        field.validations == seq![
            ValidationView {
                unique: None,
                size: None,
                regex: None,
                link_content_type: Some(allowed),
                in_: None,
            },
        ],
        link.state != LinkState::Unresolved,
        link.content_type == Some(name),
        !allowed.contains(name),
    ensures
        verdict(field, ResolvedNodeView::Link(link)) == Verdict::Invalid(
            seq![Rule::LinkContentType],
        ),
{
    let node = ResolvedNodeView::Link(link);
    lemma_single_entry(field, node, Outcome::Fail);
    let failed = entry_rules(field.type_, field.validations[0], node, Outcome::Fail);
    assert(failed =~= seq![Rule::LinkContentType]);
}

/// The same link field and list: while the target is unresolved, the verdict
/// is indeterminate, neither valid nor invalid.
pub proof fn lemma_link_type_unresolved(
    field: FieldView,
    allowed: Seq<Seq<char>>,
    link: LinkRefView,
)
    requires
        field_type_of(field.type_) == Some(FieldType::Link),
        field.validations == seq![
            ValidationView {
                unique: None,
                size: None,
                regex: None,
                link_content_type: Some(allowed),
                in_: None,
            },
        ],
        link.state == LinkState::Unresolved,
    ensures
        verdict(field, ResolvedNodeView::Link(link)) == Verdict::Indeterminate(
            seq![Rule::LinkContentType],
        ),
{
    let node = ResolvedNodeView::Link(link);
    lemma_single_entry(field, node, Outcome::Fail);
    lemma_single_entry(field, node, Outcome::Unknown);
    let failed = entry_rules(field.type_, field.validations[0], node, Outcome::Fail);
    let open = entry_rules(field.type_, field.validations[0], node, Outcome::Unknown);
    assert(failed =~= Seq::empty());
    assert(open =~= seq![Rule::LinkContentType]);
}

/// With a single validation entry, the rules of the field are those of the entry.
proof fn lemma_single_entry(field: FieldView, node: ResolvedNodeView, wanted: Outcome)
    requires
        field.validations.len() == 1,
    ensures
        field_rules(field, node, wanted) == entry_rules(
            field.type_,
            field.validations[0],
            node,
            wanted,
        ),
{
    let parts = field_parts(field, node, wanted);
    lemma_flatten_none(parts);
    lemma_flatten_step(parts, 0);
    assert(parts.take(1) =~= parts);
    assert(parts.flatten() =~= parts[0]);
}

/// In a well-formed content type the display field, where one is named, is
/// one of the fields.
pub proof fn lemma_display_field_exists(content_type: ContentTypeView)
    requires
        content_type.well_formed(),
        content_type.display_field is Some,
    ensures
        content_type.display() matches Some(field) && field.id
            == content_type.display_field->Some_0,
{
    lemma_position(content_type.field_ids(), content_type.display_field->Some_0);
}

/// A size with one bound missing constrains only the other side.
pub proof fn lemma_one_sided_bounds(bound: i32, n: int)
    ensures
        size_admits(Size { min: Some(bound), max: None }, n) <==> bound <= n,
        size_admits(Size { min: None, max: Some(bound) }, n) <==> n <= bound,
        size_admits(Size { min: None, max: None }, n),
{
}

/// A size with both bounds admits exactly the numbers from the lower to the
/// upper bound, both included.
pub proof fn lemma_two_sided_bounds(lo: i32, hi: i32, n: int)
    ensures
        size_admits(Size { min: Some(lo), max: Some(hi) }, n) <==> lo <= n <= hi,
{
}

} // verus!
