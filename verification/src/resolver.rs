//! The link resolver: turns a flat payload into a graph of resolved entries
//! and a list of diagnostics.
//!
//! Every entry of the payload, top level and pool alike, is a node that a
//! link can resolve to; where a key occurs more than once the first node
//! that carries it wins. A link without such a node is unresolved. A link
//! whose target exists is cyclic when the target leads back to the entry that
//! holds the link: every link that closes a cycle is marked, whichever entry
//! the cycle is entered by, so following the links that are marked resolved
//! never returns to where it started. What a node leads to is searched once
//! and remembered.
//!
//! Resolution starts at the top-level entries and takes in the included
//! entries that they lead to. It always ends and never fails.

use vstd::prelude::*;
use crate::content_types::{ContentType, ContentTypeView, Field, FieldView};
use crate::entry::{
    Entry, EntryFieldView, EntryView, FieldValue, FieldValueView, NodeKey, NodeKeyView, Payload,
    PayloadView,
};
use crate::graph::{reachable_from, reaches, reaches_from_any, Reachability};
use crate::node::{
    Diagnostic, DiagnosticKind, DiagnosticView, LinkRef, LinkRefView, LinkState, ResolvedEntry,
    ResolvedEntryView, ResolvedField, ResolvedFieldView, ResolvedNode, ResolvedNodeView,
    Resolution, ResolutionView,
};
use crate::json::Json;
use crate::parse::{parse_payload, payload_of, StructuralError};
use crate::seqs::{
    is_first_at, lemma_flatten_none, lemma_flatten_step, lemma_position_absent,
    lemma_position_found, position,
};
use crate::text::str_eq;
use crate::validator::{validate, verdict, Rule, ValidationResult, Verdict};

verus! {

/// The identifiers of the content types of a schema, position by position.
pub open spec fn schema_ids(schema: Seq<ContentTypeView>) -> Seq<Seq<char>> {
    schema.map_values(|c: ContentTypeView| c.system_properties.id)
}

/// The content type of an entry: the first one of the schema whose
/// identifier the entry names.
pub open spec fn type_of(schema: Seq<ContentTypeView>, entry: EntryView) -> Option<
    ContentTypeView,
> {
    match entry.content_type {
        Some(id) => match position(schema_ids(schema), id) {
            Some(i) => Some(schema[i]),
            None => None,
        },
        None => None,
    }
}

/// The name of the content type of an entry, where the schema knows it.
pub open spec fn type_label(schema: Seq<ContentTypeView>, entry: EntryView) -> Option<Seq<char>> {
    match type_of(schema, entry) {
        Some(content_type) => Some(content_type.name),
        None => None,
    }
}

/// A field of an entry that takes part in resolution: its raw value and,
/// where the schema declares the field, the declaration.
pub struct Slot<'a> {
    pub id: &'a String,
    pub value: &'a FieldValue,
    pub rules: Option<&'a Field>,
}

/// The mathematical value of a [`Slot`].
pub struct SlotView {
    pub id: Seq<char>,
    pub value: FieldValueView,
    pub rules: Option<FieldView>,
}

impl<'a> DeepView for Slot<'a> {
    type V = SlotView;

    open spec fn deep_view(&self) -> SlotView {
        SlotView { id: self.id@, value: self.value@, rules: self.rules.deep_view() }
    }
}

impl<'a> View for Slot<'a> {
    type V = SlotView;

    open spec fn view(&self) -> SlotView {
        self.deep_view()
    }
}

/// What a declared field contributes: itself, if it is active and the entry
/// has a value for it.
pub open spec fn declared_slot(entry: EntryView, field: FieldView) -> Seq<SlotView> {
    if field.is_active() {
        match entry.field_value(field.id) {
            Some(value) => seq![SlotView { id: field.id, value, rules: Some(field) }],
            None => Seq::empty(),
        }
    } else {
        Seq::empty()
    }
}

/// What each declared field contributes, field by field.
pub open spec fn declared_parts(entry: EntryView, fields: Seq<FieldView>) -> Seq<Seq<SlotView>> {
    fields.map_values(|f: FieldView| declared_slot(entry, f))
}

/// The fields of an entry without a known content type: all of them, as the
/// payload has them, without rules.
pub open spec fn raw_slots(entry: EntryView) -> Seq<SlotView> {
    entry.fields.map_values(|f: EntryFieldView| SlotView { id: f.id, value: f.value, rules: None })
}

/// The fields of an entry that are resolved. Where the schema knows the
/// entry's content type these are the declared fields in declared order,
/// without the disabled and omitted ones and without those the entry lacks.
pub open spec fn slots(schema: Seq<ContentTypeView>, entry: EntryView) -> Seq<SlotView> {
    match type_of(schema, entry) {
        Some(content_type) => declared_parts(entry, content_type.fields).flatten(),
        None => raw_slots(entry),
    }
}

/// The link targets of each field.
pub open spec fn target_parts(slots: Seq<SlotView>) -> Seq<Seq<NodeKeyView>> {
    slots.map_values(|s: SlotView| s.value.targets())
}

/// The link targets of an entry's resolved fields, in order.
pub open spec fn link_targets(schema: Seq<ContentTypeView>, entry: EntryView) -> Seq<NodeKeyView> {
    target_parts(slots(schema, entry)).flatten()
}

/// The keys of the nodes, position by position.
pub open spec fn keys_of(nodes: Seq<EntryView>) -> Seq<NodeKeyView> {
    nodes.map_values(|e: EntryView| e.key)
}

/// Where a key is found: the first node that carries it.
pub open spec fn find_in(nodes: Seq<EntryView>, key: NodeKeyView) -> Option<int> {
    position(keys_of(nodes), key)
}

/// The node that a link resolves to, if it resolves.
pub open spec fn successor(nodes: Seq<EntryView>, key: NodeKeyView) -> Seq<usize> {
    match find_in(nodes, key) {
        Some(i) => seq![i as usize],
        None => Seq::empty(),
    }
}

/// The node that each link resolves to, link by link.
pub open spec fn successor_parts(nodes: Seq<EntryView>, targets: Seq<NodeKeyView>) -> Seq<
    Seq<usize>,
> {
    targets.map_values(|k: NodeKeyView| successor(nodes, k))
}

/// The nodes that the links of node `a` resolve to, link by link.
pub open spec fn successors(nodes: Seq<EntryView>, schema: Seq<ContentTypeView>, a: int) -> Seq<
    usize,
> {
    successor_parts(nodes, link_targets(schema, nodes[a])).flatten()
}

/// The graph of resolved links between the nodes.
pub open spec fn link_graph(nodes: Seq<EntryView>, schema: Seq<ContentTypeView>) -> Seq<
    Seq<usize>,
> {
    Seq::new(nodes.len(), |a: int| successors(nodes, schema, a))
}

/// Finds the first node with the given key.
fn find_node(nodes: &Vec<&Entry>, key: &NodeKey) -> (found: Option<usize>)
    ensures
        match found {
            Some(i) => find_in(nodes.deep_view(), key@) == Some(i as int) && i < nodes.len(),
            None => find_in(nodes.deep_view(), key@) is None,
        },
{
    let ghost keys = keys_of(nodes.deep_view());
    let mut i: usize = 0;
    while i < nodes.len()
        invariant
            i <= nodes.len(),
            keys == keys_of(nodes.deep_view()),
            keys.len() == nodes.len(),
            forall|j: int| 0 <= j < i ==> keys[j] != key@,
        decreases nodes.len() - i,
    {
        if nodes[i].key.same_as(key) {
            proof {
                assert(keys[i as int] == key@);
                assert(is_first_at(keys, key@, i as int));
                lemma_position_found(keys, key@, i as int);
            }
            return Some(i);
        }
        i += 1;
    }
    proof {
        lemma_position_absent(keys, key@);
    }
    None
}

/// Looks up the content type of an entry.
fn find_type<'a>(schema: &'a Vec<ContentType>, entry: &Entry) -> (found: Option<&'a ContentType>)
    ensures
        found.deep_view() == type_of(schema.deep_view(), entry@),
{
    let id = match &entry.content_type {
        Some(id) => id,
        None => {
            return None;
        },
    };
    let ghost ids = schema_ids(schema.deep_view());
    let mut i: usize = 0;
    while i < schema.len()
        invariant
            i <= schema.len(),
            ids == schema_ids(schema.deep_view()),
            ids.len() == schema.len(),
            entry@.content_type == Some(id@),
            forall|j: int| 0 <= j < i ==> ids[j] != id@,
        decreases schema.len() - i,
    {
        if str_eq(schema[i].system_properties.id.as_str(), id.as_str()) {
            proof {
                assert(ids[i as int] == id@);
                assert(is_first_at(ids, id@, i as int));
                lemma_position_found(ids, id@, i as int);
            }
            return Some(&schema[i]);
        }
        i += 1;
    }
    proof {
        lemma_position_absent(ids, id@);
    }
    None
}

/// Lists the fields of an entry that are resolved.
fn collect_slots<'a>(schema: &'a Vec<ContentType>, entry: &'a Entry) -> (out: Vec<Slot<'a>>)
    ensures
        out.deep_view() == slots(schema.deep_view(), entry@),
{
    let mut out: Vec<Slot<'a>> = Vec::new();
    match find_type(schema, entry) {
        Some(content_type) => {
            let ghost parts = declared_parts(entry@, content_type@.fields);
            proof {
                lemma_flatten_none(parts);
                assert(out.deep_view() =~= Seq::<SlotView>::empty());
            }
            let mut i: usize = 0;
            while i < content_type.fields.len()
                invariant
                    i <= content_type.fields.len(),
                    parts == declared_parts(entry@, content_type@.fields),
                    parts.len() == content_type.fields.len(),
                    out.deep_view() == parts.take(i as int).flatten(),
                decreases content_type.fields.len() - i,
            {
                let field = &content_type.fields[i];
                let ghost before = out.deep_view();
                assert(field@ == content_type@.fields[i as int]);
                if field.is_active() {
                    match entry.field_value(field.id.as_str()) {
                        Some(value) => {
                            out.push(Slot { id: &field.id, value, rules: Some(field) });
                            assert(out.deep_view() =~= before + parts[i as int]);
                        },
                        None => {
                            assert(out.deep_view() =~= before + parts[i as int]);
                        },
                    }
                } else {
                    assert(out.deep_view() =~= before + parts[i as int]);
                }
                proof {
                    lemma_flatten_step(parts, i as int);
                }
                i += 1;
            }
            proof {
                assert(parts.take(i as int) =~= parts);
            }
        },
        None => {
            let mut i: usize = 0;
            proof {
                assert(out.deep_view() =~= raw_slots(entry@).take(0));
            }
            while i < entry.fields.len()
                invariant
                    i <= entry.fields.len(),
                    entry@.fields.len() == entry.fields.len(),
                    out.deep_view() == raw_slots(entry@).take(i as int),
                decreases entry.fields.len() - i,
            {
                let ghost before = out.deep_view();
                let field = &entry.fields[i];
                assert(field@ == entry@.fields[i as int]);
                out.push(Slot { id: &field.id, value: &field.value, rules: None });
                assert(out.deep_view() =~= before.push(raw_slots(entry@)[i as int]));
                assert(raw_slots(entry@).take(i as int + 1) =~= raw_slots(entry@).take(
                    i as int,
                ).push(raw_slots(entry@)[i as int]));
                i += 1;
            }
            proof {
                assert(raw_slots(entry@).take(i as int) =~= raw_slots(entry@));
            }
        },
    }
    out
}

/// Lists the link targets of the given fields, in order.
fn collect_targets<'a>(fields: &Vec<Slot<'a>>) -> (out: Vec<&'a NodeKey>)
    ensures
        out.deep_view() == target_parts(fields.deep_view()).flatten(),
{
    let mut out: Vec<&'a NodeKey> = Vec::new();
    let ghost parts = target_parts(fields.deep_view());
    proof {
        lemma_flatten_none(parts);
        assert(out.deep_view() =~= Seq::<NodeKeyView>::empty());
    }
    let mut i: usize = 0;
    while i < fields.len()
        invariant
            i <= fields.len(),
            parts == target_parts(fields.deep_view()),
            parts.len() == fields.len(),
            out.deep_view() == parts.take(i as int).flatten(),
        decreases fields.len() - i,
    {
        let ghost before = out.deep_view();
        assert(parts[i as int] == fields[i as int]@.value.targets());
        match fields[i].value {
            FieldValue::Leaf(_) => {
                assert(out.deep_view() =~= before + parts[i as int]);
            },
            FieldValue::Link(key) => {
                out.push(key);
                assert(out.deep_view() =~= before + parts[i as int]);
            },
            FieldValue::Links(keys) => {
                let mut k: usize = 0;
                while k < keys.len()
                    invariant
                        k <= keys.len(),
                        parts[i as int] == keys.deep_view(),
                        out.deep_view() == before + parts[i as int].take(k as int),
                    decreases keys.len() - k,
                {
                    let ghost inner = out.deep_view();
                    out.push(&keys[k]);
                    assert(out.deep_view() =~= inner.push(keys[k as int]@));
                    assert(parts[i as int].take(k as int + 1) =~= parts[i as int].take(
                        k as int,
                    ).push(keys[k as int]@));
                    k += 1;
                }
                assert(parts[i as int].take(k as int) =~= parts[i as int]);
            },
        }
        proof {
            lemma_flatten_step(parts, i as int);
        }
        i += 1;
    }
    proof {
        assert(parts.take(i as int) =~= parts);
    }
    out
}

/// Lists the nodes that the links of one entry resolve to.
fn collect_successors(nodes: &Vec<&Entry>, schema: &Vec<ContentType>, a: usize) -> (out: Vec<usize>)
    requires
        a < nodes.len(),
    ensures
        out@ == successors(nodes.deep_view(), schema.deep_view(), a as int),
{
    let fields = collect_slots(schema, nodes[a]);
    let targets = collect_targets(&fields);
    let ghost parts = successor_parts(nodes.deep_view(), targets.deep_view());
    let mut out: Vec<usize> = Vec::new();
    proof {
        assert(nodes[a as int]@ == nodes.deep_view()[a as int]);
        lemma_flatten_none(parts);
    }
    let mut i: usize = 0;
    while i < targets.len()
        invariant
            i <= targets.len(),
            parts == successor_parts(nodes.deep_view(), targets.deep_view()),
            parts.len() == targets.len(),
            out@ == parts.take(i as int).flatten(),
        decreases targets.len() - i,
    {
        let ghost before = out@;
        assert(parts[i as int] == successor(nodes.deep_view(), targets[i as int]@));
        match find_node(nodes, targets[i]) {
            Some(t) => {
                out.push(t);
            },
            None => {},
        }
        proof {
            assert(out@ =~= before + parts[i as int]);
            lemma_flatten_step(parts, i as int);
        }
        i += 1;
    }
    proof {
        assert(parts.take(i as int) =~= parts);
    }
    out
}

/// Builds the graph of resolved links.
fn build_graph(nodes: &Vec<&Entry>, schema: &Vec<ContentType>) -> (graph: Vec<Vec<usize>>)
    ensures
        graph.deep_view() == link_graph(nodes.deep_view(), schema.deep_view()),
{
    let mut graph: Vec<Vec<usize>> = Vec::new();
    let mut a: usize = 0;
    while a < nodes.len()
        invariant
            a <= nodes.len(),
            graph.len() == a,
            forall|j: int|
                0 <= j < a ==> (#[trigger] graph@[j])@ == successors(
                    nodes.deep_view(),
                    schema.deep_view(),
                    j,
                ),
        decreases nodes.len() - a,
    {
        let next = collect_successors(nodes, schema, a);
        graph.push(next);
        a += 1;
    }
    proof {
        assert forall|j: int| 0 <= j < graph.len() implies #[trigger] graph.deep_view()[j]
            == link_graph(nodes.deep_view(), schema.deep_view())[j] by {
            assert(graph@[j].deep_view() =~= graph@[j]@);
        }
        assert(graph.deep_view() =~= link_graph(nodes.deep_view(), schema.deep_view()));
    }
    graph
}

/// The node that stands for node `a` wherever a link names it: the first
/// node with the key of `a`.
pub open spec fn home(nodes: Seq<EntryView>, a: int) -> int {
    match find_in(nodes, nodes[a].key) {
        Some(h) => h,
        None => a,
    }
}

/// What becomes of a link held by node `a`: unresolved where no node carries
/// the target's key; cyclic where the target leads back to `a` along
/// resolved links; resolved otherwise.
pub open spec fn link_state(
    nodes: Seq<EntryView>,
    schema: Seq<ContentTypeView>,
    a: int,
    target: NodeKeyView,
) -> LinkState {
    match find_in(nodes, target) {
        None => LinkState::Unresolved,
        Some(t) => if reaches(link_graph(nodes, schema), t, home(nodes, a)) {
            LinkState::Cyclic
        } else {
            LinkState::Resolved
        },
    }
}

/// The name of the content type of a link's target.
pub open spec fn target_type(
    nodes: Seq<EntryView>,
    schema: Seq<ContentTypeView>,
    target: NodeKeyView,
) -> Option<Seq<char>> {
    match find_in(nodes, target) {
        Some(t) => type_label(schema, nodes[t]),
        None => None,
    }
}

/// The resolved form of a link held by node `a`.
pub open spec fn resolved_link(
    nodes: Seq<EntryView>,
    schema: Seq<ContentTypeView>,
    a: int,
    target: NodeKeyView,
) -> LinkRefView {
    LinkRefView {
        target,
        state: link_state(nodes, schema, a, target),
        content_type: target_type(nodes, schema, target),
    }
}

/// The resolved form of a raw field value of node `a`: a leaf stays as it
/// is, and every link placeholder becomes a reference to its target.
pub open spec fn resolved_value(
    nodes: Seq<EntryView>,
    schema: Seq<ContentTypeView>,
    a: int,
    value: FieldValueView,
) -> ResolvedNodeView {
    match value {
        FieldValueView::Leaf(j) => ResolvedNodeView::Leaf(j),
        FieldValueView::Link(target) => ResolvedNodeView::Link(
            resolved_link(nodes, schema, a, target),
        ),
        FieldValueView::Links(targets) => ResolvedNodeView::Links(
            targets.map_values(|target: NodeKeyView| resolved_link(nodes, schema, a, target)),
        ),
    }
}

/// What a link gives rise to in the diagnostics.
pub open spec fn link_finding(link: LinkRefView) -> Seq<DiagnosticKind> {
    match link.state {
        LinkState::Unresolved => seq![DiagnosticKind::Unresolved],
        LinkState::Cyclic => seq![DiagnosticKind::Cyclic],
        LinkState::Resolved => Seq::empty(),
    }
}

/// What each link gives rise to in the diagnostics.
pub open spec fn finding_parts(links: Seq<LinkRefView>) -> Seq<Seq<DiagnosticKind>> {
    links.map_values(|link: LinkRefView| link_finding(link))
}

/// What a verdict gives rise to in the diagnostics: one finding for each rule.
pub open spec fn rule_findings(verdict: Verdict) -> Seq<DiagnosticKind> {
    match verdict {
        Verdict::Valid => Seq::empty(),
        Verdict::Invalid(rules) => rules.map_values(|rule: Rule| DiagnosticKind::Invalid(rule)),
        Verdict::Indeterminate(rules) => rules.map_values(
            |rule: Rule| DiagnosticKind::Indeterminate(rule),
        ),
    }
}

/// The findings on one field: first those on its links, in order, then
/// those of the validator where the schema declares the field.
pub open spec fn slot_findings(slot: SlotView, node: ResolvedNodeView) -> Seq<DiagnosticKind> {
    finding_parts(node.links()).flatten() + match slot.rules {
        Some(field) => rule_findings(verdict(field, node)),
        None => Seq::empty(),
    }
}

/// The findings, each tagged with the entry and the field it is about.
pub open spec fn tagged(key: NodeKeyView, field_id: Seq<char>, kinds: Seq<DiagnosticKind>) -> Seq<
    DiagnosticView,
> {
    kinds.map_values(|kind: DiagnosticKind| DiagnosticView { entry: key, field_id, kind })
}

/// The resolved fields of node `a`, in the order of its slots.
pub open spec fn resolved_fields(
    nodes: Seq<EntryView>,
    schema: Seq<ContentTypeView>,
    a: int,
) -> Seq<ResolvedFieldView> {
    slots(schema, nodes[a]).map_values(
        |slot: SlotView|
            ResolvedFieldView { id: slot.id, value: resolved_value(nodes, schema, a, slot.value) },
    )
}

/// The resolved form of node `a`.
pub open spec fn resolved_entry(
    nodes: Seq<EntryView>,
    schema: Seq<ContentTypeView>,
    a: int,
) -> ResolvedEntryView {
    ResolvedEntryView {
        key: nodes[a].key,
        content_type: nodes[a].content_type,
        fields: resolved_fields(nodes, schema, a),
    }
}

/// The diagnostics on each field of node `a`.
pub open spec fn diagnostic_parts(
    nodes: Seq<EntryView>,
    schema: Seq<ContentTypeView>,
    a: int,
) -> Seq<Seq<DiagnosticView>> {
    slots(schema, nodes[a]).map_values(
        |slot: SlotView|
            tagged(
                nodes[a].key,
                slot.id,
                slot_findings(slot, resolved_value(nodes, schema, a, slot.value)),
            ),
    )
}

/// The diagnostics on node `a`, field by field.
pub open spec fn entry_diagnostics(
    nodes: Seq<EntryView>,
    schema: Seq<ContentTypeView>,
    a: int,
) -> Seq<DiagnosticView> {
    diagnostic_parts(nodes, schema, a).flatten()
}

/// The positions of the top-level entries among the nodes.
pub open spec fn top_level(count: nat) -> Seq<usize> {
    Seq::new(count, |i: int| i as usize)
}

/// Node `a` is resolved: it is a top-level entry, or the top level leads to it.
pub open spec fn emitted(
    nodes: Seq<EntryView>,
    schema: Seq<ContentTypeView>,
    tops: nat,
    a: int,
) -> bool {
    a < tops || reaches_from_any(link_graph(nodes, schema), top_level(tops), a)
}

/// For each node, its resolved form where it is an included entry that is resolved.
pub open spec fn included_parts(
    nodes: Seq<EntryView>,
    schema: Seq<ContentTypeView>,
    tops: nat,
) -> Seq<Seq<ResolvedEntryView>> {
    Seq::new(
        nodes.len(),
        |a: int|
            if a >= tops && emitted(nodes, schema, tops, a) {
                seq![resolved_entry(nodes, schema, a)]
            } else {
                Seq::empty()
            },
    )
}

/// For each node, its diagnostics where it is resolved.
pub open spec fn report_parts(
    nodes: Seq<EntryView>,
    schema: Seq<ContentTypeView>,
    tops: nat,
) -> Seq<Seq<DiagnosticView>> {
    Seq::new(
        nodes.len(),
        |a: int|
            if emitted(nodes, schema, tops, a) {
                entry_diagnostics(nodes, schema, a)
            } else {
                Seq::empty()
            },
    )
}

/// The resolution of a payload against a schema.
///
/// Every top-level entry is resolved, in order. An included entry is
/// resolved where the top level leads to it along resolved links. The
/// diagnostics list those of the top-level entries first, then those of the
/// included ones, in payload order.
pub open spec fn resolution_of(
    payload: PayloadView,
    schema: Seq<ContentTypeView>,
) -> ResolutionView {
    let nodes = payload.nodes();
    let tops = payload.items.len();
    ResolutionView {
        entries: Seq::new(tops, |i: int| resolved_entry(nodes, schema, i)),
        included: included_parts(nodes, schema, tops).flatten(),
        diagnostics: report_parts(nodes, schema, tops).flatten(),
    }
}

/// Resolves one link held by node `a`, which is found at node `at`.
fn resolve_link(
    nodes: &Vec<&Entry>,
    schema: &Vec<ContentType>,
    reach: &mut Reachability,
    a: usize,
    at: usize,
    target: &NodeKey,
) -> (link: LinkRef)
    requires
        a < nodes.len(),
        at == home(nodes.deep_view(), a as int),
        old(reach).well_formed(),
        old(reach).graph() == link_graph(nodes.deep_view(), schema.deep_view()),
    ensures
        final(reach).well_formed(),
        final(reach).graph() == old(reach).graph(),
        link@ == resolved_link(nodes.deep_view(), schema.deep_view(), a as int, target@),
{
    match find_node(nodes, target) {
        Some(t) => {
            let state = if reach.reaches(t, at) {
                LinkState::Cyclic
            } else {
                LinkState::Resolved
            };
            assert(nodes[t as int]@ == nodes.deep_view()[t as int]);
            let content_type = match find_type(schema, nodes[t]) {
                Some(found) => Some(found.name.clone()),
                None => None,
            };
            LinkRef { target: target.clone(), state, content_type }
        },
        None => LinkRef {
            target: target.clone(),
            state: LinkState::Unresolved,
            content_type: None,
        },
    }
}

/// Resolves the raw value of one field of node `a`.
fn resolve_value(
    nodes: &Vec<&Entry>,
    schema: &Vec<ContentType>,
    reach: &mut Reachability,
    a: usize,
    at: usize,
    value: &FieldValue,
) -> (node: ResolvedNode)
    requires
        a < nodes.len(),
        at == home(nodes.deep_view(), a as int),
        old(reach).well_formed(),
        old(reach).graph() == link_graph(nodes.deep_view(), schema.deep_view()),
    ensures
        final(reach).well_formed(),
        final(reach).graph() == old(reach).graph(),
        node@ == resolved_value(nodes.deep_view(), schema.deep_view(), a as int, value@),
{
    match value {
        FieldValue::Leaf(j) => ResolvedNode::Leaf(j.clone()),
        FieldValue::Link(target) => ResolvedNode::Link(
            resolve_link(nodes, schema, reach, a, at, target),
        ),
        FieldValue::Links(targets) => {
            let mut links: Vec<LinkRef> = Vec::new();
            let mut i: usize = 0;
            while i < targets.len()
                invariant
                    i <= targets.len(),
                    a < nodes.len(),
                    at == home(nodes.deep_view(), a as int),
                    reach.well_formed(),
                    reach.graph() == link_graph(nodes.deep_view(), schema.deep_view()),
                    links.len() == i,
                    forall|j: int|
                        0 <= j < i ==> (#[trigger] links@[j])@ == resolved_link(
                            nodes.deep_view(),
                            schema.deep_view(),
                            a as int,
                            targets@[j]@,
                        ),
                decreases targets.len() - i,
            {
                let link = resolve_link(nodes, schema, reach, a, at, &targets[i]);
                links.push(link);
                i += 1;
            }
            assert(links.deep_view() =~= targets.deep_view().map_values(
                |target: NodeKeyView|
                    resolved_link(nodes.deep_view(), schema.deep_view(), a as int, target),
            ));
            ResolvedNode::Links(links)
        },
    }
}

/// Adds what one link gives rise to.
fn note_link(link: &LinkRef, kinds: &mut Vec<DiagnosticKind>)
    ensures
        final(kinds)@ == old(kinds)@ + link_finding(link@),
{
    match link.state {
        LinkState::Unresolved => {
            kinds.push(DiagnosticKind::Unresolved);
        },
        LinkState::Cyclic => {
            kinds.push(DiagnosticKind::Cyclic);
        },
        LinkState::Resolved => {},
    }
    assert(kinds@ =~= old(kinds)@ + link_finding(link@));
}

/// Lists the findings on the links of a resolved value.
fn link_findings(node: &ResolvedNode) -> (kinds: Vec<DiagnosticKind>)
    ensures
        kinds@ == finding_parts(node@.links()).flatten(),
{
    let mut kinds: Vec<DiagnosticKind> = Vec::new();
    let ghost parts = finding_parts(node@.links());
    proof {
        lemma_flatten_none(parts);
    }
    match node {
        ResolvedNode::Leaf(_) => {
            assert(parts.take(0) =~= parts);
        },
        ResolvedNode::Link(link) => {
            note_link(link, &mut kinds);
            proof {
                lemma_flatten_step(parts, 0);
                assert(parts.take(1) =~= parts);
                assert(kinds@ =~= parts[0]);
            }
        },
        ResolvedNode::Links(links) => {
            let mut i: usize = 0;
            while i < links.len()
                invariant
                    i <= links.len(),
                    parts == finding_parts(links.deep_view()),
                    parts.len() == links.len(),
                    kinds@ == parts.take(i as int).flatten(),
                decreases links.len() - i,
            {
                note_link(&links[i], &mut kinds);
                proof {
                    lemma_flatten_step(parts, i as int);
                }
                i += 1;
            }
            assert(parts.take(i as int) =~= parts);
        },
    }
    kinds
}

/// Adds what the validator's verdict gives rise to.
fn note_verdict(result: &ValidationResult, kinds: &mut Vec<DiagnosticKind>)
    ensures
        final(kinds)@ == old(kinds)@ + rule_findings(result@),
{
    match result {
        ValidationResult::Valid => {
            assert(kinds@ =~= old(kinds)@ + rule_findings(result@));
        },
        ValidationResult::Invalid(rules) => {
            let ghost all = rule_findings(result@);
            let mut i: usize = 0;
            while i < rules.len()
                invariant
                    i <= rules.len(),
                    all == rules@.map_values(|rule: Rule| DiagnosticKind::Invalid(rule)),
                    kinds@ == old(kinds)@ + all.take(i as int),
                decreases rules.len() - i,
            {
                kinds.push(DiagnosticKind::Invalid(rules[i]));
                assert(kinds@ =~= old(kinds)@ + all.take(i as int + 1));
                i += 1;
            }
            assert(all.take(i as int) =~= all);
        },
        ValidationResult::Indeterminate(rules) => {
            let ghost all = rule_findings(result@);
            let mut i: usize = 0;
            while i < rules.len()
                invariant
                    i <= rules.len(),
                    all == rules@.map_values(|rule: Rule| DiagnosticKind::Indeterminate(rule)),
                    kinds@ == old(kinds)@ + all.take(i as int),
                decreases rules.len() - i,
            {
                kinds.push(DiagnosticKind::Indeterminate(rules[i]));
                assert(kinds@ =~= old(kinds)@ + all.take(i as int + 1));
                i += 1;
            }
            assert(all.take(i as int) =~= all);
        },
    }
}

/// Lists the findings on one resolved field.
fn collect_findings(slot: &Slot, node: &ResolvedNode) -> (kinds: Vec<DiagnosticKind>)
    ensures
        kinds@ == slot_findings(slot@, node@),
{
    let mut kinds = link_findings(node);
    match slot.rules {
        Some(field) => {
            let result = validate(field, node);
            note_verdict(&result, &mut kinds);
        },
        None => {
            assert(kinds@ =~= slot_findings(slot@, node@));
        },
    }
    kinds
}

/// Files findings on one field of one entry among the diagnostics.
fn report(key: &NodeKey, field_id: &String, kinds: &Vec<DiagnosticKind>, out: &mut Vec<Diagnostic>)
    ensures
        final(out).deep_view() == old(out).deep_view() + tagged(key@, field_id@, kinds@),
{
    let ghost all = tagged(key@, field_id@, kinds@);
    let mut i: usize = 0;
    assert(out.deep_view() =~= old(out).deep_view() + all.take(0));
    while i < kinds.len()
        invariant
            i <= kinds.len(),
            all == tagged(key@, field_id@, kinds@),
            out.deep_view() == old(out).deep_view() + all.take(i as int),
        decreases kinds.len() - i,
    {
        let ghost before = out.deep_view();
        out.push(Diagnostic { entry: key.clone(), field_id: field_id.clone(), kind: kinds[i] });
        assert(out.deep_view() =~= before.push(all[i as int]));
        assert(out.deep_view() =~= old(out).deep_view() + all.take(i as int + 1));
        i += 1;
    }
    assert(all.take(i as int) =~= all);
}

/// Resolves node `a` and files its diagnostics.
fn resolve_entry(
    nodes: &Vec<&Entry>,
    schema: &Vec<ContentType>,
    reach: &mut Reachability,
    a: usize,
    diagnostics: &mut Vec<Diagnostic>,
) -> (entry: ResolvedEntry)
    requires
        a < nodes.len(),
        old(reach).well_formed(),
        old(reach).graph() == link_graph(nodes.deep_view(), schema.deep_view()),
    ensures
        final(reach).well_formed(),
        final(reach).graph() == old(reach).graph(),
        entry@ == resolved_entry(nodes.deep_view(), schema.deep_view(), a as int),
        final(diagnostics).deep_view() == old(diagnostics).deep_view() + entry_diagnostics(
            nodes.deep_view(),
            schema.deep_view(),
            a as int,
        ),
{
    let source = nodes[a];
    assert(source@ == nodes.deep_view()[a as int]);
    let at = match find_node(nodes, &source.key) {
        Some(at) => at,
        None => a,
    };
    let open = collect_slots(schema, source);
    let ghost parts = diagnostic_parts(nodes.deep_view(), schema.deep_view(), a as int);
    let ghost wanted = resolved_fields(nodes.deep_view(), schema.deep_view(), a as int);
    let mut fields: Vec<ResolvedField> = Vec::new();
    proof {
        lemma_flatten_none(parts);
        assert(diagnostics.deep_view() =~= old(diagnostics).deep_view() + parts.take(0).flatten());
    }
    let mut i: usize = 0;
    while i < open.len()
        invariant
            i <= open.len(),
            a < nodes.len(),
            source@ == nodes.deep_view()[a as int],
            at == home(nodes.deep_view(), a as int),
            reach.well_formed(),
            reach.graph() == link_graph(nodes.deep_view(), schema.deep_view()),
            open.deep_view() == slots(schema.deep_view(), source@),
            parts == diagnostic_parts(nodes.deep_view(), schema.deep_view(), a as int),
            wanted == resolved_fields(nodes.deep_view(), schema.deep_view(), a as int),
            parts.len() == open.len(),
            wanted.len() == open.len(),
            fields.len() == i,
            forall|j: int| 0 <= j < i ==> (#[trigger] fields@[j])@ == wanted[j],
            diagnostics.deep_view() == old(diagnostics).deep_view() + parts.take(
                i as int,
            ).flatten(),
        decreases open.len() - i,
    {
        let slot = &open[i];
        assert(slot@ == open.deep_view()[i as int]);
        let node = resolve_value(nodes, schema, reach, a, at, slot.value);
        let kinds = collect_findings(slot, &node);
        report(&source.key, slot.id, &kinds, diagnostics);
        fields.push(ResolvedField { id: slot.id.clone(), value: node });
        proof {
            lemma_flatten_step(parts, i as int);
            assert(diagnostics.deep_view() =~= old(diagnostics).deep_view() + parts.take(
                i as int + 1,
            ).flatten());
        }
        i += 1;
    }
    proof {
        assert(parts.take(i as int) =~= parts);
        assert(fields.deep_view() =~= wanted);
    }
    let content_type = match &source.content_type {
        Some(id) => Some(id.clone()),
        None => None,
    };
    ResolvedEntry { key: source.key.clone(), content_type, fields }
}

/// Resolves a payload against a schema.
///
/// Never fails: a link without a target, a cycle of links and a broken
/// validation rule each leave a mark on the graph or in the diagnostics, and
/// resolution goes on.
pub fn resolve(payload: &Payload, schema: &Vec<ContentType>) -> (resolution: Resolution)
    ensures
        resolution@ == resolution_of(payload@, schema.deep_view()),
{
    let mut nodes: Vec<&Entry> = Vec::new();
    let mut tops: Vec<usize> = Vec::new();
    let mut i: usize = 0;
    while i < payload.items.len()
        invariant
            i <= payload.items.len(),
            nodes.len() == i,
            tops.len() == i,
            forall|j: int| 0 <= j < i ==> (#[trigger] nodes@[j])@ == payload.items@[j]@,
            forall|j: int| 0 <= j < i ==> tops@[j] == j,
        decreases payload.items.len() - i,
    {
        nodes.push(&payload.items[i]);
        tops.push(i);
        i += 1;
    }
    let mut k: usize = 0;
    while k < payload.includes.len()
        invariant
            k <= payload.includes.len(),
            nodes.len() == payload.items.len() + k,
            forall|j: int|
                0 <= j < payload.items.len() ==> (#[trigger] nodes@[j])@ == payload.items@[j]@,
            forall|j: int|
                0 <= j < k ==> (#[trigger] nodes@[payload.items.len() + j])@
                    == payload.includes@[j]@,
        decreases payload.includes.len() - k,
    {
        nodes.push(&payload.includes[k]);
        k += 1;
    }
    let count = payload.items.len();
    proof {
        assert(nodes.deep_view() =~= payload@.nodes()) by {
            assert forall|j: int| 0 <= j < nodes.len() implies #[trigger] nodes.deep_view()[j]
                == payload@.nodes()[j] by {
                if j >= count {
                    assert(nodes@[count + (j - count)]@ == payload.includes@[j - count]@);
                }
            }
        }
        assert(tops@ =~= top_level(count as nat));
    }
    let graph = build_graph(&nodes, schema);
    let reached = reachable_from(&graph, &tops);
    let mut reach = Reachability::new(&graph);
    proof {
        assert(graph.deep_view().len() == graph.len());
        assert(nodes.deep_view().len() == nodes.len());
    }
    let ghost all = nodes.deep_view();
    let ghost types = schema.deep_view();
    let ghost reports = report_parts(all, types, count as nat);
    let ghost extra = included_parts(all, types, count as nat);
    let mut entries: Vec<ResolvedEntry> = Vec::new();
    let mut included: Vec<ResolvedEntry> = Vec::new();
    let mut diagnostics: Vec<Diagnostic> = Vec::new();
    proof {
        lemma_flatten_none(reports);
        lemma_flatten_none(extra);
        assert(diagnostics.deep_view() =~= Seq::<DiagnosticView>::empty());
        assert(included.deep_view() =~= Seq::<ResolvedEntryView>::empty());
    }
    let mut a: usize = 0;
    while a < nodes.len()
        invariant
            a <= nodes.len(),
            count <= nodes.len(),
            all == nodes.deep_view(),
            types == schema.deep_view(),
            graph.deep_view() == link_graph(all, types),
            reach.well_formed(),
            reach.graph() == link_graph(all, types),
            reached.len() == nodes.len(),
            forall|b: int|
                0 <= b < nodes.len() ==> reached[b] == reaches_from_any(
                    link_graph(all, types),
                    top_level(count as nat),
                    b,
                ),
            reports == report_parts(all, types, count as nat),
            extra == included_parts(all, types, count as nat),
            entries.len() == if a < count {
                a
            } else {
                count
            },
            forall|j: int|
                0 <= j < entries.len() ==> (#[trigger] entries@[j])@ == resolved_entry(
                    all,
                    types,
                    j,
                ),
            included.deep_view() == extra.take(a as int).flatten(),
            diagnostics.deep_view() == reports.take(a as int).flatten(),
        decreases nodes.len() - a,
    {
        let ghost before = diagnostics.deep_view();
        let ghost held = included.deep_view();
        if a < count {
            let entry = resolve_entry(&nodes, schema, &mut reach, a, &mut diagnostics);
            entries.push(entry);
            assert(held =~= held + extra[a as int]);
        } else if reached[a] {
            let entry = resolve_entry(&nodes, schema, &mut reach, a, &mut diagnostics);
            included.push(entry);
            assert(included.deep_view() =~= held + extra[a as int]);
        } else {
            assert(before =~= before + reports[a as int]);
            assert(held =~= held + extra[a as int]);
        }
        proof {
            lemma_flatten_step(reports, a as int);
            lemma_flatten_step(extra, a as int);
        }
        a += 1;
    }
    proof {
        assert(reports.take(a as int) =~= reports);
        assert(extra.take(a as int) =~= extra);
        assert(entries.deep_view() =~= Seq::new(
            count as nat,
            |i: int| resolved_entry(all, types, i),
        ));
    }
    Resolution { entries, included, diagnostics }
}

/// Reads a payload out of its JSON envelope and resolves it.
///
/// Fails exactly when the envelope is structurally broken, with the first
/// fault; nothing is resolved then.
pub fn resolve_payload(envelope: &Json, schema: &Vec<ContentType>) -> (result: Result<
    Resolution,
    StructuralError,
>)
    ensures
        match result {
            Ok(resolution) => payload_of(envelope@) matches Ok(payload) && resolution@
                == resolution_of(payload, schema.deep_view()),
            Err(fault) => payload_of(envelope@) == Err::<PayloadView, StructuralError>(fault),
        },
{
    match parse_payload(envelope) {
        Ok(payload) => Ok(resolve(&payload, schema)),
        Err(fault) => Err(fault),
    }
}

} // verus!
