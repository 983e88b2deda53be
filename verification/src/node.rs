//! The nodes of a resolved content graph. A link never owns its target: it
//! names the target by its key, so the graph has no ownership cycle even
//! where entries refer to each other.

use vstd::prelude::*;
use crate::entry::{NodeKey, NodeKeyView};
use crate::json::{Json, JsonValue};
use crate::seqs::{is_first_at, lemma_position_absent, lemma_position_found, position};
use crate::validator::Rule;

verus! {

/// What became of a link.
#[derive(Clone, Copy, Debug, PartialEq, Eq)]
pub enum LinkState {
    /// The target exists and the link lies on no cycle.
    Resolved,
    /// The target exists and leads back to the entry that holds the link.
    Cyclic,
    /// No entry or asset of the payload carries the target's key.
    Unresolved,
}

/// A link after resolution: a weak reference to its target.
#[derive(Debug, PartialEq, Eq)]
pub struct LinkRef {
    pub target: NodeKey,
    pub state: LinkState,
    /// Name of the target's content type, where the target exists and the
    /// schema knows its type.
    pub content_type: Option<String>,
}

/// The mathematical value of a [`LinkRef`].
pub struct LinkRefView {
    pub target: NodeKeyView,
    pub state: LinkState,
    pub content_type: Option<Seq<char>>,
}

impl DeepView for LinkRef {
    type V = LinkRefView;

    open spec fn deep_view(&self) -> LinkRefView {
        LinkRefView {
            target: self.target@,
            state: self.state,
            content_type: self.content_type.deep_view(),
        }
    }
}

impl View for LinkRef {
    type V = LinkRefView;

    open spec fn view(&self) -> LinkRefView {
        self.deep_view()
    }
}

/// The value of a field after resolution.
#[derive(Debug, PartialEq)]
pub enum ResolvedNode {
    /// A value without links, carried through unchanged.
    Leaf(Json),
    /// A single link.
    Link(LinkRef),
    /// An array of links.
    Links(Vec<LinkRef>),
}

/// The mathematical value of a [`ResolvedNode`].
pub enum ResolvedNodeView {
    Leaf(JsonValue),
    Link(LinkRefView),
    Links(Seq<LinkRefView>),
}

impl ResolvedNodeView {
    /// The links that the node holds, in order.
    pub open spec fn links(self) -> Seq<LinkRefView> {
        match self {
            ResolvedNodeView::Leaf(_) => Seq::empty(),
            ResolvedNodeView::Link(link) => seq![link],
            ResolvedNodeView::Links(links) => links,
        }
    }
}

impl DeepView for ResolvedNode {
    type V = ResolvedNodeView;

    open spec fn deep_view(&self) -> ResolvedNodeView {
        match self {
            ResolvedNode::Leaf(j) => ResolvedNodeView::Leaf(j@),
            ResolvedNode::Link(link) => ResolvedNodeView::Link(link@),
            ResolvedNode::Links(links) => ResolvedNodeView::Links(links.deep_view()),
        }
    }
}

impl View for ResolvedNode {
    type V = ResolvedNodeView;

    open spec fn view(&self) -> ResolvedNodeView {
        self.deep_view()
    }
}

/// One field of a resolved entry.
#[derive(Debug, PartialEq)]
pub struct ResolvedField {
    pub id: String,
    pub value: ResolvedNode,
}

/// The mathematical value of a [`ResolvedField`].
pub struct ResolvedFieldView {
    pub id: Seq<char>,
    pub value: ResolvedNodeView,
}

impl DeepView for ResolvedField {
    type V = ResolvedFieldView;

    open spec fn deep_view(&self) -> ResolvedFieldView {
        ResolvedFieldView { id: self.id@, value: self.value@ }
    }
}

impl View for ResolvedField {
    type V = ResolvedFieldView;

    open spec fn view(&self) -> ResolvedFieldView {
        self.deep_view()
    }
}

/// An entry or asset whose links have been resolved.
#[derive(Debug, PartialEq)]
pub struct ResolvedEntry {
    pub key: NodeKey,
    pub content_type: Option<String>,
    pub fields: Vec<ResolvedField>,
}

/// The mathematical value of a [`ResolvedEntry`].
pub struct ResolvedEntryView {
    pub key: NodeKeyView,
    pub content_type: Option<Seq<char>>,
    pub fields: Seq<ResolvedFieldView>,
}

impl DeepView for ResolvedEntry {
    type V = ResolvedEntryView;

    open spec fn deep_view(&self) -> ResolvedEntryView {
        ResolvedEntryView {
            key: self.key@,
            content_type: self.content_type.deep_view(),
            fields: self.fields.deep_view(),
        }
    }
}

impl View for ResolvedEntry {
    type V = ResolvedEntryView;

    open spec fn view(&self) -> ResolvedEntryView {
        self.deep_view()
    }
}

/// How severe a broken validation rule is.
#[derive(Clone, Copy, Debug, PartialEq, Eq)]
pub enum Severity {
    /// The value breaks the rule.
    Invalid,
    /// The rule could not be evaluated.
    Indeterminate,
}

/// The four kinds of anomaly. Only a structural one stops a resolution.
#[derive(Clone, Copy, Debug, PartialEq, Eq)]
pub enum ErrorKind {
    Structure,
    Referential,
    Cyclic,
    SchemaConformance,
}

/// What a diagnostic reports about a field.
#[derive(Clone, Copy, Debug, PartialEq, Eq)]
pub enum DiagnosticKind {
    /// A link of the field has no target in the payload.
    Unresolved,
    /// A link of the field lies on a cycle of links.
    Cyclic,
    /// The value breaks this rule.
    Invalid(Rule),
    /// This rule could not be evaluated on the value.
    Indeterminate(Rule),
}

impl DiagnosticKind {
    /// The rule that a validation diagnostic cites.
    pub open spec fn spec_rule(self) -> Option<Rule> {
        match self {
            DiagnosticKind::Invalid(rule) => Some(rule),
            DiagnosticKind::Indeterminate(rule) => Some(rule),
            _ => None,
        }
    }

    /// The severity of a validation diagnostic.
    pub open spec fn spec_severity(self) -> Option<Severity> {
        match self {
            DiagnosticKind::Invalid(_) => Some(Severity::Invalid),
            DiagnosticKind::Indeterminate(_) => Some(Severity::Indeterminate),
            _ => None,
        }
    }

    /// The kind of anomaly that the diagnostic belongs to.
    pub open spec fn spec_error_kind(self) -> ErrorKind {
        match self {
            DiagnosticKind::Unresolved => ErrorKind::Referential,
            DiagnosticKind::Cyclic => ErrorKind::Cyclic,
            _ => ErrorKind::SchemaConformance,
        }
    }

    /// The rule that a validation diagnostic cites; `None` for a link diagnostic.
    #[verifier::when_used_as_spec(spec_rule)]
    pub fn rule(self) -> (rule: Option<Rule>)
        ensures
            rule == self.spec_rule(),
    {
        match self {
            DiagnosticKind::Invalid(rule) => Some(rule),
            DiagnosticKind::Indeterminate(rule) => Some(rule),
            _ => None,
        }
    }

    /// The severity of a validation diagnostic; `None` for a link diagnostic.
    #[verifier::when_used_as_spec(spec_severity)]
    pub fn severity(self) -> (severity: Option<Severity>)
        ensures
            severity == self.spec_severity(),
    {
        match self {
            DiagnosticKind::Invalid(_) => Some(Severity::Invalid),
            DiagnosticKind::Indeterminate(_) => Some(Severity::Indeterminate),
            _ => None,
        }
    }

    /// The kind of anomaly that the diagnostic belongs to.
    #[verifier::when_used_as_spec(spec_error_kind)]
    pub fn error_kind(self) -> (kind: ErrorKind)
        ensures
            kind == self.spec_error_kind(),
    {
        match self {
            DiagnosticKind::Unresolved => ErrorKind::Referential,
            DiagnosticKind::Cyclic => ErrorKind::Cyclic,
            _ => ErrorKind::SchemaConformance,
        }
    }
}

/// A non-fatal finding about one field of one entry.
#[derive(Debug, PartialEq, Eq)]
pub struct Diagnostic {
    pub entry: NodeKey,
    pub field_id: String,
    pub kind: DiagnosticKind,
}

/// The mathematical value of a [`Diagnostic`].
pub struct DiagnosticView {
    pub entry: NodeKeyView,
    pub field_id: Seq<char>,
    pub kind: DiagnosticKind,
}

impl DeepView for Diagnostic {
    type V = DiagnosticView;

    open spec fn deep_view(&self) -> DiagnosticView {
        DiagnosticView { entry: self.entry@, field_id: self.field_id@, kind: self.kind }
    }
}

impl View for Diagnostic {
    type V = DiagnosticView;

    open spec fn view(&self) -> DiagnosticView {
        self.deep_view()
    }
}

/// What a resolution returns: the best-effort graph and what was found on the way.
#[derive(Debug, PartialEq)]
pub struct Resolution {
    /// The top-level entries, in the order of the payload.
    pub entries: Vec<ResolvedEntry>,
    /// The included entries and assets that the top level leads to, in pool order.
    pub included: Vec<ResolvedEntry>,
    /// The findings, entry by entry in the order above, field by field.
    pub diagnostics: Vec<Diagnostic>,
}

/// The mathematical value of a [`Resolution`].
pub struct ResolutionView {
    pub entries: Seq<ResolvedEntryView>,
    pub included: Seq<ResolvedEntryView>,
    pub diagnostics: Seq<DiagnosticView>,
}

impl ResolutionView {
    /// Every resolved node: the top level first, then the included ones.
    pub open spec fn nodes(self) -> Seq<ResolvedEntryView> {
        self.entries + self.included
    }

    /// The keys of `nodes`, position by position.
    pub open spec fn node_keys(self) -> Seq<NodeKeyView> {
        self.nodes().map_values(|e: ResolvedEntryView| e.key)
    }

    /// The first resolved node with the given key.
    pub open spec fn node(self, key: NodeKeyView) -> Option<ResolvedEntryView> {
        match position(self.node_keys(), key) {
            Some(i) => Some(self.nodes()[i]),
            None => None,
        }
    }
}

impl DeepView for Resolution {
    type V = ResolutionView;

    open spec fn deep_view(&self) -> ResolutionView {
        ResolutionView {
            entries: self.entries.deep_view(),
            included: self.included.deep_view(),
            diagnostics: self.diagnostics.deep_view(),
        }
    }
}

impl View for Resolution {
    type V = ResolutionView;

    open spec fn view(&self) -> ResolutionView {
        self.deep_view()
    }
}

impl Resolution {
    /// Follows a link: the resolved node that carries the key, if there is one.
    pub fn node(&self, key: &NodeKey) -> (found: Option<&ResolvedEntry>)
        ensures
            found.deep_view() == self@.node(key@),
    {
        let ghost keys = self@.node_keys();
        let mut i: usize = 0;
        while i < self.entries.len()
            invariant
                i <= self.entries.len(),
                keys == self@.node_keys(),
                keys.len() == self.entries.len() + self.included.len(),
                forall|j: int| 0 <= j < i ==> keys[j] != key@,
            decreases self.entries.len() - i,
        {
            if self.entries[i].key.same_as(key) {
                proof {
                    assert(keys[i as int] == key@);
                    assert(is_first_at(keys, key@, i as int));
                    lemma_position_found(keys, key@, i as int);
                }
                return Some(&self.entries[i]);
            }
            i += 1;
        }
        let mut k: usize = 0;
        while k < self.included.len()
            invariant
                k <= self.included.len(),
                keys == self@.node_keys(),
                keys.len() == self.entries.len() + self.included.len(),
                forall|j: int| 0 <= j < self.entries.len() + k ==> keys[j] != key@,
            decreases self.included.len() - k,
        {
            if self.included[k].key.same_as(key) {
                proof {
                    let at = self.entries.len() + k;
                    assert(keys[at] == key@);
                    assert(is_first_at(keys, key@, at));
                    lemma_position_found(keys, key@, at);
                }
                return Some(&self.included[k]);
            }
            k += 1;
        }
        proof {
            lemma_position_absent(keys, key@);
        }
        None
    }
}

} // verus!
