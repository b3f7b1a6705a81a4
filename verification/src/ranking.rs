//! The order in which artifacts, requests and workspaces are shown.
use vstd::prelude::*;

use crate::protocol::{
    ArtifactKind, ArtifactRef, ArtifactRefView, AttentionCategory, AttentionItem,
    AttentionItemView, WorkspaceSummary, WorkspaceSummaryView,
};
use crate::sequences::Ranked;
use crate::text;

verus! {

/// The rank of a category, the most pressing first.
pub open spec fn category_rank(category: AttentionCategory) -> u8 {
    match category {
        AttentionCategory::Decision => 0,
        AttentionCategory::Blocked => 1,
        AttentionCategory::Help => 2,
        AttentionCategory::ReadyForReview => 3,
    }
}

/// The rank of a category, the most pressing first.
pub fn attention_rank(category: AttentionCategory) -> (r: u8)
    ensures
        r == category_rank(category),
{
    match category {
        AttentionCategory::Decision => 0,
        AttentionCategory::Blocked => 1,
        AttentionCategory::Help => 2,
        AttentionCategory::ReadyForReview => 3,
    }
}

/// The rank of a kind of artifact.
pub open spec fn kind_rank(kind: ArtifactKind) -> u8 {
    match kind {
        ArtifactKind::File => 0,
        ArtifactKind::Patch => 1,
        ArtifactKind::Revision => 2,
        ArtifactKind::TestReceipt => 3,
        ArtifactKind::Url => 4,
    }
}

/// The rank of an artifact by its kind.
pub fn artifact_rank(artifact: &ArtifactRef) -> (r: u8)
    ensures
        r == kind_rank(artifact@.kind),
{
    match artifact.kind {
        ArtifactKind::File => 0,
        ArtifactKind::Patch => 1,
        ArtifactKind::Revision => 2,
        ArtifactKind::TestReceipt => 3,
        ArtifactKind::Url => 4,
    }
}

/// The order of texts, as a strict order whose incomparable elements are equal.
proof fn lemma_text_order(a: Seq<char>, b: Seq<char>, c: Seq<char>)
    ensures
        text::text_before(a, b) ==> !text::text_before(b, a),
        text::text_before(a, b) ==> text::text_before(a, c) || text::text_before(c, b),
{
    if text::text_before(a, b) {
        if text::text_before(b, a) {
            text::lemma_text_transitive(a, b, a);
            text::lemma_text_irreflexive(a);
        }
        text::lemma_text_total(a, c);
        if text::text_before(c, a) {
            text::lemma_text_transitive(c, a, b);
        }
    }
}

impl Ranked for ArtifactRef {
    /// Artifacts are ranked by kind, then by address.
    open spec fn ahead(a: ArtifactRefView, b: ArtifactRefView) -> bool {
        ||| kind_rank(a.kind) < kind_rank(b.kind)
        ||| kind_rank(a.kind) == kind_rank(b.kind) && text::text_before(a.uri, b.uri)
    }

    proof fn asymmetric(a: ArtifactRefView, b: ArtifactRefView) {
        lemma_text_order(a.uri, b.uri, a.uri);
    }

    proof fn comparable(a: ArtifactRefView, b: ArtifactRefView, c: ArtifactRefView) {
        lemma_text_order(a.uri, b.uri, c.uri);
    }

    fn ahead_of(&self, other: &Self) -> (r: bool) {
        let a: u8 = artifact_rank(self);
        let b: u8 = artifact_rank(other);
        a < b || (a == b && text::precedes(self.uri.as_str(), other.uri.as_str()))
    }
}

impl Ranked for AttentionItem {
    /// Requests are ranked by category; within one the older come first, then by scope and event.
    open spec fn ahead(a: AttentionItemView, b: AttentionItemView) -> bool {
        if category_rank(a.category) != category_rank(b.category) {
            category_rank(a.category) < category_rank(b.category)
        } else if a.created_at != b.created_at {
            a.created_at.before(b.created_at)
        } else if a.source_scope != b.source_scope {
            text::text_before(a.source_scope, b.source_scope)
        } else {
            a.source_event_id < b.source_event_id
        }
    }

    proof fn asymmetric(a: AttentionItemView, b: AttentionItemView) {
        lemma_text_order(a.source_scope, b.source_scope, a.source_scope);
    }

    proof fn comparable(a: AttentionItemView, b: AttentionItemView, c: AttentionItemView) {
        lemma_text_order(a.source_scope, b.source_scope, c.source_scope);
        text::lemma_text_total(a.source_scope, c.source_scope);
        text::lemma_text_total(b.source_scope, c.source_scope);
    }

    fn ahead_of(&self, other: &Self) -> (r: bool) {
        let a: u8 = attention_rank(self.category);
        let b: u8 = attention_rank(other.category);
        if a != b {
            a < b
        } else if self.created_at != other.created_at {
            self.created_at.precedes(&other.created_at)
        } else if !text::same(self.source_scope.as_str(), other.source_scope.as_str()) {
            text::precedes(self.source_scope.as_str(), other.source_scope.as_str())
        } else {
            self.source_event_id < other.source_event_id
        }
    }
}

/// Whether one activity is later than another; none is earlier than any.
pub open spec fn later_activity(a: Option<u64>, b: Option<u64>) -> bool {
    match (a, b) {
        (Some(x), Some(y)) => x > y,
        (Some(_), None) => true,
        _ => false,
    }
}

impl Ranked for (Option<u64>, WorkspaceSummary) {
    /// Workspaces are ranked by their last activity, the latest first, then by scope.
    open spec fn ahead(
        a: (Option<u64>, WorkspaceSummaryView),
        b: (Option<u64>, WorkspaceSummaryView),
    ) -> bool {
        ||| later_activity(a.0, b.0)
        ||| a.0 == b.0 && text::text_before(a.1.scope, b.1.scope)
    }

    proof fn asymmetric(
        a: (Option<u64>, WorkspaceSummaryView),
        b: (Option<u64>, WorkspaceSummaryView),
    ) {
        lemma_text_order(a.1.scope, b.1.scope, a.1.scope);
    }

    proof fn comparable(
        a: (Option<u64>, WorkspaceSummaryView),
        b: (Option<u64>, WorkspaceSummaryView),
        c: (Option<u64>, WorkspaceSummaryView),
    ) {
        lemma_text_order(a.1.scope, b.1.scope, c.1.scope);
    }

    fn ahead_of(&self, other: &Self) -> (r: bool) {
        let later: bool = match (self.0, other.0) {
            (Some(x), Some(y)) => x > y,
            (Some(_), None) => true,
            _ => false,
        };
        let level: bool = match (self.0, other.0) {
            (Some(x), Some(y)) => x == y,
            (None, None) => true,
            _ => false,
        };
        later || (level && text::precedes(self.1.scope.as_str(), other.1.scope.as_str()))
    }
}

} // verus!
