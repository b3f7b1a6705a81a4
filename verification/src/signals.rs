//! Signals: what they must hold, and what they ask of a human.
use vstd::prelude::*;

use crate::protocol::{
    ArtifactKind, ArtifactRef, ArtifactRefView, AttentionCategory, AttentionRequest,
    AttentionRequestView, Signal, SignalView,
};
use crate::text;

verus! {

/// The reason why a check failed; none where it passed.
pub open spec fn fault_of(r: Result<(), String>) -> Option<Seq<char>> {
    match r {
        Ok(_) => None,
        Err(reason) => Some(reason@),
    }
}

/// The first of two reasons.
pub open spec fn first_fault(a: Option<Seq<char>>, b: Option<Seq<char>>) -> Option<Seq<char>> {
    if a is Some {
        a
    } else {
        b
    }
}

/// A text must hold more than white space.
pub open spec fn text_fault(field: Seq<char>, value: Seq<char>) -> Option<Seq<char>> {
    if text::is_blank(value) {
        Some(field + " must not be empty"@)
    } else {
        None
    }
}

/// Checks that a text holds more than white space.
pub fn validate_text(field: &str, value: &str) -> (r: Result<(), String>)
    ensures
        fault_of(r) == text_fault(field@, value@),
{
    if text::blank(value) {
        Err(text::concat(field, " must not be empty"))
    } else {
        Ok(())
    }
}

impl SignalView {
    /// The summary that every signal has.
    pub open spec fn summary(self) -> Seq<char> {
        match self {
            SignalView::Working { summary } => summary,
            SignalView::Finding { summary, .. } => summary,
            SignalView::Offering { summary, .. } => summary,
            SignalView::HelpNeeded { summary, .. } => summary,
            SignalView::DecisionNeeded { summary, .. } => summary,
            SignalView::Blocked { summary, .. } => summary,
            SignalView::Checkpoint { summary, .. } => summary,
            SignalView::ReviewRequested { summary, .. } => summary,
            SignalView::Done { summary, .. } => summary,
        }
    }

    /// The artifacts that the signal refers to.
    pub open spec fn artifacts(self) -> Seq<ArtifactRefView> {
        match self {
            SignalView::Working { .. } => Seq::empty(),
            SignalView::Finding { artifacts, .. } => artifacts,
            SignalView::Offering { artifacts, .. } => artifacts,
            SignalView::Checkpoint { artifacts, .. } => artifacts,
            SignalView::HelpNeeded { evidence, .. } => evidence,
            SignalView::DecisionNeeded { evidence, .. } => evidence,
            SignalView::Blocked { evidence, .. } => evidence,
            SignalView::ReviewRequested { evidence, .. } => evidence,
            SignalView::Done { evidence, .. } => evidence,
        }
    }

    /// Whether the signal asks for human attention.
    pub open spec fn asks_attention(self) -> bool {
        self is HelpNeeded || self is DecisionNeeded || self is Blocked || self is ReviewRequested
    }

    /// Whether the signal speaks of work that its sender must own.
    pub open spec fn requires_work(self) -> bool {
        self is Working || self is Checkpoint || self is ReviewRequested || self is Done
    }

    /// What the signal asks of a human: the category, the request and its evidence.
    pub open spec fn attention(self) -> Option<
        (AttentionCategory, AttentionRequestView, Seq<ArtifactRefView>),
    > {
        match self {
            SignalView::DecisionNeeded { summary, choices, recommendation, evidence, .. } => Some(
                (
                    AttentionCategory::Decision,
                    AttentionRequestView::Decision { question: summary, choices, recommendation },
                    evidence,
                ),
            ),
            SignalView::Blocked { summary, requested_action, evidence, .. } => Some(
                (
                    AttentionCategory::Blocked,
                    AttentionRequestView::Intervention {
                        blocker: summary,
                        requested_action: stated_or(
                            requested_action,
                            "Provide direction to unblock this work."@,
                        ),
                    },
                    evidence,
                ),
            ),
            SignalView::HelpNeeded { summary, requested_action, evidence, .. } => Some(
                (
                    AttentionCategory::Help,
                    AttentionRequestView::Intervention {
                        blocker: summary,
                        requested_action: stated_or(
                            requested_action,
                            "Provide the requested help or direction."@,
                        ),
                    },
                    evidence,
                ),
            ),
            SignalView::ReviewRequested {
                summary,
                requested_action,
                known_risk,
                evidence,
                ..
            } => Some(
                (
                    AttentionCategory::ReadyForReview,
                    AttentionRequestView::Review {
                        summary,
                        requested_action: stated_or(
                            requested_action,
                            "Inspect the referenced change and mark it reviewed or request changes."@,
                        ),
                        known_risk: stated_or(known_risk, "Not recorded by the legacy request."@),
                    },
                    evidence,
                ),
            ),
            _ => None,
        }
    }

    /// The reason why the signal is not fit to be published.
    pub open spec fn fault(self) -> Option<Seq<char>> {
        first_fault(
            text_fault("summary"@, self.summary()),
            first_fault(
                artifact_fault(self.artifacts()),
                first_fault(self.identity_fault(), self.detail_fault()),
            ),
        )
    }

    /// A request must have an identity with a key.
    pub open spec fn identity_fault(self) -> Option<Seq<char>> {
        if !self.asks_attention() {
            None
        } else {
            match self.request_identity() {
                None => Some("attention request needs request identity"@),
                Some(identity) => text_fault("request key"@, identity.request_key),
            }
        }
    }

    /// What else a request of each kind must hold.
    pub open spec fn detail_fault(self) -> Option<Seq<char>> {
        match self {
            SignalView::HelpNeeded { requested_action, .. } => text_fault(
                "requested action"@,
                requested_action,
            ),
            SignalView::Blocked { requested_action, .. } => text_fault(
                "requested action"@,
                requested_action,
            ),
            SignalView::DecisionNeeded { choices, recommendation, evidence, .. } => decision_fault(
                choices,
                recommendation,
                evidence,
            ),
            SignalView::ReviewRequested {
                requested_action,
                known_risk,
                evidence,
                ..
            } => review_fault(requested_action, known_risk, evidence),
            _ => None,
        }
    }
}

/// A request for a decision has at most nine choices, none of them blank, no blank recommendation
/// and some evidence.
pub open spec fn decision_fault(
    choices: Seq<Seq<char>>,
    recommendation: Option<Seq<char>>,
    evidence: Seq<ArtifactRefView>,
) -> Option<Seq<char>> {
    if choices.len() > 9 {
        Some("a decision request supports at most 9 choices"@)
    } else if exists|i: int| 0 <= i < choices.len() && text::is_blank(#[trigger] choices[i]) {
        Some("choice"@ + " must not be empty"@)
    } else if recommendation is Some && text::is_blank(recommendation->0) {
        Some("recommendation"@ + " must not be empty"@)
    } else if evidence.len() == 0 {
        Some("a decision request needs supporting evidence"@)
    } else {
        None
    }
}

/// A request for a review states an action and the known risk, and refers to a change and to the
/// receipt of a test.
pub open spec fn review_fault(
    requested_action: Seq<char>,
    known_risk: Seq<char>,
    evidence: Seq<ArtifactRefView>,
) -> Option<Seq<char>> {
    first_fault(
        text_fault("requested action"@, requested_action),
        first_fault(
            text_fault("known risk"@, known_risk),
            if !holds_change(evidence) {
                Some("a review request needs a revision or diff artifact"@)
            } else if !holds_receipt(evidence) {
                Some("a review request needs a verification receipt"@)
            } else {
                None
            },
        ),
    )
}

/// Every artifact has an address.
pub open spec fn artifact_fault(artifacts: Seq<ArtifactRefView>) -> Option<Seq<char>> {
    if exists|i: int| 0 <= i < artifacts.len() && text::is_blank((#[trigger] artifacts[i]).uri) {
        Some("artifact URI"@ + " must not be empty"@)
    } else {
        None
    }
}

/// Whether some artifact is a patch or a revision.
pub open spec fn holds_change(evidence: Seq<ArtifactRefView>) -> bool {
    exists|i: int|
        0 <= i < evidence.len() && ((#[trigger] evidence[i]).kind is Patch
            || evidence[i].kind is Revision)
}

/// Whether some artifact is the receipt of a test.
pub open spec fn holds_receipt(evidence: Seq<ArtifactRefView>) -> bool {
    exists|i: int| 0 <= i < evidence.len() && (#[trigger] evidence[i]).kind is TestReceipt
}

/// A text, or the fallback where it holds nothing but white space.
pub open spec fn stated_or(value: Seq<char>, fallback: Seq<char>) -> Seq<char> {
    if text::is_blank(value) {
        fallback
    } else {
        value
    }
}

/// A text, or the fallback where it holds nothing but white space.
pub fn legacy_action(value: &str, fallback: &str) -> (r: String)
    ensures
        r@ == stated_or(value@, fallback@),
{
    if text::blank(value) {
        fallback.to_owned()
    } else {
        value.to_owned()
    }
}

/// What a signal asks of a human: the category, the request and its evidence.
pub fn attention_signal(signal: &Signal) -> (r: Option<
    (AttentionCategory, AttentionRequest, &Vec<ArtifactRef>),
>)
    ensures
        r.deep_view() == signal@.attention(),
{
    match signal {
        Signal::DecisionNeeded { summary, choices, recommendation, evidence, .. } => {
            let offered = choices.clone();
            assert(offered.deep_view() =~= choices.deep_view());
            Some(
                (
                    AttentionCategory::Decision,
                    AttentionRequest::Decision {
                        question: summary.clone(),
                        choices: offered,
                        recommendation: recommendation.clone(),
                    },
                    evidence,
                ),
            )
        },
        Signal::Blocked { summary, requested_action, evidence, .. } => Some(
            (
                AttentionCategory::Blocked,
                AttentionRequest::Intervention {
                    blocker: summary.clone(),
                    requested_action: legacy_action(
                        requested_action.as_str(),
                        "Provide direction to unblock this work.",
                    ),
                },
                evidence,
            ),
        ),
        Signal::HelpNeeded { summary, requested_action, evidence, .. } => Some(
            (
                AttentionCategory::Help,
                AttentionRequest::Intervention {
                    blocker: summary.clone(),
                    requested_action: legacy_action(
                        requested_action.as_str(),
                        "Provide the requested help or direction.",
                    ),
                },
                evidence,
            ),
        ),
        Signal::ReviewRequested { summary, requested_action, known_risk, evidence, .. } => Some(
            (
                AttentionCategory::ReadyForReview,
                AttentionRequest::Review {
                    summary: summary.clone(),
                    requested_action: legacy_action(
                        requested_action.as_str(),
                        "Inspect the referenced change and mark it reviewed or request changes.",
                    ),
                    known_risk: legacy_action(
                        known_risk.as_str(),
                        "Not recorded by the legacy request.",
                    ),
                },
                evidence,
            ),
        ),
        _ => None,
    }
}

/// Whether a signal asks for human attention.
pub fn asks_attention(signal: &Signal) -> (r: bool)
    ensures
        r == signal@.asks_attention(),
{
    match signal {
        Signal::HelpNeeded { .. } => true,
        Signal::DecisionNeeded { .. } => true,
        Signal::Blocked { .. } => true,
        Signal::ReviewRequested { .. } => true,
        _ => false,
    }
}

/// The artifacts that a signal refers to; none where its kind has no place for them.
pub fn signal_artifacts(signal: &Signal) -> (r: Option<&Vec<ArtifactRef>>)
    ensures
        signal@.artifacts() == (match r {
            Some(artifacts) => artifacts.deep_view(),
            None => Seq::empty(),
        }),
{
    match signal {
        Signal::Finding { artifacts, .. } => Some(artifacts),
        Signal::Offering { artifacts, .. } => Some(artifacts),
        Signal::Checkpoint { artifacts, .. } => Some(artifacts),
        Signal::HelpNeeded { evidence, .. } => Some(evidence),
        Signal::DecisionNeeded { evidence, .. } => Some(evidence),
        Signal::Blocked { evidence, .. } => Some(evidence),
        Signal::ReviewRequested { evidence, .. } => Some(evidence),
        Signal::Done { evidence, .. } => Some(evidence),
        Signal::Working { .. } => None,
    }
}

/// Whether a signal speaks of work that its sender must own.
pub fn signal_requires_work(signal: &Signal) -> (r: bool)
    ensures
        r == signal@.requires_work(),
{
    match signal {
        Signal::Working { .. } => true,
        Signal::Checkpoint { .. } => true,
        Signal::ReviewRequested { .. } => true,
        Signal::Done { .. } => true,
        _ => false,
    }
}

/// Whether a signal can come only from the owner of its work.
pub fn signal_requires_ownership(signal: &Signal) -> (r: bool)
    ensures
        r == signal@.requires_work(),
{
    signal_requires_work(signal)
}

/// Checks that every artifact has an address.
fn validate_artifacts(artifacts: &Vec<ArtifactRef>) -> (r: Result<(), String>)
    ensures
        fault_of(r) == artifact_fault(artifacts.deep_view()),
{
    let ghost all = artifacts.deep_view();
    let mut i: usize = 0;
    while i < artifacts.len()
        invariant
            i <= artifacts.len(),
            all == artifacts.deep_view(),
            forall|j: int| 0 <= j < i ==> !text::is_blank((#[trigger] all[j]).uri),
        decreases artifacts.len() - i,
    {
        let checked = validate_text("artifact URI", artifacts[i].uri.as_str());
        assert(all[i as int].uri == artifacts@[i as int].uri@);
        if checked.is_err() {
            return checked;
        }
        i = i + 1;
    }
    Ok(())
}

/// Checks what a request for a decision must hold.
fn validate_decision(
    choices: &Vec<String>,
    recommendation: &Option<String>,
    evidence: &Vec<ArtifactRef>,
) -> (r: Result<(), String>)
    ensures
        fault_of(r) == decision_fault(
            choices.deep_view(),
            recommendation.deep_view(),
            evidence.deep_view(),
        ),
{
    if choices.len() > 9 {
        return Err("a decision request supports at most 9 choices".to_owned());
    }
    let ghost all = choices.deep_view();
    let mut i: usize = 0;
    while i < choices.len()
        invariant
            i <= choices.len() <= 9,
            all == choices.deep_view(),
            forall|j: int| 0 <= j < i ==> !text::is_blank(#[trigger] all[j]),
        decreases choices.len() - i,
    {
        let checked = validate_text("choice", choices[i].as_str());
        assert(all[i as int] == choices@[i as int]@);
        if checked.is_err() {
            return checked;
        }
        i = i + 1;
    }
    if let Some(recommended) = recommendation {
        let checked = validate_text("recommendation", recommended.as_str());
        if checked.is_err() {
            return checked;
        }
    }
    if evidence.len() == 0 {
        return Err("a decision request needs supporting evidence".to_owned());
    }
    Ok(())
}

/// Whether some artifact is a patch or a revision, and whether some is the receipt of a test.
fn evidence_kinds(evidence: &Vec<ArtifactRef>) -> (r: (bool, bool))
    ensures
        r.0 == holds_change(evidence.deep_view()),
        r.1 == holds_receipt(evidence.deep_view()),
{
    let ghost all = evidence.deep_view();
    let mut change: bool = false;
    let mut receipt: bool = false;
    let mut i: usize = 0;
    assert(all.take(0) == Seq::<ArtifactRefView>::empty());
    while i < evidence.len()
        invariant
            i <= evidence.len(),
            all == evidence.deep_view(),
            change == holds_change(all.take(i as int)),
            receipt == holds_receipt(all.take(i as int)),
        decreases evidence.len() - i,
    {
        let kind: ArtifactKind = evidence[i].kind;
        let ghost before = all.take(i as int);
        let ghost after = all.take(i + 1);
        assert(after == before.push(all[i as int]));
        assert(after[i as int].kind == kind);
        assert(forall|j: int| 0 <= j < i ==> #[trigger] after[j] == before[j]);
        assert(forall|j: int| 0 <= j < i ==> after[j] == #[trigger] before[j]);
        change = change || kind == ArtifactKind::Patch || kind == ArtifactKind::Revision;
        receipt = receipt || kind == ArtifactKind::TestReceipt;
        i = i + 1;
    }
    assert(all.take(i as int) == all);
    (change, receipt)
}

/// Checks what a request for a review must hold.
fn validate_review(
    requested_action: &str,
    known_risk: &str,
    evidence: &Vec<ArtifactRef>,
) -> (r: Result<(), String>)
    ensures
        fault_of(r) == review_fault(requested_action@, known_risk@, evidence.deep_view()),
{
    let checked = validate_text("requested action", requested_action);
    if checked.is_err() {
        return checked;
    }
    let checked = validate_text("known risk", known_risk);
    if checked.is_err() {
        return checked;
    }
    let (change, receipt) = evidence_kinds(evidence);
    if !change {
        return Err("a review request needs a revision or diff artifact".to_owned());
    }
    if !receipt {
        return Err("a review request needs a verification receipt".to_owned());
    }
    Ok(())
}

/// Checks what every signal must hold: a summary and artifacts with addresses.
fn validate_common(signal: &Signal) -> (r: Result<(), String>)
    ensures
        fault_of(r) == first_fault(
            text_fault("summary"@, signal@.summary()),
            artifact_fault(signal@.artifacts()),
        ),
{
    let summary = match signal {
        Signal::Working { summary } => summary,
        Signal::Finding { summary, .. } => summary,
        Signal::Offering { summary, .. } => summary,
        Signal::HelpNeeded { summary, .. } => summary,
        Signal::DecisionNeeded { summary, .. } => summary,
        Signal::Blocked { summary, .. } => summary,
        Signal::Checkpoint { summary, .. } => summary,
        Signal::ReviewRequested { summary, .. } => summary,
        Signal::Done { summary, .. } => summary,
    };
    let checked = validate_text("summary", summary.as_str());
    if checked.is_err() {
        return checked;
    }
    match signal_artifacts(signal) {
        Some(artifacts) => validate_artifacts(artifacts),
        None => Ok(()),
    }
}

/// Checks that a request has an identity with a key.
fn validate_identity(signal: &Signal) -> (r: Result<(), String>)
    ensures
        fault_of(r) == signal@.identity_fault(),
{
    if !asks_attention(signal) {
        return Ok(());
    }
    match signal.request_identity() {
        None => Err("attention request needs request identity".to_owned()),
        Some(identity) => validate_text("request key", identity.request_key.as_str()),
    }
}

/// Checks that a signal is fit to be published.
pub fn validate_signal(signal: &Signal) -> (r: Result<(), String>)
    ensures
        fault_of(r) == signal@.fault(),
{
    let checked = validate_common(signal);
    if checked.is_err() {
        return checked;
    }
    let checked = validate_identity(signal);
    if checked.is_err() {
        return checked;
    }
    match signal {
        Signal::HelpNeeded { requested_action, .. } => validate_text(
            "requested action",
            requested_action.as_str(),
        ),
        Signal::Blocked { requested_action, .. } => validate_text(
            "requested action",
            requested_action.as_str(),
        ),
        Signal::DecisionNeeded { choices, recommendation, evidence, .. } => validate_decision(
            choices,
            recommendation,
            evidence,
        ),
        Signal::ReviewRequested { requested_action, known_risk, evidence, .. } => validate_review(
            requested_action.as_str(),
            known_risk.as_str(),
            evidence,
        ),
        _ => Ok(()),
    }
}

/// A signal that is fit to be published and asks for attention can be acted on: it has an identity
/// with a key; help and a block name the action that is wanted; a decision has no more than nine
/// choices, none of them blank, and some evidence; a review names the action and the risk and
/// refers to a change and to the receipt of a test.
pub proof fn fit_requests_are_actionable(signal: SignalView)
    requires
        signal.asks_attention(),
        signal.fault() is None,
    ensures
        !text::is_blank(signal.summary()),
        forall|i: int|
            0 <= i < signal.artifacts().len() ==> !text::is_blank(
                (#[trigger] signal.artifacts()[i]).uri,
            ),
        signal.request_identity() is Some,
        !text::is_blank(signal.request_identity()->0.request_key),
        match signal {
            SignalView::HelpNeeded { requested_action, .. } => !text::is_blank(requested_action),
            SignalView::Blocked { requested_action, .. } => !text::is_blank(requested_action),
            SignalView::DecisionNeeded { choices, recommendation, evidence, .. } => {
                &&& choices.len() <= 9
                &&& forall|i: int|
                    0 <= i < choices.len() ==> !text::is_blank(#[trigger] choices[i])
                &&& recommendation is Some ==> !text::is_blank(recommendation->0)
                &&& evidence.len() > 0
            },
            SignalView::ReviewRequested { requested_action, known_risk, evidence, .. } => {
                &&& !text::is_blank(requested_action)
                &&& !text::is_blank(known_risk)
                &&& holds_change(evidence)
                &&& holds_receipt(evidence)
            },
            _ => true,
        },
{
}

} // verus!
