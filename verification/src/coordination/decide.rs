//! Decisions on commands.
use vstd::prelude::*;

use crate::coordination::{
    CoordinationState, Decision, DecisionContext, PendingEvent, PendingEventView, find_delivery,
};
use crate::model;
use crate::model::{StateView, StoredSignalView};
use crate::ordered;
use crate::protocol::{
    Command, Conflict, Direction, DirectionDelivery, DirectionId, DirectionTarget, DirectionView,
    EnvironmentManifest, EventKind, LeaveReason, Participant, ParticipantId, ParticipantView,
    PublishedSignal, ReleaseReason, RequestId, RequestIdentity, Signal, WorkClaim, WorkClaimView,
    WorkId, Workspace,
};
use crate::resources;
use crate::sequences::Equal;
use crate::signals;
use crate::text;
use crate::time;
use crate::time::Timestamp;

verus! {

/// Acceptance of a command with one event.
fn single(
    scope: String,
    event: EventKind,
    participant_id: Option<ParticipantId>,
    work_id: Option<WorkId>,
) -> (r: Decision)
    ensures
        r@ == model::accepted(scope@, event@, participant_id, work_id),
{
    let mut events: Vec<PendingEvent> = Vec::new();
    let pending = PendingEvent { scope, event };
    let ghost view = pending@;
    events.push(pending);
    assert(events.deep_view() == seq![view]);
    Decision::Accepted { events, participant_id, work_id }
}

/// Acceptance of a command that changes nothing.
fn no_change(participant_id: Option<ParticipantId>) -> (r: Decision)
    ensures
        r@ == model::unchanged(participant_id),
{
    let events: Vec<PendingEvent> = Vec::new();
    assert(events.deep_view() == Seq::<PendingEventView>::empty());
    Decision::Accepted { events, participant_id, work_id: None }
}

/// Checks that a workspace is fit to be defined.
fn validate_workspace(workspace: &Workspace) -> (r: Result<(), String>)
    ensures
        signals::fault_of(r) == model::workspace_fault(workspace@),
{
    let checked = signals::validate_text("scope", workspace.scope.as_str());
    if checked.is_err() {
        return checked;
    }
    let checked = signals::validate_text("title", workspace.title.as_str());
    if checked.is_err() {
        return checked;
    }
    let checked = signals::validate_text("objective", workspace.objective.as_str());
    if checked.is_err() {
        return checked;
    }
    let identifier = &workspace.linear_issue.identifier;
    let checked = signals::validate_text("Linear issue identifier", identifier.as_str());
    if checked.is_err() {
        return checked;
    }
    let expected = text::concat("linear:", identifier.as_str());
    if !text::same(workspace.scope.as_str(), expected.as_str()) {
        return Err("workspace scope must be linear:<issue identifier>".to_owned());
    }
    match &workspace.repository {
        Some(repository) => signals::validate_text("repository", repository.repository.as_str()),
        None => Ok(()),
    }
}

/// Checks that a lease lasts from 5 to 300 seconds.
pub fn validate_lease(seconds: u64) -> (r: Result<(), String>)
    ensures
        signals::fault_of(r) == model::lease_fault(seconds),
{
    if 5 <= seconds && seconds <= 300 {
        Ok(())
    } else {
        Err("lease must be between 5 and 300 seconds".to_owned())
    }
}

/// Whether the calendar has room for the lease that a command asks for.
pub fn lease_fits(command: &Command, now: &Timestamp) -> (r: bool)
    ensures
        r == model::lease_fits(command@, *now),
{
    let lease_seconds: u64 = match command {
        Command::Join { lease_seconds, .. } => *lease_seconds,
        Command::RenewPresence { lease_seconds, .. } => *lease_seconds,
        _ => return true,
    };
    lease_seconds < 5 || lease_seconds > 300 || now.allows(lease_seconds)
}

/// The end of a lease.
fn lease_expiry(now: Timestamp, seconds: u64) -> (r: Timestamp)
    requires
        5 <= seconds <= 300,
        now.has_room(seconds as int),
    ensures
        r == now.later(seconds as int),
{
    time::add_seconds(now, seconds as i64)
}

impl CoordinationState {
    /// The participant, where it is present and its lease has not ended.
    fn live_participant(&self, id: ParticipantId, now: Timestamp) -> (r: Option<&Participant>)
        ensures
            r.deep_view() == self@.live(id, now),
    {
        match self.participants.get(&id) {
            Some(participant) => if now.precedes(&participant.expires_at) {
                Some(participant)
            } else {
                None
            },
            None => None,
        }
    }

    /// Decides on a human direction.
    pub fn intervene(
        &self,
        scope: String,
        message: String,
        author: String,
        target: Option<DirectionTarget>,
        context: &DecisionContext,
    ) -> (r: Decision)
        ensures
            r@ == self@.directed(scope@, message@, author@, target.deep_view(), *context),
    {
        if let Err(reason) = signals::validate_text("scope", scope.as_str()) {
            return Decision::Rejected(reason);
        }
        if let Err(reason) = signals::validate_text("message", message.as_str()) {
            return Decision::Rejected(reason);
        }
        if let Err(reason) = signals::validate_text("author", author.as_str()) {
            return Decision::Rejected(reason);
        }
        if let Some(named) = &target {
            if !self.names_open_request(scope.as_str(), named) {
                return Decision::Rejected(
                    "direction target does not identify a source request in this workspace".to_owned(),
                );
            }
        }
        let direction = Direction {
            id: context.direction_id,
            scope: scope.clone(),
            message,
            author,
            created_at: context.now,
            target,
            deliveries: Vec::new(),
        };
        assert(direction.deliveries.deep_view() == Seq::<DirectionDelivery>::empty());
        single(scope, EventKind::DirectionIssued { direction }, None, None)
    }

    /// Decides on the definition of a workspace.
    pub fn define_workspace(&self, workspace: Workspace) -> (r: Decision)
        ensures
            r@ == self@.defined(workspace@),
    {
        if let Err(reason) = validate_workspace(&workspace) {
            return Decision::Rejected(reason);
        }
        if let Some(existing) = self.workspaces.get(&workspace.scope) {
            return if existing.equals(&workspace) {
                no_change(None)
            } else {
                Decision::Rejected(
                    "workspace is already defined with different metadata".to_owned(),
                )
            };
        }
        single(
            workspace.scope.clone(),
            EventKind::WorkspaceDefined { workspace },
            None,
            None,
        )
    }

    /// Checks that a workspace's metadata can be taken in place of what is known.
    fn check_refresh(&self, workspace: &Workspace) -> (r: Result<(), String>)
        ensures
            signals::fault_of(r) == self@.refresh_fault(workspace@),
    {
        let checked = validate_workspace(workspace);
        if checked.is_err() {
            return checked;
        }
        let existing = match self.workspaces.get(&workspace.scope) {
            Some(existing) => existing,
            None => return Err("workspace must be defined before metadata refresh".to_owned()),
        };
        if !existing.linear_issue.identifier.equals(&workspace.linear_issue.identifier)
            || !existing.repository.equals(&workspace.repository) {
            return Err("workspace identity cannot change during refresh".to_owned());
        }
        let metadata = match &workspace.linear_issue.metadata {
            Some(metadata) => metadata,
            None => return Err("refreshed Linear metadata must include source state".to_owned()),
        };
        let checked = signals::validate_text("Linear status", metadata.status.as_str());
        if checked.is_err() {
            return checked;
        }
        if let Some(cached) = &existing.linear_issue.metadata {
            if metadata.updated_at.precedes(&cached.updated_at) {
                return Err("Linear metadata refresh is older than cached state".to_owned());
            }
            if metadata.updated_at == cached.updated_at && !existing.equals(workspace) {
                return Err("Linear metadata changed without a newer source timestamp".to_owned());
            }
        }
        Ok(())
    }

    /// Decides on the refresh of a workspace's metadata.
    pub fn refresh_workspace_metadata(&self, workspace: Workspace) -> (r: Decision)
        ensures
            r@ == self@.refreshed(workspace@),
    {
        if let Err(reason) = self.check_refresh(&workspace) {
            return Decision::Rejected(reason);
        }
        if let Some(existing) = self.workspaces.get(&workspace.scope) {
            if existing.equals(&workspace) {
                return no_change(None);
            }
        }
        single(
            workspace.scope.clone(),
            EventKind::WorkspaceMetadataUpdated { workspace },
            None,
            None,
        )
    }

    /// Decides on joining a scope.
    pub fn join(
        &self,
        scope: String,
        name: String,
        manifest: EnvironmentManifest,
        lease_seconds: u64,
        context: &DecisionContext,
    ) -> (r: Decision)
        requires
            5 <= lease_seconds <= 300 ==> context.now.has_room(lease_seconds as int),
        ensures
            r@ == self@.joined(scope@, name@, manifest@, lease_seconds, *context),
    {
        if let Err(reason) = signals::validate_text("scope", scope.as_str()) {
            return Decision::Rejected(reason);
        }
        if let Err(reason) = signals::validate_text("name", name.as_str()) {
            return Decision::Rejected(reason);
        }
        if let Err(reason) = validate_lease(lease_seconds) {
            return Decision::Rejected(reason);
        }
        let participant = Participant {
            id: context.participant_id,
            scope: scope.clone(),
            name,
            manifest,
            joined_at: context.now,
            expires_at: lease_expiry(context.now, lease_seconds),
        };
        single(
            scope,
            EventKind::ParticipantJoined { participant },
            Some(context.participant_id),
            None,
        )
    }

    /// Decides on the renewal of a participant's presence.
    pub fn renew(
        &self,
        participant_id: ParticipantId,
        lease_seconds: u64,
        context: &DecisionContext,
    ) -> (r: Decision)
        requires
            5 <= lease_seconds <= 300 ==> context.now.has_room(lease_seconds as int),
        ensures
            r@ == self@.renewed(participant_id, lease_seconds, *context),
    {
        let participant = match self.live_participant(participant_id, context.now) {
            Some(participant) => participant,
            None => return Decision::Rejected(
                "participant is absent or its lease expired".to_owned(),
            ),
        };
        if let Err(reason) = validate_lease(lease_seconds) {
            return Decision::Rejected(reason);
        }
        single(
            participant.scope.clone(),
            EventKind::PresenceRenewed {
                participant_id,
                expires_at: lease_expiry(context.now, lease_seconds),
            },
            Some(participant_id),
            None,
        )
    }

    /// The claims of a scope that overlap the resources that are asked for.
    fn conflicts(&self, scope: &str, wanted: &Vec<String>) -> (r: Vec<Conflict>)
        ensures
            r.deep_view() == self@.conflicts(scope@, wanted.deep_view()),
    {
        let ghost all = ordered::in_order::<WorkId, WorkClaimView>(self.work@);
        let ghost f = StateView::conflict_with(scope@, wanted.deep_view());
        let mut found: Vec<Conflict> = Vec::new();
        let mut i: usize = 0;
        assert(all.take(0) == Seq::<WorkClaimView>::empty());
        assert(found.deep_view() == all.take(0).filter_map(f));
        while i < self.work.len()
            invariant
                i <= all.len(),
                all == ordered::in_order::<WorkId, WorkClaimView>(self.work@),
                f == StateView::conflict_with(scope@, wanted.deep_view()),
                found.deep_view() == all.take(i as int).filter_map(f),
            decreases all.len() - i,
        {
            proof {
                all.lemma_filter_map_take_succ(f, i as int);
            }
            let ghost before = found.deep_view();
            let work = self.work.value_at(i);
            if text::same(work.scope.as_str(), scope) && resources::resources_overlap(
                wanted,
                &work.resources,
            ) {
                let held = work.resources.clone();
                assert(held.deep_view() =~= work.resources.deep_view());
                let conflict = Conflict {
                    work_id: work.id,
                    owner: work.owner,
                    resources: held,
                    summary: work.summary.clone(),
                };
                let ghost view = conflict@;
                found.push(conflict);
                assert(found.deep_view() == before.push(view));
            }
            i = i + 1;
        }
        assert(all.take(i as int) == all);
        found
    }

    /// Decides on a claim of work.
    pub fn claim(
        &self,
        participant_id: ParticipantId,
        summary: String,
        resources: Vec<String>,
        context: &DecisionContext,
    ) -> (r: Decision)
        ensures
            r@ == self@.claimed(participant_id, summary@, resources.deep_view(), *context),
    {
        let participant = match self.live_participant(participant_id, context.now) {
            Some(participant) => participant,
            None => return Decision::Rejected(
                "participant is absent or its lease expired".to_owned(),
            ),
        };
        if let Err(reason) = signals::validate_text("summary", summary.as_str()) {
            return Decision::Rejected(reason);
        }
        let paths = match resources::normalize_resources(resources, context.paths) {
            Ok(paths) => paths,
            Err(reason) => return Decision::Rejected(reason),
        };
        if paths.len() == 0 {
            return Decision::Rejected("a work claim needs at least one resource".to_owned());
        }
        let scope = &participant.scope;
        let conflicts = self.conflicts(scope.as_str(), &paths);
        if conflicts.len() > 0 {
            let reported = conflicts.clone();
            assert(reported.deep_view() =~= conflicts.deep_view());
            let mut events: Vec<PendingEvent> = Vec::new();
            let pending = PendingEvent {
                scope: scope.clone(),
                event: EventKind::OverlapDetected {
                    attempted_by: participant_id,
                    attempted_resources: paths,
                    conflicts: reported,
                },
            };
            let ghost view = pending@;
            events.push(pending);
            assert(events.deep_view() == seq![view]);
            return Decision::Conflict { events, conflicts };
        }
        let work = WorkClaim {
            id: context.work_id,
            scope: scope.clone(),
            owner: participant_id,
            summary,
            resources: paths,
            claimed_at: context.now,
        };
        single(
            scope.clone(),
            EventKind::WorkClaimed { work },
            Some(participant_id),
            Some(context.work_id),
        )
    }

    /// Whether some signal makes the request of a given identity.
    fn knows_request(&self, request_id: RequestId) -> (r: bool)
        ensures
            r == self@.knows_request(request_id),
    {
        let ghost all = self.signals.deep_view();
        let mut i: usize = 0;
        while i < self.signals.len()
            invariant
                i <= self.signals.len(),
                all == self.signals.deep_view(),
                all == self@.signals,
                forall|j: int| 0 <= j < i ==> !(#[trigger] all[j]).makes(request_id),
            decreases self.signals.len() - i,
        {
            if self.signals[i].makes(request_id) {
                assert(all[i as int].makes(request_id));
                return true;
            }
            i = i + 1;
        }
        false
    }

    /// Whether a participant has made the request of a given identity on given work in a scope.
    fn made_request(
        &self,
        scope: &str,
        participant_id: ParticipantId,
        work_id: Option<WorkId>,
        request_id: RequestId,
    ) -> (r: bool)
        ensures
            r == self@.made_request(scope@, participant_id, work_id, request_id),
    {
        let ghost all = self.signals.deep_view();
        let mut i: usize = 0;
        while i < self.signals.len()
            invariant
                i <= self.signals.len(),
                all == self.signals.deep_view(),
                all == self@.signals,
                forall|j: int|
                    0 <= j < i ==> !((#[trigger] all[j]).makes(request_id) && all[j].scope == scope@
                        && all[j].published.participant_id == participant_id
                        && all[j].published.work_id == work_id),
            decreases self.signals.len() - i,
        {
            let stored = &self.signals[i];
            assert(all[i as int] == stored@);
            if text::same(stored.scope.as_str(), scope) && stored.published.participant_id
                == participant_id && stored.published.work_id.equals(&work_id) && stored.makes(
                request_id,
            ) {
                return true;
            }
            i = i + 1;
        }
        false
    }

    /// Checks that a request may be published.
    fn check_request(
        &self,
        participant_id: ParticipantId,
        scope: &str,
        work_id: Option<WorkId>,
        identity: &RequestIdentity,
    ) -> (r: Result<(), String>)
        ensures
            signals::fault_of(r) == self@.request_fault(
                participant_id,
                scope@,
                work_id,
                identity@,
            ),
    {
        if self.knows_request(identity.request_id) {
            return Err("request ID already exists".to_owned());
        }
        match identity.supersedes_request_id {
            None => Ok(()),
            Some(superseded) => if superseded == identity.request_id {
                Err("request cannot supersede itself".to_owned())
            } else if !self.made_request(scope, participant_id, work_id, superseded) {
                Err("superseded request does not exist".to_owned())
            } else {
                Ok(())
            },
        }
    }

    /// Checks that a signal may be published on given work.
    fn check_work(
        &self,
        participant_id: ParticipantId,
        scope: &str,
        work_id: Option<WorkId>,
        signal: &Signal,
    ) -> (r: Result<(), String>)
        ensures
            signals::fault_of(r) == self@.work_fault(participant_id, scope@, work_id, signal@),
    {
        match work_id {
            Some(id) => match self.work.get(&id) {
                None => Err("work claim is not active".to_owned()),
                Some(work) => if !text::same(work.scope.as_str(), scope) {
                    Err("work claim belongs to a different workspace".to_owned())
                } else if signals::signal_requires_ownership(signal) && work.owner != participant_id {
                    Err("signal requires ownership of the work claim".to_owned())
                } else {
                    Ok(())
                },
            },
            None => if signals::signal_requires_work(signal) {
                Err("signal requires an active work claim".to_owned())
            } else {
                Ok(())
            },
        }
    }

    /// Checks that a present participant may publish a signal.
    fn check_publication(
        &self,
        participant_id: ParticipantId,
        scope: &str,
        work_id: Option<WorkId>,
        signal: &Signal,
    ) -> (r: Result<(), String>)
        ensures
            signals::fault_of(r) == self@.publish_fault(participant_id, scope@, work_id, signal@),
    {
        let checked = signals::validate_signal(signal);
        if checked.is_err() {
            return checked;
        }
        if let Some(identity) = signal.request_identity() {
            let checked = self.check_request(participant_id, scope, work_id, identity);
            if checked.is_err() {
                return checked;
            }
        }
        self.check_work(participant_id, scope, work_id, signal)
    }

    /// Decides on the publication of a signal.
    pub fn publish(
        &self,
        participant_id: ParticipantId,
        work_id: Option<WorkId>,
        signal: Signal,
        context: &DecisionContext,
    ) -> (r: Decision)
        ensures
            r@ == self@.published(participant_id, work_id, signal@, *context),
    {
        let participant = match self.live_participant(participant_id, context.now) {
            Some(participant) => participant,
            None => return Decision::Rejected(
                "participant is absent or its lease expired".to_owned(),
            ),
        };
        let scope = &participant.scope;
        if let Err(reason) = self.check_publication(
            participant_id,
            scope.as_str(),
            work_id,
            &signal,
        ) {
            return Decision::Rejected(reason);
        }
        let released: Option<(WorkId, ParticipantId)> = match (&signal, work_id) {
            (Signal::Done { .. }, Some(id)) => match self.work.get(&id) {
                Some(work) => Some((id, work.owner)),
                None => None,
            },
            _ => None,
        };
        let mut events: Vec<PendingEvent> = Vec::new();
        let publication = PendingEvent {
            scope: scope.clone(),
            event: EventKind::SignalPublished {
                published: PublishedSignal {
                    participant_id,
                    work_id,
                    signal,
                    published_at: context.now,
                },
            },
        };
        let ghost first = publication@;
        events.push(publication);
        assert(events.deep_view() == seq![first]);
        if let Some((id, owner)) = released {
            let release = PendingEvent {
                scope: scope.clone(),
                event: EventKind::WorkReleased {
                    work_id: id,
                    previous_owner: owner,
                    reason: ReleaseReason::Completed,
                },
            };
            let ghost second = release@;
            events.push(release);
            assert(events.deep_view() == seq![first, second]);
        }
        Decision::Accepted { events, participant_id: Some(participant_id), work_id }
    }

    /// The position of the first signal that makes the request of a given identity.
    fn find_request(&self, request_id: RequestId) -> (r: Option<usize>)
        ensures
            match r {
                Some(i) => i < self.signals@.len() && model::first_request(
                    self@.signals,
                    request_id,
                ) == Some(i as int),
                None => model::first_request(self@.signals, request_id) is None,
            },
    {
        let ghost all = self.signals.deep_view();
        let mut i: usize = 0;
        while i < self.signals.len()
            invariant
                i <= self.signals.len(),
                all == self.signals.deep_view(),
                all == self@.signals,
                model::first_request(all.take(i as int), request_id) is None,
            decreases self.signals.len() - i,
        {
            assert(all.take(i + 1).drop_last() == all.take(i as int));
            if self.signals[i].makes(request_id) {
                proof {
                    assert(model::first_request(all.take(i + 1), request_id) == Some(i as int));
                    lemma_first_request(all, i + 1, request_id);
                }
                return Some(i);
            }
            i = i + 1;
        }
        assert(all.take(i as int) == all);
        None
    }

    /// Decides on the resolution of a request.
    pub fn resolve_attention(
        &self,
        participant_id: ParticipantId,
        request_id: RequestId,
        summary: String,
        context: &DecisionContext,
    ) -> (r: Decision)
        ensures
            r@ == self@.resolved(participant_id, request_id, summary@, *context),
    {
        let participant = match self.live_participant(participant_id, context.now) {
            Some(participant) => participant,
            None => return Decision::Rejected(
                "participant is absent or its lease expired".to_owned(),
            ),
        };
        if let Err(reason) = signals::validate_text("summary", summary.as_str()) {
            return Decision::Rejected(reason);
        }
        let at: usize = match self.find_request(request_id) {
            Some(at) => at,
            None => return Decision::Rejected("request does not exist".to_owned()),
        };
        let source = &self.signals[at];
        assert(source@ == self@.signals[at as int]);
        if self.resolved_requests.contains(&request_id) || self.request_superseded(source) {
            return Decision::Rejected("request is no longer open".to_owned());
        }
        let owns_work: bool = match source.published.work_id {
            Some(work_id) => match self.work.get(&work_id) {
                Some(work) => work.owner == participant_id,
                None => false,
            },
            None => false,
        };
        let owns_request: bool = source.published.participant_id == participant_id || owns_work;
        if !owns_request || !text::same(source.scope.as_str(), participant.scope.as_str()) {
            return Decision::Rejected("participant cannot resolve this request".to_owned());
        }
        single(
            source.scope.clone(),
            EventKind::AttentionResolved {
                request_id,
                participant_id,
                summary,
                resolved_at: context.now,
            },
            Some(participant_id),
            source.published.work_id,
        )
    }

    /// The events of a departure: all the participant's work is released, then it leaves.
    fn departure_events(&self, participant: &Participant, reason: LeaveReason) -> (r: Vec<
        PendingEvent,
    >)
        ensures
            r.deep_view() == self@.departure(participant@, reason),
    {
        let release_reason: ReleaseReason = match reason {
            LeaveReason::Graceful => ReleaseReason::ParticipantLeft,
            LeaveReason::LeaseExpired => ReleaseReason::LeaseExpired,
        };
        let ghost all = ordered::in_order::<WorkId, WorkClaimView>(self.work@);
        let ghost f = StateView::release_of(participant@, release_reason);
        let mut events: Vec<PendingEvent> = Vec::new();
        let mut i: usize = 0;
        assert(all.take(0) == Seq::<WorkClaimView>::empty());
        assert(events.deep_view() == all.take(0).filter_map(f));
        while i < self.work.len()
            invariant
                i <= all.len(),
                all == ordered::in_order::<WorkId, WorkClaimView>(self.work@),
                f == StateView::release_of(participant@, release_reason),
                events.deep_view() == all.take(i as int).filter_map(f),
            decreases all.len() - i,
        {
            proof {
                all.lemma_filter_map_take_succ(f, i as int);
            }
            let ghost before = events.deep_view();
            let work = self.work.value_at(i);
            if work.owner == participant.id {
                let release = PendingEvent {
                    scope: participant.scope.clone(),
                    event: EventKind::WorkReleased {
                        work_id: work.id,
                        previous_owner: participant.id,
                        reason: release_reason,
                    },
                };
                let ghost view = release@;
                events.push(release);
                assert(events.deep_view() == before.push(view));
            }
            i = i + 1;
        }
        assert(all.take(i as int) == all);
        let ghost before = events.deep_view();
        let departure = PendingEvent {
            scope: participant.scope.clone(),
            event: EventKind::ParticipantLeft { participant_id: participant.id, reason },
        };
        let ghost view = departure@;
        events.push(departure);
        assert(events.deep_view() == before.push(view));
        events
    }

    /// The departures of all whose lease has ended.
    pub fn expire(&self, now: Timestamp) -> (r: Vec<PendingEvent>)
        ensures
            r.deep_view() == self@.expired(now),
    {
        let ghost all = ordered::in_order::<ParticipantId, ParticipantView>(self.participants@);
        let ghost f = self@.expiry(now);
        let mut events: Vec<PendingEvent> = Vec::new();
        let mut i: usize = 0;
        assert(all.take(0) == Seq::<ParticipantView>::empty());
        assert(events.deep_view() == all.take(0).flat_map(f));
        while i < self.participants.len()
            invariant
                i <= all.len(),
                all == ordered::in_order::<ParticipantId, ParticipantView>(self.participants@),
                f == self@.expiry(now),
                events.deep_view() == all.take(i as int).flat_map(f),
            decreases all.len() - i,
        {
            proof {
                all.lemma_flat_map_take_append(f, i as int);
            }
            let ghost before = events.deep_view();
            let participant = self.participants.value_at(i);
            if !now.precedes(&participant.expires_at) {
                let mut departure = self.departure_events(participant, LeaveReason::LeaseExpired);
                let ghost added = departure.deep_view();
                events.append(&mut departure);
                assert(events.deep_view() == before + added);
            }
            i = i + 1;
        }
        assert(all.take(i as int) == all);
        events
    }

    /// Whether a direction concerns a participant.
    fn direction_is_relevant(&self, direction: &Direction, participant_id: ParticipantId) -> (r:
        bool)
        ensures
            r == self@.concerns(direction@, participant_id),
    {
        match &direction.target {
            None => true,
            Some(target) => if self.participants.contains(&target.participant_id) {
                target.participant_id == participant_id
            } else {
                match target.work_id {
                    Some(work_id) => match self.work.get(&work_id) {
                        Some(work) => work.owner == participant_id,
                        None => false,
                    },
                    None => false,
                }
            },
        }
    }

    /// Decides on the delivery of directions to a participant.
    pub fn deliver_directions(&self, participant_id: ParticipantId, context: &DecisionContext) -> (r:
        Decision)
        ensures
            r@ == self@.delivered(participant_id, *context),
    {
        let participant = match self.live_participant(participant_id, context.now) {
            Some(participant) => participant,
            None => return Decision::Rejected(
                "participant is absent or its lease expired".to_owned(),
            ),
        };
        let ghost all = ordered::in_order::<DirectionId, DirectionView>(self.directions@);
        let ghost f = self@.delivery_of(participant.scope@, participant_id, context.now);
        let mut events: Vec<PendingEvent> = Vec::new();
        let mut i: usize = 0;
        assert(all.take(0) == Seq::<DirectionView>::empty());
        assert(events.deep_view() == all.take(0).filter_map(f));
        while i < self.directions.len()
            invariant
                i <= all.len(),
                all == ordered::in_order::<DirectionId, DirectionView>(self.directions@),
                f == self@.delivery_of(participant.scope@, participant_id, context.now),
                events.deep_view() == all.take(i as int).filter_map(f),
            decreases all.len() - i,
        {
            proof {
                all.lemma_filter_map_take_succ(f, i as int);
            }
            let ghost before = events.deep_view();
            let direction = self.directions.value_at(i);
            if text::same(direction.scope.as_str(), participant.scope.as_str())
                && self.direction_is_relevant(direction, participant_id) && find_delivery(
                &direction.deliveries,
                participant_id,
            ).is_none() {
                let delivery = PendingEvent {
                    scope: participant.scope.clone(),
                    event: EventKind::DirectionDelivered {
                        direction_id: direction.id,
                        participant_id,
                        delivered_at: context.now,
                    },
                };
                let ghost view = delivery@;
                events.push(delivery);
                assert(events.deep_view() == before.push(view));
            }
            i = i + 1;
        }
        assert(all.take(i as int) == all);
        Decision::Accepted { events, participant_id: Some(participant_id), work_id: None }
    }

    /// Decides on the consumption of a direction.
    pub fn consume_direction(
        &self,
        participant_id: ParticipantId,
        direction_id: DirectionId,
        context: &DecisionContext,
    ) -> (r: Decision)
        ensures
            r@ == self@.consumed(participant_id, direction_id, *context),
    {
        if self.live_participant(participant_id, context.now).is_none() {
            return Decision::Rejected("participant is absent or its lease expired".to_owned());
        }
        let direction = match self.directions.get(&direction_id) {
            Some(direction) => direction,
            None => return Decision::Rejected("direction does not exist".to_owned()),
        };
        let at: usize = match find_delivery(&direction.deliveries, participant_id) {
            Some(at) => at,
            None => return Decision::Rejected(
                "direction was not delivered to this participant".to_owned(),
            ),
        };
        assert(direction.deliveries@[at as int] == direction@.deliveries[at as int]);
        if direction.deliveries[at].consumed_at.is_some() {
            return no_change(Some(participant_id));
        }
        single(
            direction.scope.clone(),
            EventKind::DirectionConsumed { direction_id, participant_id, consumed_at: context.now },
            Some(participant_id),
            None,
        )
    }

    /// Decides on a command. Nothing changes until the events of the decision are applied.
    pub fn decide(&self, command: Command, context: &DecisionContext) -> (r: Decision)
        requires
            model::lease_fits(command@, context.now),
        ensures
            r@ == self@.decided(command@, *context),
    {
        match command {
            Command::DefineWorkspace { workspace } => self.define_workspace(workspace),
            Command::RefreshWorkspaceMetadata { workspace } => self.refresh_workspace_metadata(
                workspace,
            ),
            Command::Join { scope, name, manifest, lease_seconds } => self.join(
                scope,
                name,
                manifest,
                lease_seconds,
                context,
            ),
            Command::RenewPresence { participant_id, lease_seconds } => self.renew(
                participant_id,
                lease_seconds,
                context,
            ),
            Command::ClaimWork { participant_id, summary, resources } => self.claim(
                participant_id,
                summary,
                resources,
                context,
            ),
            Command::PublishSignal { participant_id, work_id, signal } => self.publish(
                participant_id,
                work_id,
                signal,
                context,
            ),
            Command::ResolveAttention {
                participant_id,
                request_id,
                summary,
            } => self.resolve_attention(participant_id, request_id, summary, context),
            Command::Leave { participant_id } => match self.participants.get(&participant_id) {
                Some(participant) => Decision::Accepted {
                    events: self.departure_events(participant, LeaveReason::Graceful),
                    participant_id: Some(participant_id),
                    work_id: None,
                },
                None => Decision::Rejected("participant does not exist".to_owned()),
            },
            Command::Intervene { scope, message, author, target } => self.intervene(
                scope,
                message,
                author,
                target,
                context,
            ),
            Command::DeliverDirections { participant_id } => self.deliver_directions(
                participant_id,
                context,
            ),
            Command::ConsumeDirection { participant_id, direction_id } => self.consume_direction(
                participant_id,
                direction_id,
                context,
            ),
        }
    }
}

proof fn lemma_first_request(signals: Seq<StoredSignalView>, n: int, request_id: RequestId)
    requires
        0 <= n <= signals.len(),
        model::first_request(signals.take(n), request_id) is Some,
    ensures
        model::first_request(signals, request_id) == model::first_request(
            signals.take(n),
            request_id,
        ),
    decreases signals.len() - n,
{
    if n < signals.len() {
        assert(signals.take(n + 1).drop_last() == signals.take(n));
        lemma_first_request(signals, n + 1, request_id);
    } else {
        assert(signals.take(n) == signals);
    }
}

} // verus!
