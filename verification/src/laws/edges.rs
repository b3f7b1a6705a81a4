//! The edges: what is owed by the functions that take the arguments, replies and settings of the
//! outside.
use vstd::prelude::*;

use crate::bootstrap::{DaemonIdentity, DaemonProbe};
use crate::cli::commands;
use crate::cli::daemon;
use crate::cli::daemon::ProbeReply;
use crate::identity;
use crate::protocol::{Command, CommandResult, ParticipantId, RequestId, WorkId};
use crate::text;

verus! {

/// A claim prints the identity of its work where it was granted and its identity alone was asked for,
/// and nothing otherwise; the text reads back as the identity.
pub proof fn claims_print_their_identity(
    result: CommandResult,
    id_only: bool,
    printed: Option<String>,
)
    requires
        call_ensures(commands::claimed_id, (&result, id_only), printed),
    ensures
        printed is Some <==> id_only && result is Accepted && result->Accepted_work_id is Some,
        printed matches Some(line) ==> result->Accepted_work_id matches Some(work)
            && identity::uuid_number(line@) == Some(work.0 as nat),
{
    if let Some(work) = result->Accepted_work_id {
        identity::identity_text_reads_back(work.0);
    }
}

/// A workspace is asked for as it was described: under the scope of its issue, with no state of the
/// issue yet, and with a repository where one was named.
pub proof fn workspaces_are_asked_for_as_described(
    issue: String,
    title: String,
    objective: String,
    url: Option<String>,
    repository: Option<String>,
    revision: Option<String>,
    command: Command,
)
    requires
        call_ensures(
            commands::workspace_command,
            (issue, title, objective, url, repository, revision),
            command,
        ),
    ensures
        command@ is DefineWorkspace,
        ({
            let asked = command@->DefineWorkspace_workspace;
            &&& asked.scope == seq!['l', 'i', 'n', 'e', 'a', 'r', ':'] + issue@
            &&& asked.title == title@
            &&& asked.objective == objective@
            &&& asked.linear_issue.identifier == issue@
            &&& asked.linear_issue.url is Some <==> url is Some
            &&& url is Some ==> asked.linear_issue.url == Some(url->0@)
            &&& asked.linear_issue.metadata is None
            &&& asked.repository is Some <==> repository is Some
            &&& repository is Some ==> asked.repository->0.repository == repository->0@
            &&& repository is Some && revision is Some ==> asked.repository->0.revision == Some(
                revision->0@,
            )
            &&& repository is Some && revision is None ==> asked.repository->0.revision is None
        }),
{
    reveal_strlit("linear:");
    assert("linear:"@ =~= seq!['l', 'i', 'n', 'e', 'a', 'r', ':']);
}

/// A direction is asked for in the words that were given, under the name that was given.
pub proof fn directions_are_asked_for_as_given(
    scope: String,
    message: String,
    author: String,
    source_event: Option<u128>,
    request_id: Option<RequestId>,
    participant: Option<ParticipantId>,
    work: Option<WorkId>,
    command: Command,
)
    requires
        source_event is Some ==> participant is Some,
        call_ensures(
            commands::intervene_command,
            (scope, message, author, source_event, request_id, participant, work),
            command,
        ),
    ensures
        command@ is Intervene,
        command@->Intervene_scope == scope@,
        command@->message == message@,
        command@->author == author@,
        command@->Intervene_target is Some <==> source_event is Some,
        command@->Intervene_target matches Some(target) ==> {
            &&& target.source_event_id == source_event->0
            &&& target.participant_id == participant->0
            &&& target.request_id == request_id
            &&& target.work_id == work
        },
{
}

/// A client speaks to its endpoint without the slashes at its end, and to nothing else.
pub proof fn clients_speak_to_their_endpoint(endpoint: &str, used: String)
    requires
        call_ensures(commands::client_endpoint, (endpoint,), used),
    ensures
        used@.len() > 0 ==> used@.last() != '/',
        used@.is_prefix_of(endpoint@),
        forall|i: int| used@.len() <= i < endpoint@.len() ==> #[trigger] endpoint@[i] == '/',
{
    reveal_strlit("/");
    assert("/"@ =~= seq!['/']);
    lemma_slashes(endpoint@);
}

proof fn lemma_slashes(s: Seq<char>)
    ensures
        ({
            let r = text::without_suffixes(s, seq!['/']);
            &&& r.len() > 0 ==> r.last() != '/'
            &&& r.is_prefix_of(s)
            &&& forall|i: int| r.len() <= i < s.len() ==> #[trigger] s[i] == '/'
        }),
    decreases s.len(),
{
    if s.len() > 0 && s.last() == '/' {
        assert(s.skip(s.len() - 1) =~= seq!['/']);
        let init = s.take(s.len() - 1);
        lemma_slashes(init);
        let r = text::without_suffixes(s, seq!['/']);
        assert forall|i: int| r.len() <= i < s.len() implies #[trigger] s[i] == '/' by {
            if i < init.len() {
                assert(init[i] == s[i]);
            }
        }
        assert(r =~= s.subrange(0, r.len() as int));
    } else if s.len() > 0 {
        assert(s.skip(s.len() - 1)[0] == s.last());
    }
}

/// Silence means that no daemon is there; an answer that identifies no daemon is foreign, and any
/// other is taken as what it identifies.
pub proof fn probes_are_taken_by_their_reply(reply: ProbeReply, probe: DaemonProbe)
    requires
        call_ensures(daemon::classify_probe, (reply,), probe),
    ensures
        probe@ is Absent <==> reply is Silence,
        probe@ is Identified <==> reply is Success && reply->0 is Some,
        reply matches ProbeReply::Success(Some(known)) ==> probe@->Identified_0 == known@,
{
}

/// A daemon goes by the token that it was given, for its repository and its build.
pub proof fn daemons_go_by_their_token(
    owner_token: Option<String>,
    repository: String,
    build_id: String,
    served: DaemonIdentity,
)
    requires
        call_ensures(daemon::served_identity, (owner_token, repository, build_id), served),
    ensures
        owner_token is Some ==> served@.owner_token == owner_token->0@,
        owner_token is None ==> served@.owner_token.len() == 36,
        served@.repository == repository@,
        served@.build_id == build_id@,
        served@.protocol_version == 1,
{
    if owner_token is None {
        let v = choose|v: u128|
            identity::is_version_seven(v) && served@.owner_token == #[trigger] identity::uuid_text(
                v,
            );
        identity::identity_text_reads_back(v);
    }
}

} // verus!
