//! Daemons: whose they are, and what is done about them.
use vstd::prelude::*;

use crate::bootstrap;
use crate::bootstrap::{DaemonDisposition, DaemonProbeView, DaemonRecordView};
use crate::cli::daemon;
use crate::cli::daemon::{AddressView, DaemonContextView, DaemonStepView};
use crate::cli::CliErrorView;
use crate::text;

verus! {

/// Whether a record bears nothing but an endpoint and a process, as those from before daemons
/// identified themselves.
pub open spec fn bears_no_identity(record: DaemonRecordView) -> bool {
    record.owner_token is None && record.repository is None && record.protocol_version is None
        && record.build_id is None
}

/// Nothing that answers and no record is no daemon; a record alone is a stale one. What answers
/// without saying who it is belongs to the checkout only by a record without identity at this
/// endpoint. What says who it is belongs to the checkout by its token and repository; it is
/// compatible by protocol and build.
pub proof fn daemons_are_known_by_their_record(
    endpoint: Seq<char>,
    repository: Seq<char>,
    build_id: Seq<char>,
    record: Option<DaemonRecordView>,
    probe: DaemonProbeView,
)
    ensures
        ({
            let found = bootstrap::disposition_of(endpoint, repository, build_id, record, probe);
            let here = record is Some && record->0.endpoint == endpoint;
            let legacy = here && bears_no_identity(record->0);
            let own = probe is Identified && here && record->0.owner_token == Some(
                probe->Identified_0.owner_token,
            ) && record->0.repository == Some(probe->Identified_0.repository)
                && probe->Identified_0.repository == repository;
            let current = probe is Identified && probe->Identified_0.protocol_version == 1
                && probe->Identified_0.build_id == build_id;
            &&& found == DaemonDisposition::Absent <==> record is None && probe is Absent
            &&& found == DaemonDisposition::OwnedCompatible <==> own && current
            &&& found == DaemonDisposition::OwnedStale <==> (probe is Absent && record is Some) || (
            !(probe is Absent) && legacy) || (own && !current)
            &&& found == DaemonDisposition::Foreign <==> !(probe is Absent) && !legacy && !own
        }),
{
}

/// The first step goes by whose the daemon is: a compatible one of the checkout is used as it is; a
/// foreign one is left alone, and a human is told how to get rid of it; a stale one of the checkout
/// that still answers is stopped by its recorded process; otherwise the way is free.
pub proof fn starting_begins_by_whose_it_is(context: DaemonContextView, probe: DaemonProbeView)
    ensures
        ({
            let found = bootstrap::disposition_of(
                context.endpoint,
                context.repository,
                context.build_id,
                context.record,
                probe,
            );
            let step = context.started(probe);
            &&& context.disposition(probe) == found
            &&& found is OwnedCompatible ==> step == (DaemonStepView::Done {
                disposition: DaemonDisposition::OwnedCompatible,
            })
            &&& found is Absent ==> step is Remove
            &&& found is OwnedStale && probe is Absent ==> step is Remove
            &&& found is OwnedStale && !(probe is Absent) ==> step is Stop && step->Stop_pid
                == context.record->0.pid
            &&& found is OwnedStale && probe is ForeignResponse ==> step->notice
                == "upgrading checkout-owned legacy daemon"@
            &&& found is Foreign && context.record is Some ==> step == (DaemonStepView::Fail {
                error: CliErrorView::ForeignDaemon {
                    endpoint: context.endpoint,
                    recovery: "kill "@ + text::decimal_text(context.record->0.pid as nat)
                        + " && rm "@ + context.record_file,
                },
            })
            &&& found is Foreign && context.record is None && is_local(
                context.endpoint,
                context.address,
            ) ==> step == (DaemonStepView::Fail {
                error: CliErrorView::ForeignDaemon {
                    endpoint: context.endpoint,
                    recovery: "kill $(lsof -tiTCP:"@ + text::decimal_text(
                        context.address->0.port as nat,
                    ) + " -sTCP:LISTEN)"@,
                },
            })
            &&& found is Foreign && context.record is None && !is_local(
                context.endpoint,
                context.address,
            ) ==> step == (DaemonStepView::Fail {
                error: CliErrorView::InvalidEndpoint(context.endpoint),
            })
        }),
{
    reveal_strlit("http://");
    crate::laws::texts::prefixes_are_taken_off(context.endpoint, "http://"@);
    assert("http://"@ =~= seq!['h', 't', 't', 'p', ':', '/', '/']);
}

/// Whether an endpoint is a loopback address behind `http://`.
pub open spec fn is_local(endpoint: Seq<char>, address: Option<AddressView>) -> bool {
    &&& seq!['h', 't', 't', 'p', ':', '/', '/'].is_prefix_of(endpoint)
    &&& address is Some
    &&& address->0.loopback
}

/// Before an own daemon is replaced, a human is told of both protocols and both builds.
pub proof fn replacements_name_both_builds(context: DaemonContextView, probe: DaemonProbeView)
    requires
        probe is Identified,
    ensures
        context.notice(probe) == "daemon compatibility mismatch (protocol "@ + text::decimal_text(
            probe->Identified_0.protocol_version as nat,
        ) + ", build "@ + probe->Identified_0.build_id
            + "); replacing owned daemon with protocol "@ + text::decimal_text(1) + ", build "@
            + context.build_id,
        context.started(probe) is Stop ==> context.started(probe)->notice == context.notice(probe),
{
}

/// A daemon that was told to stop is waited for by at most 40 probes; only when nothing answers any
/// more its record is removed, and otherwise nothing is launched.
pub proof fn stopping_waits_for_silence(
    context: DaemonContextView,
    pid: u32,
    left: u32,
    probe: DaemonProbeView,
)
    ensures
        context.after_stop(pid, true) == (DaemonStepView::ProbeStopped { left: 40 }),
        context.after_stop(pid, false) == (DaemonStepView::Fail {
            error: CliErrorView::DaemonStart("process "@ + text::decimal_text(pid as nat)),
        }),
        probe is Absent ==> context.after_probe_stopped(left, probe) is ProbeGone,
        !(probe is Absent) ==> context.after_probe_stopped(left, probe)
            == (DaemonStepView::PauseStopped { left }),
        left > 1 ==> context.after_pause_stopped(left) == (DaemonStepView::ProbeStopped {
            left: (left - 1) as u32,
        }),
        left <= 1 ==> context.after_pause_stopped(left) is ProbeGone,
        probe is Absent ==> context.after_probe_gone(probe) is Remove,
        !(probe is Absent) ==> context.after_probe_gone(probe) == (DaemonStepView::Fail {
            error: CliErrorView::DaemonStart(context.endpoint),
        }),
{
}

/// A daemon is launched for the repository, with the checkout's token, at a loopback address behind
/// `http://` and nowhere else. It is recorded only once it answers with that token, repository,
/// protocol and build; it is given up when its process ends or after the last probe.
pub proof fn launching_waits_for_the_answer(
    context: DaemonContextView,
    pid: u32,
    left: u32,
    probe: DaemonProbeView,
)
    ensures
        is_local(context.endpoint, context.address) ==> context.after_remove()
            == (DaemonStepView::Launch {
            address: context.address->0.text,
            owner_token: context.owner_token,
            repository: context.repository,
        }),
        !is_local(context.endpoint, context.address) ==> context.after_remove()
            == (DaemonStepView::Fail { error: CliErrorView::InvalidEndpoint(context.endpoint) }),
        ({
            let answered = probe is Identified && probe->Identified_0.owner_token
                == context.owner_token && probe->Identified_0.repository == context.repository
                && probe->Identified_0.protocol_version == 1 && probe->Identified_0.build_id
                == context.build_id;
            &&& answered ==> context.after_probe_started(pid, left, probe) == (DaemonStepView::Write {
                record: DaemonRecordView {
                    endpoint: context.endpoint,
                    pid,
                    owner_token: Some(context.owner_token),
                    repository: Some(context.repository),
                    protocol_version: Some(1),
                    build_id: Some(context.build_id),
                },
            })
            &&& !answered ==> context.after_probe_started(pid, left, probe)
                == (DaemonStepView::CheckChild { pid, left })
        }),
        context.after_child(pid, left, true) == (DaemonStepView::Fail {
            error: CliErrorView::DaemonStart(context.endpoint),
        }),
        context.after_child(pid, left, false) == (DaemonStepView::PauseStarted { pid, left }),
        left > 1 ==> context.after_pause_started(pid, left) == (DaemonStepView::ProbeStarted {
            pid,
            left: (left - 1) as u32,
        }),
        left <= 1 ==> context.after_pause_started(pid, left) == (DaemonStepView::Fail {
            error: CliErrorView::DaemonStart(context.endpoint),
        }),
        daemon::PROBES == 40,
{
    reveal_strlit("http://");
    crate::laws::texts::prefixes_are_taken_off(context.endpoint, "http://"@);
    assert("http://"@ =~= seq!['h', 't', 't', 'p', ':', '/', '/']);
}

} // verus!
