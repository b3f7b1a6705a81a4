//! The daemon of a checkout: where it listens, and how it is started or replaced.
use vstd::prelude::*;

use crate::bootstrap;
use crate::bootstrap::{
    DaemonDisposition, DaemonIdentity, DaemonProbe, DaemonProbeView, DaemonRecord, DaemonRecordView,
};
use crate::cli::{CliError, CliErrorView};
use crate::identity;
use crate::outcome;
use crate::paths::PathStyle;
use crate::text;

verus! {

/// How often the daemon is probed while it stops or starts.
pub const PROBES: u32 = 40;

/// The address that an endpoint names.
#[derive(Clone, Debug, Eq, PartialEq)]
pub struct Address {
    pub text: String,
    pub port: u16,
    pub loopback: bool,
}

/// What [`Address`] stands for.
#[verifier::ext_equal]
pub struct AddressView {
    pub text: Seq<char>,
    pub port: u16,
    pub loopback: bool,
}

impl View for Address {
    type V = AddressView;

    open spec fn view(&self) -> AddressView {
        AddressView {
            text: self.text.deep_view(),
            port: self.port,
            loopback: self.loopback,
        }
    }
}

impl DeepView for Address {
    type V = AddressView;

    open spec fn deep_view(&self) -> AddressView {
        self.view()
    }
}

/// The host and port that an endpoint names, behind `http://`.
pub fn endpoint_authority(endpoint: &str) -> (r: Option<String>)
    ensures
        r.deep_view() == text::after_prefix(endpoint@, "http://"@),
{
    text::strip_prefix(endpoint, "http://")
}

/// The address of an endpoint: it must be a loopback address behind `http://`. The given address is
/// the one that the host and port stand for, where they stand for one.
pub open spec fn loopback_address(endpoint: Seq<char>, address: Option<AddressView>) -> Result<
    AddressView,
    CliErrorView,
> {
    if text::after_prefix(endpoint, "http://"@) is Some && address is Some
        && address->0.loopback {
        Ok(address->0)
    } else {
        Err(CliErrorView::InvalidEndpoint(endpoint))
    }
}

/// The address of an endpoint: it must be a loopback address behind `http://`.
pub fn endpoint_address<'a>(endpoint: &str, address: Option<&'a Address>) -> (r: Result<
    &'a Address,
    CliError,
>)
    ensures
        outcome::seen(r) == loopback_address(endpoint@, address.deep_view()),
{
    if endpoint_authority(endpoint).is_some() {
        if let Some(address) = address {
            if address.loopback {
                return Ok(address);
            }
        }
    }
    Err(CliError::InvalidEndpoint(endpoint.to_owned()))
}

/// A file below a directory.
pub open spec fn path_below(root: Seq<char>, file: Seq<char>, style: PathStyle) -> Seq<char> {
    if root.len() == 0 || style.separates(root.last()) || (root.len() == 2 && style.has_drive(
        root,
    )) {
        root + file
    } else {
        root + seq![
            if style is Backslash {
                '\\'
            } else {
                '/'
            },
        ] + file
    }
}

/// A file below a directory, as `std::path::Path::join` writes it on this machine. How it writes a
/// path that is to be taken by the letter is for the machine to say, so nothing is claimed of the
/// result.
#[verifier::external_body]
fn joined_here(root: &str, file: &str) -> (r: String) {
    std::path::Path::new(root).join(file).display().to_string()
}

/// The file with the record of a repository's daemon. How it is written below a root that is to be
/// taken by the letter is left to the machine.
pub fn record_path(root: &str, style: PathStyle) -> (r: String)
    ensures
        !style.is_verbatim(root@) ==> r@ == path_below(
            root@,
            bootstrap::DAEMON_RECORD_FILE@,
            style,
        ),
{
    let file = bootstrap::DAEMON_RECORD_FILE;
    let chars = text::characters(root);
    if style.begins_verbatim(&chars) {
        return joined_here(root, file);
    }
    if chars.len() == 0 || style.is_separator(chars[chars.len() - 1]) || (chars.len() == 2
        && style.begins_with_drive(&chars)) {
        return text::concat(root, file);
    }
    proof {
        reveal_strlit("\\");
        reveal_strlit("/");
        assert("\\"@ =~= seq!['\\']);
        assert("/"@ =~= seq!['/']);
    }
    let directory = if style == PathStyle::Backslash {
        text::concat(root, "\\")
    } else {
        text::concat(root, "/")
    };
    text::concat(directory.as_str(), file)
}

/// The command with which a human gets rid of a daemon: by its record, or by its port.
pub open spec fn recovery(
    endpoint: Seq<char>,
    record_file: Seq<char>,
    record: Option<DaemonRecordView>,
    address: Option<AddressView>,
) -> Result<Seq<char>, CliErrorView> {
    match record {
        Some(record) => Ok(
            "kill "@ + text::decimal_text(record.pid as nat) + " && rm "@ + record_file,
        ),
        None => match loopback_address(endpoint, address) {
            Ok(address) => Ok(
                "kill $(lsof -tiTCP:"@ + text::decimal_text(address.port as nat)
                    + " -sTCP:LISTEN)"@,
            ),
            Err(error) => Err(error),
        },
    }
}

/// The command with which a human gets rid of a daemon.
pub fn daemon_recovery_command(
    endpoint: &str,
    record_file: &str,
    record: Option<&DaemonRecord>,
    address: Option<&Address>,
) -> (r: Result<String, CliError>)
    ensures
        outcome::seen(r) == recovery(
            endpoint@,
            record_file@,
            record.deep_view(),
            address.deep_view(),
        ),
{
    match record {
        Some(record) => {
            let pid = text::decimal(record.pid as u64);
            let kill = text::concat("kill ", pid.as_str());
            let and = text::concat(kill.as_str(), " && rm ");
            Ok(text::concat(and.as_str(), record_file))
        },
        None => match endpoint_address(endpoint, address) {
            Ok(address) => {
                let port = text::decimal(address.port as u64);
                let list = text::concat("kill $(lsof -tiTCP:", port.as_str());
                Ok(text::concat(list.as_str(), " -sTCP:LISTEN)"))
            },
            Err(error) => Err(error),
        },
    }
}

/// How a probe of an endpoint was answered.
#[derive(Clone, Debug)]
pub enum ProbeReply {
    /// Nothing answered.
    Silence,
    /// The answer was no success.
    Failure,
    /// The answer was a success; it identifies a daemon, or does not.
    Success(Option<DaemonIdentity>),
}

/// What answered at an endpoint.
pub fn classify_probe(reply: ProbeReply) -> (r: DaemonProbe)
    ensures
        r@ == (match reply {
            ProbeReply::Silence => DaemonProbeView::Absent,
            ProbeReply::Failure => DaemonProbeView::ForeignResponse,
            ProbeReply::Success(None) => DaemonProbeView::ForeignResponse,
            ProbeReply::Success(Some(identity)) => DaemonProbeView::Identified(identity@),
        }),
{
    match reply {
        ProbeReply::Silence => DaemonProbe::Absent,
        ProbeReply::Failure => DaemonProbe::ForeignResponse,
        ProbeReply::Success(None) => DaemonProbe::ForeignResponse,
        ProbeReply::Success(Some(identity)) => DaemonProbe::Identified(identity),
    }
}

/// What starting a daemon rests on.
#[derive(Clone, Debug, Eq, PartialEq)]
pub struct DaemonContext {
    pub endpoint: String,
    pub record_file: String,
    pub repository: String,
    pub build_id: String,
    pub record: Option<DaemonRecord>,
    pub address: Option<Address>,
    pub owner_token: String,
}

/// What [`DaemonContext`] stands for.
#[verifier::ext_equal]
pub struct DaemonContextView {
    pub endpoint: Seq<char>,
    pub record_file: Seq<char>,
    pub repository: Seq<char>,
    pub build_id: Seq<char>,
    pub record: Option<DaemonRecordView>,
    pub address: Option<AddressView>,
    pub owner_token: Seq<char>,
}

impl View for DaemonContext {
    type V = DaemonContextView;

    open spec fn view(&self) -> DaemonContextView {
        DaemonContextView {
            endpoint: self.endpoint.deep_view(),
            record_file: self.record_file.deep_view(),
            repository: self.repository.deep_view(),
            build_id: self.build_id.deep_view(),
            record: self.record.deep_view(),
            address: self.address.deep_view(),
            owner_token: self.owner_token.deep_view(),
        }
    }
}

impl DeepView for DaemonContext {
    type V = DaemonContextView;

    open spec fn deep_view(&self) -> DaemonContextView {
        self.view()
    }
}

/// What to do next so that the daemon of a checkout runs.
#[derive(Clone, Debug, Eq, PartialEq)]
pub enum DaemonStep {
    /// Tell the human, and stop the process.
    Stop {
        notice: String,
        pid: u32,
    },
    /// Probe whether the daemon still answers; so many probes are left.
    ProbeStopped {
        left: u32,
    },
    /// Pause before the next probe.
    PauseStopped {
        left: u32,
    },
    /// Probe one last time whether the daemon still answers.
    ProbeGone,
    /// Remove the record of the daemon.
    Remove,
    /// Launch a daemon.
    Launch {
        address: String,
        owner_token: String,
        repository: String,
    },
    /// Probe whether the daemon answers; so many probes are left.
    ProbeStarted {
        pid: u32,
        left: u32,
    },
    /// Check whether the process is still there.
    CheckChild {
        pid: u32,
        left: u32,
    },
    /// Pause before the next probe.
    PauseStarted {
        pid: u32,
        left: u32,
    },
    /// Write the record of the daemon.
    Write {
        record: DaemonRecord,
    },
    /// The daemon runs.
    Done {
        disposition: DaemonDisposition,
    },
    /// The daemon cannot run.
    Fail {
        error: CliError,
    },
}

/// What [`DaemonStep`] stands for.
#[verifier::ext_equal]
pub enum DaemonStepView {
    Stop {
        notice: Seq<char>,
        pid: u32,
    },
    ProbeStopped {
        left: u32,
    },
    PauseStopped {
        left: u32,
    },
    ProbeGone,
    Remove,
    Launch {
        address: Seq<char>,
        owner_token: Seq<char>,
        repository: Seq<char>,
    },
    ProbeStarted {
        pid: u32,
        left: u32,
    },
    CheckChild {
        pid: u32,
        left: u32,
    },
    PauseStarted {
        pid: u32,
        left: u32,
    },
    Write {
        record: DaemonRecordView,
    },
    Done {
        disposition: DaemonDisposition,
    },
    Fail {
        error: CliErrorView,
    },
}

impl View for DaemonStep {
    type V = DaemonStepView;

    open spec fn view(&self) -> DaemonStepView {
        match self {
            DaemonStep::Stop { notice, pid } => DaemonStepView::Stop {
                notice: notice.deep_view(),
                pid: *pid,
            },
            DaemonStep::ProbeStopped { left } => DaemonStepView::ProbeStopped {
                left: *left,
            },
            DaemonStep::PauseStopped { left } => DaemonStepView::PauseStopped {
                left: *left,
            },
            DaemonStep::ProbeGone => DaemonStepView::ProbeGone,
            DaemonStep::Remove => DaemonStepView::Remove,
            DaemonStep::Launch { address, owner_token, repository } => DaemonStepView::Launch {
                address: address.deep_view(),
                owner_token: owner_token.deep_view(),
                repository: repository.deep_view(),
            },
            DaemonStep::ProbeStarted { pid, left } => DaemonStepView::ProbeStarted {
                pid: *pid,
                left: *left,
            },
            DaemonStep::CheckChild { pid, left } => DaemonStepView::CheckChild {
                pid: *pid,
                left: *left,
            },
            DaemonStep::PauseStarted { pid, left } => DaemonStepView::PauseStarted {
                pid: *pid,
                left: *left,
            },
            DaemonStep::Write { record } => DaemonStepView::Write {
                record: record.deep_view(),
            },
            DaemonStep::Done { disposition } => DaemonStepView::Done {
                disposition: *disposition,
            },
            DaemonStep::Fail { error } => DaemonStepView::Fail {
                error: error.deep_view(),
            },
        }
    }
}

impl DeepView for DaemonStep {
    type V = DaemonStepView;

    open spec fn deep_view(&self) -> DaemonStepView {
        self.view()
    }
}

impl DaemonContextView {
    /// How the checkout stands to the daemon that a probe found.
    pub open spec fn disposition(self, probe: DaemonProbeView) -> DaemonDisposition {
        bootstrap::disposition_of(
            self.endpoint,
            self.repository,
            self.build_id,
            self.record,
            probe,
        )
    }

    /// What a human is told before an own daemon is replaced.
    pub open spec fn notice(self, probe: DaemonProbeView) -> Seq<char> {
        match probe {
            DaemonProbeView::Identified(identity) => "daemon compatibility mismatch (protocol "@
                + text::decimal_text(identity.protocol_version as nat) + ", build "@
                + identity.build_id + "); replacing owned daemon with protocol "@
                + text::decimal_text(bootstrap::DAEMON_PROTOCOL_VERSION as nat) + ", build "@
                + self.build_id,
            _ => "upgrading checkout-owned legacy daemon"@,
        }
    }

    /// The first step. A compatible daemon of the checkout is reused, a foreign one is left alone,
    /// and a stale one of the checkout that still answers is stopped.
    pub open spec fn started(self, probe: DaemonProbeView) -> DaemonStepView {
        let disposition = self.disposition(probe);
        match disposition {
            DaemonDisposition::OwnedCompatible => DaemonStepView::Done { disposition },
            DaemonDisposition::Foreign => DaemonStepView::Fail {
                error: match recovery(
                    self.endpoint,
                    self.record_file,
                    self.record,
                    self.address,
                ) {
                    Ok(recovery) => CliErrorView::ForeignDaemon {
                        endpoint: self.endpoint,
                        recovery,
                    },
                    Err(error) => error,
                },
            },
            DaemonDisposition::OwnedStale => match self.record {
                Some(record) => if probe is Absent {
                    DaemonStepView::Remove
                } else {
                    DaemonStepView::Stop { notice: self.notice(probe), pid: record.pid }
                },
                None => DaemonStepView::Remove,
            },
            DaemonDisposition::Absent => DaemonStepView::Remove,
        }
    }

    /// The step after a process was told to stop.
    pub open spec fn after_stop(self, pid: u32, success: bool) -> DaemonStepView {
        if success {
            DaemonStepView::ProbeStopped { left: PROBES }
        } else {
            DaemonStepView::Fail {
                error: CliErrorView::DaemonStart("process "@ + text::decimal_text(pid as nat)),
            }
        }
    }

    /// The step after a probe of a stopping daemon.
    pub open spec fn after_probe_stopped(self, left: u32, probe: DaemonProbeView) -> DaemonStepView {
        if probe is Absent {
            DaemonStepView::ProbeGone
        } else {
            DaemonStepView::PauseStopped { left }
        }
    }

    /// The step after a pause while a daemon stops.
    pub open spec fn after_pause_stopped(self, left: u32) -> DaemonStepView {
        if left > 1 {
            DaemonStepView::ProbeStopped { left: (left - 1) as u32 }
        } else {
            DaemonStepView::ProbeGone
        }
    }

    /// The step after the last probe of a stopping daemon.
    pub open spec fn after_probe_gone(self, probe: DaemonProbeView) -> DaemonStepView {
        if probe is Absent {
            DaemonStepView::Remove
        } else {
            DaemonStepView::Fail { error: CliErrorView::DaemonStart(self.endpoint) }
        }
    }

    /// The step after the record was removed: a daemon is launched where the endpoint allows.
    pub open spec fn after_remove(self) -> DaemonStepView {
        match loopback_address(self.endpoint, self.address) {
            Ok(address) => DaemonStepView::Launch {
                address: address.text,
                owner_token: self.owner_token,
                repository: self.repository,
            },
            Err(error) => DaemonStepView::Fail { error },
        }
    }

    /// Whether a probe found the daemon that was launched.
    pub open spec fn is_launched(self, probe: DaemonProbeView) -> bool {
        &&& probe is Identified
        &&& probe->Identified_0.owner_token == self.owner_token
        &&& probe->Identified_0.repository == self.repository
        &&& probe->Identified_0.protocol_version == bootstrap::DAEMON_PROTOCOL_VERSION
        &&& probe->Identified_0.build_id == self.build_id
    }

    /// The record of the daemon that was launched.
    pub open spec fn launched_record(self, pid: u32) -> DaemonRecordView {
        DaemonRecordView {
            endpoint: self.endpoint,
            pid,
            owner_token: Some(self.owner_token),
            repository: Some(self.repository),
            protocol_version: Some(bootstrap::DAEMON_PROTOCOL_VERSION),
            build_id: Some(self.build_id),
        }
    }

    /// The step after a probe of a starting daemon.
    pub open spec fn after_probe_started(
        self,
        pid: u32,
        left: u32,
        probe: DaemonProbeView,
    ) -> DaemonStepView {
        if self.is_launched(probe) {
            DaemonStepView::Write { record: self.launched_record(pid) }
        } else {
            DaemonStepView::CheckChild { pid, left }
        }
    }

    /// The step after a check of the launched process.
    pub open spec fn after_child(self, pid: u32, left: u32, exited: bool) -> DaemonStepView {
        if exited {
            DaemonStepView::Fail { error: CliErrorView::DaemonStart(self.endpoint) }
        } else {
            DaemonStepView::PauseStarted { pid, left }
        }
    }

    /// The step after a pause while a daemon starts.
    pub open spec fn after_pause_started(self, pid: u32, left: u32) -> DaemonStepView {
        if left > 1 {
            DaemonStepView::ProbeStarted { pid, left: (left - 1) as u32 }
        } else {
            DaemonStepView::Fail { error: CliErrorView::DaemonStart(self.endpoint) }
        }
    }
}

/// A new token by which a checkout knows its own daemon.
pub fn new_owner_token() -> (r: String)
    ensures
        exists|v: u128|
            identity::is_version_seven(v) && r@ == #[trigger] identity::uuid_text(v),
{
    identity::event_id_text(identity::new_event_id())
}

/// How a daemon identifies itself that serves a repository: by the token that it was given, or by a
/// new one.
pub fn served_identity(
    owner_token: Option<String>,
    repository: String,
    build_id: String,
) -> (r: DaemonIdentity)
    ensures
        owner_token is Some ==> r@.owner_token == owner_token->0@,
        owner_token is None ==> exists|v: u128|
            identity::is_version_seven(v) && r@.owner_token == #[trigger] identity::uuid_text(v),
        r@.repository == repository@,
        r@.protocol_version == bootstrap::DAEMON_PROTOCOL_VERSION,
        r@.build_id == build_id@,
{
    let owner_token: String = match owner_token {
        Some(owner_token) => owner_token,
        None => new_owner_token(),
    };
    DaemonIdentity {
        owner_token,
        repository,
        protocol_version: bootstrap::DAEMON_PROTOCOL_VERSION,
        build_id,
    }
}

impl DaemonContext {
    /// How the checkout stands to the daemon that a probe found.
    pub fn disposition(&self, probe: &DaemonProbe) -> (r: DaemonDisposition)
        ensures
            r == self@.disposition(probe@),
    {
        bootstrap::daemon_disposition(
            self.endpoint.as_str(),
            self.repository.as_str(),
            self.build_id.as_str(),
            self.record.as_ref(),
            probe,
        )
    }

    /// What a human is told before an own daemon is replaced.
    fn notice(&self, probe: &DaemonProbe) -> (r: String)
        ensures
            r@ == self@.notice(probe@),
    {
        match probe {
            DaemonProbe::Identified(identity) => {
                let theirs = text::decimal(identity.protocol_version as u64);
                let ours = text::decimal(bootstrap::DAEMON_PROTOCOL_VERSION as u64);
                let mut r = text::concat("daemon compatibility mismatch (protocol ", theirs.as_str());
                r = text::concat(r.as_str(), ", build ");
                r = text::concat(r.as_str(), identity.build_id.as_str());
                r = text::concat(r.as_str(), "); replacing owned daemon with protocol ");
                r = text::concat(r.as_str(), ours.as_str());
                r = text::concat(r.as_str(), ", build ");
                text::concat(r.as_str(), self.build_id.as_str())
            },
            _ => "upgrading checkout-owned legacy daemon".to_owned(),
        }
    }

    /// The first step, from what a probe found.
    pub fn start(&self, probe: &DaemonProbe) -> (r: DaemonStep)
        ensures
            r@ == self@.started(probe@),
    {
        let disposition: DaemonDisposition = self.disposition(probe);
        match disposition {
            DaemonDisposition::OwnedCompatible => DaemonStep::Done { disposition },
            DaemonDisposition::Foreign => {
                let error = match daemon_recovery_command(
                    self.endpoint.as_str(),
                    self.record_file.as_str(),
                    self.record.as_ref(),
                    self.address.as_ref(),
                ) {
                    Ok(recovery) => CliError::ForeignDaemon {
                        endpoint: self.endpoint.clone(),
                        recovery,
                    },
                    Err(error) => error,
                };
                DaemonStep::Fail { error }
            },
            DaemonDisposition::OwnedStale => match (&self.record, probe) {
                (None, _) => DaemonStep::Remove,
                (Some(_), DaemonProbe::Absent) => DaemonStep::Remove,
                (Some(record), _) => DaemonStep::Stop {
                    notice: self.notice(probe),
                    pid: record.pid,
                },
            },
            DaemonDisposition::Absent => DaemonStep::Remove,
        }
    }

    /// The step after a process was told to stop.
    pub fn stopped(&self, pid: u32, success: bool) -> (r: DaemonStep)
        ensures
            r@ == self@.after_stop(pid, success),
    {
        if success {
            DaemonStep::ProbeStopped { left: PROBES }
        } else {
            let number = text::decimal(pid as u64);
            let place = text::concat("process ", number.as_str());
            DaemonStep::Fail { error: CliError::DaemonStart(place) }
        }
    }

    /// The step after a probe of a stopping daemon.
    pub fn probed_stopped(&self, left: u32, probe: &DaemonProbe) -> (r: DaemonStep)
        ensures
            r@ == self@.after_probe_stopped(left, probe@),
    {
        match probe {
            DaemonProbe::Absent => DaemonStep::ProbeGone,
            _ => DaemonStep::PauseStopped { left },
        }
    }

    /// The step after a pause while a daemon stops.
    pub fn paused_stopped(&self, left: u32) -> (r: DaemonStep)
        ensures
            r@ == self@.after_pause_stopped(left),
    {
        if left > 1 {
            DaemonStep::ProbeStopped { left: left - 1 }
        } else {
            DaemonStep::ProbeGone
        }
    }

    /// The step after the last probe of a stopping daemon.
    pub fn probed_gone(&self, probe: &DaemonProbe) -> (r: DaemonStep)
        ensures
            r@ == self@.after_probe_gone(probe@),
    {
        match probe {
            DaemonProbe::Absent => DaemonStep::Remove,
            _ => DaemonStep::Fail { error: CliError::DaemonStart(self.endpoint.clone()) },
        }
    }

    /// The step after the record was removed.
    pub fn removed(&self) -> (r: DaemonStep)
        ensures
            r@ == self@.after_remove(),
    {
        match endpoint_address(self.endpoint.as_str(), self.address.as_ref()) {
            Ok(address) => DaemonStep::Launch {
                address: address.text.clone(),
                owner_token: self.owner_token.clone(),
                repository: self.repository.clone(),
            },
            Err(error) => DaemonStep::Fail { error },
        }
    }

    /// The step after a daemon was launched.
    pub fn launched(&self, pid: u32) -> (r: DaemonStep)
        ensures
            r@ == (DaemonStepView::ProbeStarted { pid, left: PROBES }),
    {
        DaemonStep::ProbeStarted { pid, left: PROBES }
    }

    /// The step after a probe of a starting daemon.
    pub fn probed_started(&self, pid: u32, left: u32, probe: &DaemonProbe) -> (r: DaemonStep)
        ensures
            r@ == self@.after_probe_started(pid, left, probe@),
    {
        if let DaemonProbe::Identified(identity) = probe {
            if text::same(identity.owner_token.as_str(), self.owner_token.as_str()) && text::same(
                identity.repository.as_str(),
                self.repository.as_str(),
            ) && identity.protocol_version == bootstrap::DAEMON_PROTOCOL_VERSION && text::same(
                identity.build_id.as_str(),
                self.build_id.as_str(),
            ) {
                return DaemonStep::Write {
                    record: DaemonRecord {
                        endpoint: self.endpoint.clone(),
                        pid,
                        owner_token: Some(self.owner_token.clone()),
                        repository: Some(self.repository.clone()),
                        protocol_version: Some(bootstrap::DAEMON_PROTOCOL_VERSION),
                        build_id: Some(self.build_id.clone()),
                    },
                };
            }
        }
        DaemonStep::CheckChild { pid, left }
    }

    /// The step after a check of the launched process.
    pub fn child_checked(&self, pid: u32, left: u32, exited: bool) -> (r: DaemonStep)
        ensures
            r@ == self@.after_child(pid, left, exited),
    {
        if exited {
            DaemonStep::Fail { error: CliError::DaemonStart(self.endpoint.clone()) }
        } else {
            DaemonStep::PauseStarted { pid, left }
        }
    }

    /// The step after a pause while a daemon starts.
    pub fn paused_started(&self, pid: u32, left: u32) -> (r: DaemonStep)
        ensures
            r@ == self@.after_pause_started(pid, left),
    {
        if left > 1 {
            DaemonStep::ProbeStarted { pid, left: left - 1 }
        } else {
            DaemonStep::Fail { error: CliError::DaemonStart(self.endpoint.clone()) }
        }
    }

    /// The step after the record was written.
    pub fn written(&self, disposition: DaemonDisposition) -> (r: DaemonStep)
        ensures
            r@ == (DaemonStepView::Done { disposition }),
    {
        DaemonStep::Done { disposition }
    }
}

/// Whether one step can follow another, whatever the world answers.
pub open spec fn can_follow(
    context: DaemonContextView,
    from: DaemonStepView,
    to: DaemonStepView,
) -> bool {
    match from {
        DaemonStepView::Stop { pid, .. } => exists|success: bool|
            to == #[trigger] context.after_stop(pid, success),
        DaemonStepView::ProbeStopped { left } => exists|probe: DaemonProbeView|
            to == #[trigger] context.after_probe_stopped(left, probe),
        DaemonStepView::PauseStopped { left } => to == context.after_pause_stopped(left),
        DaemonStepView::ProbeGone => exists|probe: DaemonProbeView|
            to == #[trigger] context.after_probe_gone(probe),
        DaemonStepView::Remove => to == context.after_remove(),
        DaemonStepView::Launch { .. } => to is ProbeStarted && to->ProbeStarted_left == PROBES,
        DaemonStepView::ProbeStarted { pid, left } => exists|probe: DaemonProbeView|
            to == #[trigger] context.after_probe_started(pid, left, probe),
        DaemonStepView::CheckChild { pid, left } => exists|exited: bool|
            to == #[trigger] context.after_child(pid, left, exited),
        DaemonStepView::PauseStarted { pid, left } => to == context.after_pause_started(pid, left),
        DaemonStepView::Write { .. } => to is Done,
        _ => false,
    }
}

/// How many steps at most are still to come.
pub open spec fn steps_left(step: DaemonStepView) -> nat {
    match step {
        DaemonStepView::Stop { .. } => 207,
        DaemonStepView::ProbeStopped { left } => (2 * left + 126) as nat,
        DaemonStepView::PauseStopped { left } => (2 * left + 125) as nat,
        DaemonStepView::ProbeGone => 125,
        DaemonStepView::Remove => 124,
        DaemonStepView::Launch { .. } => 123,
        DaemonStepView::ProbeStarted { left, .. } => (3 * left + 2) as nat,
        DaemonStepView::CheckChild { left, .. } => (3 * left + 1) as nat,
        DaemonStepView::PauseStarted { left, .. } => (3 * left) as nat,
        DaemonStepView::Write { .. } => 1,
        _ => 0,
    }
}

/// Whether a step that counts probes has any left.
pub open spec fn has_probes(step: DaemonStepView) -> bool {
    match step {
        DaemonStepView::ProbeStopped { left } => left > 0,
        DaemonStepView::PauseStopped { left } => left > 0,
        DaemonStepView::ProbeStarted { left, .. } => left > 0,
        DaemonStepView::CheckChild { left, .. } => left > 0,
        DaemonStepView::PauseStarted { left, .. } => left > 0,
        _ => true,
    }
}

/// Starting a daemon comes to an end, whatever the world answers: the first step leaves so many to
/// come at most, and every step leaves fewer than the one before.
pub proof fn starting_comes_to_an_end(
    context: DaemonContextView,
    probe: DaemonProbeView,
    from: DaemonStepView,
    to: DaemonStepView,
)
    ensures
        has_probes(context.started(probe)),
        steps_left(context.started(probe)) <= 207,
        has_probes(from) && can_follow(context, from, to) ==> {
            &&& has_probes(to)
            &&& steps_left(to) < steps_left(from)
        },
{
}

/// Only a daemon of the checkout is ever stopped, by the process in its record, and a foreign one
/// is neither stopped nor replaced.
pub proof fn only_own_daemons_are_stopped(context: DaemonContextView, probe: DaemonProbeView)
    ensures
        context.started(probe) is Stop ==> {
            &&& context.disposition(probe) is OwnedStale
            &&& context.record is Some
            &&& context.started(probe)->Stop_pid == context.record->0.pid
        },
        context.disposition(probe) is Foreign ==> context.started(probe) is Fail,
        context.disposition(probe) is OwnedCompatible ==> context.started(probe)
            == (DaemonStepView::Done { disposition: DaemonDisposition::OwnedCompatible }),
{
}

/// The record that is written makes the daemon that was found a compatible one of the checkout.
pub proof fn recorded_daemons_are_reused(
    context: DaemonContextView,
    pid: u32,
    left: u32,
    probe: DaemonProbeView,
)
    requires
        context.after_probe_started(pid, left, probe) is Write,
    ensures
        (DaemonContextView {
            record: Some(context.after_probe_started(pid, left, probe)->Write_record),
            ..context
        }).disposition(probe) is OwnedCompatible,
{
}

} // verus!
