//! The command line: what its commands ask for and how they end.
use vstd::prelude::*;

use crate::bootstrap::{BootstrapError, BootstrapErrorView};
use crate::runtime::{RuntimeError, RuntimeErrorView};
use crate::text;

pub mod arguments;
pub mod commands;
pub mod daemon;
pub mod session;
pub mod workspace;

verus! {

/// Why a command of the command line failed.
#[derive(Clone, Debug, Eq, PartialEq)]
pub enum CliError {
    Bootstrap(BootstrapError),
    Request(String),
    Runtime(RuntimeError),
    Io(String),
    Address(String),
    Rejected(String),
    MissingParticipant,
    Child(String),
    HeartbeatStopped,
    Interrupted,
    Task(String),
    MissingLinearApiKey,
    Linear(String),
    InvalidIssue(String),
    ForeignDaemon {
        endpoint: String,
        recovery: String,
    },
    InvalidEndpoint(String),
    DaemonStart(String),
}

/// What [`CliError`] stands for.
#[verifier::ext_equal]
pub enum CliErrorView {
    Bootstrap(BootstrapErrorView),
    Request(Seq<char>),
    Runtime(RuntimeErrorView),
    Io(Seq<char>),
    Address(Seq<char>),
    Rejected(Seq<char>),
    MissingParticipant,
    Child(Seq<char>),
    HeartbeatStopped,
    Interrupted,
    Task(Seq<char>),
    MissingLinearApiKey,
    Linear(Seq<char>),
    InvalidIssue(Seq<char>),
    ForeignDaemon {
        endpoint: Seq<char>,
        recovery: Seq<char>,
    },
    InvalidEndpoint(Seq<char>),
    DaemonStart(Seq<char>),
}

impl View for CliError {
    type V = CliErrorView;

    open spec fn view(&self) -> CliErrorView {
        match self {
            CliError::Bootstrap(x) => CliErrorView::Bootstrap(x.deep_view()),
            CliError::Request(x) => CliErrorView::Request(x.deep_view()),
            CliError::Runtime(x) => CliErrorView::Runtime(x.deep_view()),
            CliError::Io(x) => CliErrorView::Io(x.deep_view()),
            CliError::Address(x) => CliErrorView::Address(x.deep_view()),
            CliError::Rejected(x) => CliErrorView::Rejected(x.deep_view()),
            CliError::MissingParticipant => CliErrorView::MissingParticipant,
            CliError::Child(x) => CliErrorView::Child(x.deep_view()),
            CliError::HeartbeatStopped => CliErrorView::HeartbeatStopped,
            CliError::Interrupted => CliErrorView::Interrupted,
            CliError::Task(x) => CliErrorView::Task(x.deep_view()),
            CliError::MissingLinearApiKey => CliErrorView::MissingLinearApiKey,
            CliError::Linear(x) => CliErrorView::Linear(x.deep_view()),
            CliError::InvalidIssue(x) => CliErrorView::InvalidIssue(x.deep_view()),
            CliError::ForeignDaemon { endpoint, recovery } => CliErrorView::ForeignDaemon {
                endpoint: endpoint.deep_view(),
                recovery: recovery.deep_view(),
            },
            CliError::InvalidEndpoint(x) => CliErrorView::InvalidEndpoint(x.deep_view()),
            CliError::DaemonStart(x) => CliErrorView::DaemonStart(x.deep_view()),
        }
    }
}

impl DeepView for CliError {
    type V = CliErrorView;

    open spec fn deep_view(&self) -> CliErrorView {
        self.view()
    }
}

impl CliErrorView {
    /// What a human is told.
    pub open spec fn message(self) -> Seq<char> {
        match self {
            CliErrorView::Bootstrap(error) => error.message(),
            CliErrorView::Request(reason) => "request failed: "@ + reason,
            CliErrorView::Runtime(error) => "runtime failed: "@ + error.message(),
            CliErrorView::Io(reason) => "I/O failed: "@ + reason,
            CliErrorView::Address(reason) => "invalid listen address: "@ + reason,
            CliErrorView::Rejected(reason) => "daemon rejected command: "@ + reason,
            CliErrorView::MissingParticipant => "session join returned no participant identity"@,
            CliErrorView::Child(status) => "child process exited unsuccessfully: "@ + status,
            CliErrorView::HeartbeatStopped => "session heartbeat stopped unexpectedly"@,
            CliErrorView::Interrupted => "session interrupted"@,
            CliErrorView::Task(reason) => "session task failed: "@ + reason,
            CliErrorView::MissingLinearApiKey => "LINEAR_API_KEY is not set; create a Linear personal API key and export LINEAR_API_KEY"@,
            CliErrorView::Linear(reason) => "Linear API rejected the request: "@ + reason,
            CliErrorView::InvalidIssue(issue) => "invalid Linear issue identifier `"@ + issue + "`; expected a value such as TG-183"@,
            CliErrorView::ForeignDaemon { endpoint, recovery } => "daemon at "@ + endpoint + " is not owned by or compatible with this checkout; recover with exactly: `"@ + recovery + "`"@,
            CliErrorView::InvalidEndpoint(endpoint) => "configured endpoint must be a loopback HTTP address: "@ + endpoint,
            CliErrorView::DaemonStart(place) => "daemon failed to start at "@ + place + "; the HTTP port may already be unavailable"@,
        }
    }
}

impl CliError {
    /// What a human is told.
    pub fn message(&self) -> (r: String)
        ensures
            r@ == self@.message(),
    {
        match self {
            CliError::Bootstrap(error) => error.message(),
            CliError::Request(reason) => text::concat("request failed: ", reason.as_str()),
            CliError::Runtime(error) => text::concat("runtime failed: ", error.message().as_str()),
            CliError::Io(reason) => text::concat("I/O failed: ", reason.as_str()),
            CliError::Address(reason) => text::concat("invalid listen address: ", reason.as_str()),
            CliError::Rejected(reason) => text::concat("daemon rejected command: ", reason.as_str()),
            CliError::MissingParticipant => "session join returned no participant identity".to_owned(),
            CliError::Child(status) => text::concat("child process exited unsuccessfully: ", status.as_str()),
            CliError::HeartbeatStopped => "session heartbeat stopped unexpectedly".to_owned(),
            CliError::Interrupted => "session interrupted".to_owned(),
            CliError::Task(reason) => text::concat("session task failed: ", reason.as_str()),
            CliError::MissingLinearApiKey => "LINEAR_API_KEY is not set; create a Linear personal API key and export LINEAR_API_KEY".to_owned(),
            CliError::Linear(reason) => text::concat("Linear API rejected the request: ", reason.as_str()),
            CliError::InvalidIssue(issue) => text::concat(
                text::concat("invalid Linear issue identifier `", issue.as_str()).as_str(),
                "`; expected a value such as TG-183",
            ),
            CliError::ForeignDaemon { endpoint, recovery } => {
                let start = text::concat("daemon at ", endpoint.as_str());
                let middle = text::concat(
                    start.as_str(),
                    " is not owned by or compatible with this checkout; recover with exactly: `",
                );
                let end = text::concat(middle.as_str(), recovery.as_str());
                text::concat(end.as_str(), "`")
            },
            CliError::InvalidEndpoint(endpoint) => text::concat("configured endpoint must be a loopback HTTP address: ", endpoint.as_str()),
            CliError::DaemonStart(place) => text::concat(
                text::concat("daemon failed to start at ", place.as_str()).as_str(),
                "; the HTTP port may already be unavailable",
            ),
        }
    }
}

} // verus!
