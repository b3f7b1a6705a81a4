//! The arguments of commands.
use vstd::prelude::*;

use crate::cli::{CliError, CliErrorView};
use crate::identity;
use crate::outcome;
use crate::protocol::{
    ArtifactKind, ArtifactRef, ArtifactRefView, RequestId, RequestIdentity, RequestIdentityView,
    Signal, SignalView,
};
use crate::text;

verus! {

/// The kinds of signal that the command line can publish.
#[derive(Clone, Copy, Debug, Eq, PartialEq, Structural)]
pub enum SignalKind {
    Working,
    Finding,
    Offering,
    HelpNeeded,
    DecisionNeeded,
    Blocked,
    Checkpoint,
    ReviewRequested,
    Done,
}

impl DeepView for SignalKind {
    type V = SignalKind;

    open spec fn deep_view(&self) -> SignalKind {
        *self
    }
}

/// The agents that the command line can run.
#[derive(Clone, Copy, Debug, Eq, PartialEq, Structural)]
pub enum AgentHarness {
    Amp,
}

impl DeepView for AgentHarness {
    type V = AgentHarness;

    open spec fn deep_view(&self) -> AgentHarness {
        *self
    }
}

/// A signal as it is given on the command line.
#[derive(Clone, Debug, Eq, PartialEq)]
pub struct SignalArguments {
    pub kind: SignalKind,
    pub summary: String,
    pub artifacts: Vec<ArtifactRef>,
    pub requested_action: Option<String>,
    pub choices: Vec<String>,
    pub recommendation: Option<String>,
    pub known_risk: Option<String>,
    pub request_id: Option<RequestId>,
    pub request_key: Option<String>,
    pub supersedes_request: Option<RequestId>,
}

/// What [`SignalArguments`] stands for.
#[verifier::ext_equal]
pub struct SignalArgumentsView {
    pub kind: SignalKind,
    pub summary: Seq<char>,
    pub artifacts: Seq<ArtifactRefView>,
    pub requested_action: Option<Seq<char>>,
    pub choices: Seq<Seq<char>>,
    pub recommendation: Option<Seq<char>>,
    pub known_risk: Option<Seq<char>>,
    pub request_id: Option<RequestId>,
    pub request_key: Option<Seq<char>>,
    pub supersedes_request: Option<RequestId>,
}

impl View for SignalArguments {
    type V = SignalArgumentsView;

    open spec fn view(&self) -> SignalArgumentsView {
        SignalArgumentsView {
            kind: self.kind,
            summary: self.summary.deep_view(),
            artifacts: self.artifacts.deep_view(),
            requested_action: self.requested_action.deep_view(),
            choices: self.choices.deep_view(),
            recommendation: self.recommendation.deep_view(),
            known_risk: self.known_risk.deep_view(),
            request_id: self.request_id,
            request_key: self.request_key.deep_view(),
            supersedes_request: self.supersedes_request,
        }
    }
}

impl DeepView for SignalArguments {
    type V = SignalArgumentsView;

    open spec fn deep_view(&self) -> SignalArgumentsView {
        self.view()
    }
}

impl AgentHarness {
    /// The program that an agent runs as.
    pub open spec fn program(self) -> Seq<char> {
        match self {
            AgentHarness::Amp => "amp"@,
        }
    }

    /// The program that an agent runs as.
    pub fn executable(self) -> (r: &'static str)
        ensures
            r@ == self.program(),
    {
        match self {
            AgentHarness::Amp => "amp",
        }
    }
}

/// A letter of ASCII in upper case; any other character as it is.
pub open spec fn upper_char(c: char) -> char {
    if 'a' <= c <= 'z' {
        (c as u32 - 32) as char
    } else {
        c
    }
}

/// A text with its letters of ASCII in upper case.
pub open spec fn uppercased(s: Seq<char>) -> Seq<char> {
    s.map_values(|c: char| upper_char(c))
}

/// A text with its letters of ASCII in upper case.
fn to_ascii_uppercase(s: &str) -> (r: String)
    ensures
        r@ == uppercased(s@),
{
    let chars = text::characters(s);
    let mut r = String::new();
    let mut i: usize = 0;
    while i < chars.len()
        invariant
            i <= chars.len(),
            chars@ == s@,
            r@ == uppercased(s@.take(i as int)),
        decreases chars.len() - i,
    {
        let c: char = chars[i];
        let upper: char = if 'a' <= c && c <= 'z' {
            (c as u8 - 32) as char
        } else {
            c
        };
        r.push(upper);
        assert(uppercased(s@.take(i + 1)) == uppercased(s@.take(i as int)).push(upper_char(c)));
        i = i + 1;
    }
    assert(s@.take(i as int) == s@);
    r
}

/// Whether a text consists of one or more letters of ASCII.
pub open spec fn is_letters(s: Seq<char>) -> bool {
    s.len() > 0 && forall|i: int|
        0 <= i < s.len() ==> ('A' <= #[trigger] s[i] <= 'Z' || 'a' <= s[i] <= 'z')
}

/// Whether a text consists of one or more decimal digits.
pub open spec fn is_digits(s: Seq<char>) -> bool {
    s.len() > 0 && forall|i: int| 0 <= i < s.len() ==> '0' <= #[trigger] s[i] <= '9'
}

/// Whether a text names an issue: the letters of a team, a hyphen and a number.
pub open spec fn is_issue(s: Seq<char>) -> bool {
    match text::split_at_first(s, "-"@) {
        Some((team, number)) => is_letters(team) && is_digits(number),
        None => false,
    }
}

/// The canonical identifier of an issue: trimmed, in upper case.
pub open spec fn issue_identifier(issue: Seq<char>) -> Result<Seq<char>, CliErrorView> {
    let identifier = uppercased(text::trimmed(issue));
    if is_issue(identifier) {
        Ok(identifier)
    } else {
        Err(CliErrorView::InvalidIssue(identifier))
    }
}

fn all_letters(s: &str) -> (r: bool)
    ensures
        r == is_letters(s@),
{
    let chars = text::characters(s);
    if chars.len() == 0 {
        return false;
    }
    let mut i: usize = 0;
    while i < chars.len()
        invariant
            i <= chars.len(),
            chars@ == s@,
            forall|j: int|
                0 <= j < i ==> ('A' <= #[trigger] s@[j] <= 'Z' || 'a' <= s@[j] <= 'z'),
        decreases chars.len() - i,
    {
        let c: char = chars[i];
        if !('A' <= c && c <= 'Z') && !('a' <= c && c <= 'z') {
            assert(s@[i as int] == c);
            return false;
        }
        i = i + 1;
    }
    true
}

fn all_digits(s: &str) -> (r: bool)
    ensures
        r == is_digits(s@),
{
    let chars = text::characters(s);
    if chars.len() == 0 {
        return false;
    }
    let mut i: usize = 0;
    while i < chars.len()
        invariant
            i <= chars.len(),
            chars@ == s@,
            forall|j: int| 0 <= j < i ==> '0' <= #[trigger] s@[j] <= '9',
        decreases chars.len() - i,
    {
        let c: char = chars[i];
        if !('0' <= c && c <= '9') {
            assert(s@[i as int] == c);
            return false;
        }
        i = i + 1;
    }
    true
}

/// The canonical identifier of an issue, such as `TG-183`.
pub fn normalize_issue_identifier(issue: &str) -> (r: Result<String, CliError>)
    ensures
        outcome::seen(r) == issue_identifier(issue@),
{
    let trimmed = text::trim(issue);
    let identifier = to_ascii_uppercase(trimmed.as_str());
    match text::split_once(identifier.as_str(), "-") {
        Some((team, number)) => if all_letters(team.as_str()) && all_digits(number.as_str()) {
            Ok(identifier)
        } else {
            Err(CliError::InvalidIssue(identifier))
        },
        None => Err(CliError::InvalidIssue(identifier)),
    }
}

/// What is found stands where it is found.
pub proof fn lemma_found(s: Seq<char>, pattern: Seq<char>, from: int)
    requires
        0 <= from,
    ensures
        match text::find_from(s, pattern, from) {
            Some(at) => from <= at && at + pattern.len() <= s.len() && s.subrange(
                at,
                at + pattern.len(),
            ) == pattern,
            None => true,
        },
    decreases s.len() + 1 - from,
{
    if from + pattern.len() <= s.len() && s.subrange(from, from + pattern.len()) != pattern {
        lemma_found(s, pattern, from + 1);
    }
}

/// A canonical identifier is its own canonical form.
pub proof fn issue_identifiers_are_canonical(issue: Seq<char>)
    requires
        issue_identifier(issue) is Ok,
    ensures
        issue_identifier(issue_identifier(issue)->Ok_0) == issue_identifier(issue),
{
    let id = issue_identifier(issue)->Ok_0;
    let (team, number) = text::split_at_first(id, "-"@)->0;
    let at = text::find_from(id, "-"@, 0)->0;
    reveal_strlit("-");
    lemma_found(id, "-"@, 0);
    assert(id[at] == id.subrange(at, at + 1)[0]);
    assert forall|i: int| 0 <= i < id.len() implies upper_char(#[trigger] id[i]) == id[i] by {
        let t = text::trimmed(issue);
        assert(id[i] == upper_char(t[i]));
    }
    assert(uppercased(id) == id);
    assert(team[0] == id[0]);
    assert(!text::is_white(id[0]));
    assert(text::trim_front(id) == id);
    assert(number.last() == id.last());
    assert(is_digits(number));
    assert('0' <= number[number.len() - 1] <= '9');
    assert(!text::is_white(id.last()));
    assert(text::trimmed(id) == id);
}

/// The key for Linear, where one is given that is not blank.
pub open spec fn usable_key(value: Option<Seq<char>>) -> Result<Seq<char>, CliErrorView> {
    if value is Some && !text::is_blank(value->0) {
        Ok(value->0)
    } else {
        Err(CliErrorView::MissingLinearApiKey)
    }
}

/// The key for Linear, where one is given that is not blank.
pub fn linear_api_key(value: Option<String>) -> (r: Result<String, CliError>)
    ensures
        outcome::seen(r) == usable_key(value.deep_view()),
{
    match value {
        Some(value) => if text::blank(value.as_str()) {
            Err(CliError::MissingLinearApiKey)
        } else {
            Ok(value)
        },
        None => Err(CliError::MissingLinearApiKey),
    }
}

/// The kind of artifact that a name on the command line stands for.
pub open spec fn kind_named(name: Seq<char>) -> Option<ArtifactKind> {
    if name == "file"@ {
        Some(ArtifactKind::File)
    } else if name == "patch"@ {
        Some(ArtifactKind::Patch)
    } else if name == "revision"@ {
        Some(ArtifactKind::Revision)
    } else if name == "test_receipt"@ {
        Some(ArtifactKind::TestReceipt)
    } else if name == "url"@ {
        Some(ArtifactKind::Url)
    } else {
        None
    }
}

/// The artifact that `KIND:URI` stands for.
pub open spec fn artifact_of(value: Seq<char>) -> Result<ArtifactRefView, Seq<char>> {
    match text::split_at_first(value, ":"@) {
        None => Err("artifact must be KIND:URI"@),
        Some((name, uri)) => if text::is_blank(uri) {
            Err("artifact URI must not be empty"@)
        } else {
            match kind_named(name) {
                Some(kind) => Ok(ArtifactRefView { kind, uri, digest: None }),
                None => Err("unknown artifact kind: "@ + name),
            }
        },
    }
}

/// An artifact as it is given on the command line.
#[derive(Clone, Debug)]
pub struct ArtifactArgument(pub ArtifactRef);

impl ArtifactArgument {
    /// Reads an artifact from `KIND:URI`.
    pub fn from_str(value: &str) -> (r: Result<ArtifactArgument, String>)
        ensures
            match r {
                Ok(argument) => artifact_of(value@) == Ok::<ArtifactRefView, Seq<char>>(
                    argument.0@,
                ),
                Err(reason) => artifact_of(value@) == Err::<ArtifactRefView, Seq<char>>(reason@),
            },
    {
        let (name, uri) = match text::split_once(value, ":") {
            Some(parts) => parts,
            None => return Err("artifact must be KIND:URI".to_owned()),
        };
        if text::blank(uri.as_str()) {
            return Err("artifact URI must not be empty".to_owned());
        }
        let kind: ArtifactKind = if text::same(name.as_str(), "file") {
            ArtifactKind::File
        } else if text::same(name.as_str(), "patch") {
            ArtifactKind::Patch
        } else if text::same(name.as_str(), "revision") {
            ArtifactKind::Revision
        } else if text::same(name.as_str(), "test_receipt") {
            ArtifactKind::TestReceipt
        } else if text::same(name.as_str(), "url") {
            ArtifactKind::Url
        } else {
            return Err(text::concat("unknown artifact kind: ", name.as_str()));
        };
        Ok(ArtifactArgument(ArtifactRef { kind, uri, digest: None }))
    }
}

/// A text that may be left out, which is then empty.
pub open spec fn or_empty(value: Option<Seq<char>>) -> Seq<char> {
    match value {
        Some(value) => value,
        None => Seq::empty(),
    }
}

fn unwrap_or_empty(value: Option<String>) -> (r: String)
    ensures
        r@ == or_empty(value.deep_view()),
{
    match value {
        Some(value) => value,
        None => {
            let empty = String::new();
            assert(empty@ == Seq::<char>::empty());
            empty
        },
    }
}

impl SignalArgumentsView {
    /// The identity of the request: there is one where a key is given. Its own identity may be
    /// given too, or is the fresh one.
    pub open spec fn identity(self, fresh: RequestId) -> Option<RequestIdentityView> {
        match self.request_key {
            Some(request_key) => Some(
                RequestIdentityView {
                    request_id: match self.request_id {
                        Some(request_id) => request_id,
                        None => fresh,
                    },
                    request_key,
                    supersedes_request_id: self.supersedes_request,
                },
            ),
            None => None,
        }
    }

    /// The signal that the arguments give. What its kind has no place for is left out.
    pub open spec fn signal(self, fresh: RequestId) -> SignalView {
        match self.kind {
            SignalKind::Working => SignalView::Working { summary: self.summary },
            SignalKind::Finding => SignalView::Finding {
                summary: self.summary,
                artifacts: self.artifacts,
            },
            SignalKind::Offering => SignalView::Offering {
                summary: self.summary,
                artifacts: self.artifacts,
            },
            SignalKind::HelpNeeded => SignalView::HelpNeeded {
                identity: self.identity(fresh),
                summary: self.summary,
                requested_action: or_empty(self.requested_action),
                evidence: self.artifacts,
            },
            SignalKind::DecisionNeeded => SignalView::DecisionNeeded {
                identity: self.identity(fresh),
                summary: self.summary,
                choices: self.choices,
                recommendation: self.recommendation,
                evidence: self.artifacts,
            },
            SignalKind::Blocked => SignalView::Blocked {
                identity: self.identity(fresh),
                summary: self.summary,
                requested_action: or_empty(self.requested_action),
                evidence: self.artifacts,
            },
            SignalKind::Checkpoint => SignalView::Checkpoint {
                summary: self.summary,
                artifacts: self.artifacts,
            },
            SignalKind::ReviewRequested => SignalView::ReviewRequested {
                identity: self.identity(fresh),
                summary: self.summary,
                requested_action: or_empty(self.requested_action),
                known_risk: or_empty(self.known_risk),
                evidence: self.artifacts,
            },
            SignalKind::Done => SignalView::Done { summary: self.summary, evidence: self.artifacts },
        }
    }
}

/// Builds the signal that the arguments give, with the identity for a request that has none.
pub fn build_signal_with(arguments: SignalArguments, fresh: RequestId) -> (r: Signal)
    ensures
        r@ == arguments@.signal(fresh),
{
    let summary = arguments.summary;
    let artifacts = arguments.artifacts;
    let request_id: RequestId = match arguments.request_id {
        Some(request_id) => request_id,
        None => fresh,
    };
    let identity: Option<RequestIdentity> = match arguments.request_key {
        Some(request_key) => Some(
            RequestIdentity {
                request_id,
                request_key,
                supersedes_request_id: arguments.supersedes_request,
            },
        ),
        None => None,
    };
    match arguments.kind {
        SignalKind::Working => Signal::Working { summary },
        SignalKind::Finding => Signal::Finding { summary, artifacts },
        SignalKind::Offering => Signal::Offering { summary, artifacts },
        SignalKind::HelpNeeded => Signal::HelpNeeded {
            identity,
            summary,
            requested_action: unwrap_or_empty(arguments.requested_action),
            evidence: artifacts,
        },
        SignalKind::DecisionNeeded => Signal::DecisionNeeded {
            identity,
            summary,
            choices: arguments.choices,
            recommendation: arguments.recommendation,
            evidence: artifacts,
        },
        SignalKind::Blocked => Signal::Blocked {
            identity,
            summary,
            requested_action: unwrap_or_empty(arguments.requested_action),
            evidence: artifacts,
        },
        SignalKind::Checkpoint => Signal::Checkpoint { summary, artifacts },
        SignalKind::ReviewRequested => Signal::ReviewRequested {
            identity,
            summary,
            requested_action: unwrap_or_empty(arguments.requested_action),
            known_risk: unwrap_or_empty(arguments.known_risk),
            evidence: artifacts,
        },
        SignalKind::Done => Signal::Done { summary, evidence: artifacts },
    }
}

/// Builds the signal that the arguments give. A request that is given a key and no identity gets a
/// new one.
pub fn build_signal(arguments: SignalArguments) -> (r: Signal)
    ensures
        exists|fresh: RequestId|
            identity::is_version_seven(fresh.0) && r@ == #[trigger] arguments@.signal(fresh),
{
    build_signal_with(arguments, RequestId::new())
}

} // verus!
