//! Finding the place of a command: its repository, its workspace and its daemon.
use vstd::prelude::*;

use std::collections::hash_map::DefaultHasher;
use std::hash::{Hash, Hasher};
use vstd::std_specs::hash::DefaultHasherAdditionalSpecFns;
use vstd::utf8;

use crate::laws;
use crate::outcome;
use crate::paths::PathStyle;
use crate::protocol::{
    LinearIssue, LinearIssueView, LinearMetadata, LinearMetadataView, RepositoryRef,
    RepositoryRefView, Workspace, WorkspaceView,
};
use crate::sequences;
use crate::sequences::Equal;
use crate::text;

verus! {

/// Where a checkout keeps its active workspace.
pub const ACTIVE_WORKSPACE_FILE: &'static str = ".clarity/active-workspace";

/// Where a checkout keeps the record of its daemon.
pub const DAEMON_RECORD_FILE: &'static str = ".clarity/daemon.json";

/// The version of the protocol between a daemon and its clients.
pub const DAEMON_PROTOCOL_VERSION: u32 = 1;

/// The repository that a command runs in.
#[derive(Clone, Debug, Eq, PartialEq)]
pub struct RepositoryContext {
    pub root: String,
    pub identity: String,
    pub revision: Option<String>,
}

/// What [`RepositoryContext`] stands for.
#[verifier::ext_equal]
pub struct RepositoryContextView {
    pub root: Seq<char>,
    pub identity: Seq<char>,
    pub revision: Option<Seq<char>>,
}

impl View for RepositoryContext {
    type V = RepositoryContextView;

    open spec fn view(&self) -> RepositoryContextView {
        RepositoryContextView {
            root: self.root.deep_view(),
            identity: self.identity.deep_view(),
            revision: self.revision.deep_view(),
        }
    }
}

impl DeepView for RepositoryContext {
    type V = RepositoryContextView;

    open spec fn deep_view(&self) -> RepositoryContextView {
        self.view()
    }
}

/// The daemon that a checkout started.
#[derive(Clone, Debug, Eq, PartialEq)]
pub struct DaemonRecord {
    pub endpoint: String,
    pub pid: u32,
    pub owner_token: Option<String>,
    pub repository: Option<String>,
    pub protocol_version: Option<u32>,
    pub build_id: Option<String>,
}

/// What [`DaemonRecord`] stands for.
#[verifier::ext_equal]
pub struct DaemonRecordView {
    pub endpoint: Seq<char>,
    pub pid: u32,
    pub owner_token: Option<Seq<char>>,
    pub repository: Option<Seq<char>>,
    pub protocol_version: Option<u32>,
    pub build_id: Option<Seq<char>>,
}

impl View for DaemonRecord {
    type V = DaemonRecordView;

    open spec fn view(&self) -> DaemonRecordView {
        DaemonRecordView {
            endpoint: self.endpoint.deep_view(),
            pid: self.pid,
            owner_token: self.owner_token.deep_view(),
            repository: self.repository.deep_view(),
            protocol_version: self.protocol_version,
            build_id: self.build_id.deep_view(),
        }
    }
}

impl DeepView for DaemonRecord {
    type V = DaemonRecordView;

    open spec fn deep_view(&self) -> DaemonRecordView {
        self.view()
    }
}

/// How a daemon identifies itself.
#[derive(Clone, Debug, Eq, PartialEq)]
pub struct DaemonIdentity {
    pub owner_token: String,
    pub repository: String,
    pub protocol_version: u32,
    pub build_id: String,
}

/// What [`DaemonIdentity`] stands for.
#[verifier::ext_equal]
pub struct DaemonIdentityView {
    pub owner_token: Seq<char>,
    pub repository: Seq<char>,
    pub protocol_version: u32,
    pub build_id: Seq<char>,
}

impl View for DaemonIdentity {
    type V = DaemonIdentityView;

    open spec fn view(&self) -> DaemonIdentityView {
        DaemonIdentityView {
            owner_token: self.owner_token.deep_view(),
            repository: self.repository.deep_view(),
            protocol_version: self.protocol_version,
            build_id: self.build_id.deep_view(),
        }
    }
}

impl DeepView for DaemonIdentity {
    type V = DaemonIdentityView;

    open spec fn deep_view(&self) -> DaemonIdentityView {
        self.view()
    }
}

/// What answered at an endpoint.
#[derive(Clone, Debug, Eq, PartialEq)]
pub enum DaemonProbe {
    Absent,
    Identified(DaemonIdentity),
    ForeignResponse,
}

/// What [`DaemonProbe`] stands for.
#[verifier::ext_equal]
pub enum DaemonProbeView {
    Absent,
    Identified(DaemonIdentityView),
    ForeignResponse,
}

impl View for DaemonProbe {
    type V = DaemonProbeView;

    open spec fn view(&self) -> DaemonProbeView {
        match self {
            DaemonProbe::Absent => DaemonProbeView::Absent,
            DaemonProbe::Identified(x) => DaemonProbeView::Identified(x.deep_view()),
            DaemonProbe::ForeignResponse => DaemonProbeView::ForeignResponse,
        }
    }
}

impl DeepView for DaemonProbe {
    type V = DaemonProbeView;

    open spec fn deep_view(&self) -> DaemonProbeView {
        self.view()
    }
}

/// How a checkout stands to the daemon at its endpoint.
#[derive(Clone, Copy, Debug, Eq, PartialEq, Structural)]
pub enum DaemonDisposition {
    OwnedCompatible,
    OwnedStale,
    Foreign,
    Absent,
}

impl DeepView for DaemonDisposition {
    type V = DaemonDisposition;

    open spec fn deep_view(&self) -> DaemonDisposition {
        *self
    }
}

/// Why a command could not find its place.
#[derive(Clone, Debug, Eq, PartialEq)]
pub enum BootstrapError {
    Io(String),
    Git(String),
    InvalidOrigin(String),
    MissingSelection,
    InvalidDaemonRecord(String),
}

/// What [`BootstrapError`] stands for.
#[verifier::ext_equal]
pub enum BootstrapErrorView {
    Io(Seq<char>),
    Git(Seq<char>),
    InvalidOrigin(Seq<char>),
    MissingSelection,
    InvalidDaemonRecord(Seq<char>),
}

impl View for BootstrapError {
    type V = BootstrapErrorView;

    open spec fn view(&self) -> BootstrapErrorView {
        match self {
            BootstrapError::Io(x) => BootstrapErrorView::Io(x.deep_view()),
            BootstrapError::Git(x) => BootstrapErrorView::Git(x.deep_view()),
            BootstrapError::InvalidOrigin(x) => BootstrapErrorView::InvalidOrigin(x.deep_view()),
            BootstrapError::MissingSelection => BootstrapErrorView::MissingSelection,
            BootstrapError::InvalidDaemonRecord(x) => BootstrapErrorView::InvalidDaemonRecord(x.deep_view()),
        }
    }
}

impl DeepView for BootstrapError {
    type V = BootstrapErrorView;

    open spec fn deep_view(&self) -> BootstrapErrorView {
        self.view()
    }
}

/// What a run of Git left behind.
#[derive(Clone, Debug, Eq, PartialEq)]
pub struct GitOutput {
    pub success: bool,
    pub code: Option<i32>,
    pub stdout: Vec<u8>,
    pub stderr: Vec<u8>,
}

/// What [`GitOutput`] stands for.
#[verifier::ext_equal]
pub struct GitOutputView {
    pub success: bool,
    pub code: Option<i32>,
    pub stdout: Seq<u8>,
    pub stderr: Seq<u8>,
}

impl View for GitOutput {
    type V = GitOutputView;

    open spec fn view(&self) -> GitOutputView {
        GitOutputView {
            success: self.success,
            code: self.code,
            stdout: self.stdout.deep_view(),
            stderr: self.stderr.deep_view(),
        }
    }
}

impl DeepView for GitOutput {
    type V = GitOutputView;

    open spec fn deep_view(&self) -> GitOutputView {
        self.view()
    }
}

impl BootstrapErrorView {
    /// What a human is told.
    pub open spec fn message(self) -> Seq<char> {
        match self {
            BootstrapErrorView::Io(reason) => "I/O failed: "@ + reason,
            BootstrapErrorView::Git(reason) => "Git command failed: "@ + reason,
            BootstrapErrorView::InvalidOrigin(origin) =>
                "repository origin is not a recognizable Git URL: "@ + origin,
            BootstrapErrorView::MissingSelection =>
                "no active Clarity workstream in this checkout; run `clarity up TG-*` first"@,
            BootstrapErrorView::InvalidDaemonRecord(reason) => "invalid daemon record: "@ + reason,
        }
    }
}

impl BootstrapError {
    /// What a human is told.
    pub fn message(&self) -> (r: String)
        ensures
            r@ == self@.message(),
    {
        match self {
            BootstrapError::Io(reason) => text::concat("I/O failed: ", reason.as_str()),
            BootstrapError::Git(reason) => text::concat("Git command failed: ", reason.as_str()),
            BootstrapError::InvalidOrigin(origin) => text::concat(
                "repository origin is not a recognizable Git URL: ",
                origin.as_str(),
            ),
            BootstrapError::MissingSelection =>
                "no active Clarity workstream in this checkout; run `clarity up TG-*` first".to_owned(),
            BootstrapError::InvalidDaemonRecord(reason) => text::concat(
                "invalid daemon record: ",
                reason.as_str(),
            ),
        }
    }
}

/// The text that `String::from_utf8_lossy` makes of bytes that are not UTF-8: with the replacement
/// character in place of what is not.
pub uninterp spec fn lossy_text(bytes: Seq<u8>) -> Seq<char>;

/// Reads bytes as text with `String::from_utf8_lossy`: bytes in UTF-8 as the text that they encode,
/// others with replacements.
#[verifier::external_body]
fn from_utf8_lossy(bytes: &Vec<u8>) -> (r: String)
    ensures
        r@ == (if utf8::valid_utf8(bytes@) {
            utf8::decode_utf8(bytes@)
        } else {
            lossy_text(bytes@)
        }),
{
    String::from_utf8_lossy(bytes).into_owned()
}

/// The text of some bytes.
pub open spec fn text_of(bytes: Seq<u8>) -> Seq<char> {
    if utf8::valid_utf8(bytes) {
        utf8::decode_utf8(bytes)
    } else {
        lossy_text(bytes)
    }
}

/// What a run of Git printed, trimmed.
pub open spec fn printed(bytes: Seq<u8>) -> Seq<char> {
    text::trimmed(text_of(bytes))
}

/// What a run of Git printed, trimmed.
fn printed_text(bytes: &Vec<u8>) -> (r: String)
    ensures
        r@ == printed(bytes.deep_view()),
{
    assert(bytes.deep_view() =~= bytes@);
    let decoded = from_utf8_lossy(bytes);
    text::trim(decoded.as_str())
}

/// The arguments that ask Git for the origin of a repository.
pub open spec fn asks_origin(arguments: Seq<Seq<char>>) -> bool {
    arguments == seq!["remote"@, "get-url"@, "origin"@]
}

/// What a run of Git says: its output, or nothing where a repository has no origin.
pub open spec fn git_said(arguments: Seq<Seq<char>>, output: GitOutputView) -> Result<
    Option<Seq<char>>,
    BootstrapErrorView,
> {
    if output.success {
        Ok(Some(printed(output.stdout)))
    } else if asks_origin(arguments) {
        Ok(None)
    } else {
        Err(BootstrapErrorView::Git(printed(output.stderr)))
    }
}

/// What a run of Git says: its output, or nothing where a repository has no origin.
pub fn git_optional(arguments: &Vec<String>, output: &GitOutput) -> (r: Result<
    Option<String>,
    BootstrapError,
>)
    ensures
        outcome::seen(r) == git_said(arguments.deep_view(), output@),
{
    if output.success {
        return Ok(Some(printed_text(&output.stdout)));
    }
    let ghost all = arguments.deep_view();
    let origin: bool = arguments.len() == 3 && text::same(arguments[0].as_str(), "remote")
        && text::same(arguments[1].as_str(), "get-url") && text::same(
        arguments[2].as_str(),
        "origin",
    );
    proof {
        if origin {
            assert(all[0] == "remote"@ && all[1] == "get-url"@ && all[2] == "origin"@);
            assert(all =~= seq!["remote"@, "get-url"@, "origin"@]);
        } else if asks_origin(all) {
            assert(all.len() == 3);
            assert(all[0] == arguments@[0]@ && all[1] == arguments@[1]@ && all[2]
                == arguments@[2]@);
        }
    }
    if origin {
        Ok(None)
    } else {
        Err(BootstrapError::Git(printed_text(&output.stderr)))
    }
}

/// What a run of Git says, where it must say something.
pub open spec fn git_must_say(arguments: Seq<Seq<char>>, output: GitOutputView) -> Result<
    Seq<char>,
    BootstrapErrorView,
> {
    match git_said(arguments, output) {
        Ok(Some(said)) => Ok(said),
        Ok(None) => Err(
            BootstrapErrorView::Git(
                "git "@ + text::joined(arguments, " "@) + " returned no output"@,
            ),
        ),
        Err(error) => Err(error),
    }
}

/// What a run of Git says, where it must say something.
pub fn git(arguments: &Vec<String>, output: &GitOutput) -> (r: Result<String, BootstrapError>)
    ensures
        outcome::seen(r) == git_must_say(arguments.deep_view(), output@),
{
    match git_optional(arguments, output) {
        Ok(Some(said)) => Ok(said),
        Ok(None) => {
            let asked = text::join(arguments, " ");
            let reason = text::concat(
                text::concat("git ", asked.as_str()).as_str(),
                " returned no output",
            );
            Err(BootstrapError::Git(reason))
        },
        Err(error) => Err(error),
    }
}

/// The current commit: none where the repository has none yet, which Git says by its code 1.
pub open spec fn head_said(output: GitOutputView) -> Result<Option<Seq<char>>, BootstrapErrorView> {
    if output.success {
        Ok(Some(printed(output.stdout)))
    } else if output.code == Some(1i32) {
        Ok(None)
    } else {
        Err(BootstrapErrorView::Git(printed(output.stderr)))
    }
}

/// The current commit: none where the repository has none yet.
pub fn git_head(output: &GitOutput) -> (r: Result<Option<String>, BootstrapError>)
    ensures
        outcome::seen(r) == head_said(output@),
{
    if output.success {
        return Ok(Some(printed_text(&output.stdout)));
    }
    let unborn: bool = match output.code {
        Some(code) => code == 1,
        None => false,
    };
    if unborn {
        Ok(None)
    } else {
        Err(BootstrapError::Git(printed_text(&output.stderr)))
    }
}

/// Whether a segment of a path names something: it is neither empty nor `.`.
pub open spec fn names_entry() -> spec_fn(Seq<char>) -> bool {
    |segment: Seq<char>| segment != Seq::<char>::empty() && segment != "."@
}

/// The last name in a path, behind the drive where it begins with one; none where the path has none
/// or goes up at its end.
pub open spec fn file_name(path: Seq<char>, style: PathStyle) -> Option<Seq<char>> {
    let whole = style.slashed(path);
    let names = text::pieces(
        if style.has_drive(path) {
            whole.skip(2)
        } else {
            whole
        },
        '/',
    ).filter(names_entry());
    if names.len() == 0 || names.last() == ".."@ {
        None
    } else {
        Some(names.last())
    }
}

/// The last name in a path, as `std::path::Path::file_name` gives it on this machine. How much of a
/// path names a share or a device is for the machine to say, so nothing is claimed of the result.
#[verifier::external_body]
fn file_name_here(path: &str) -> (r: Option<String>) {
    let name = std::path::Path::new(path).file_name();
    name.and_then(|name| name.to_str()).map(|name| name.to_owned())
}

/// The last name in a path that begins with no share.
fn last_name(path: &str, style: PathStyle) -> (r: Option<String>)
    ensures
        r.deep_view() == file_name(path@, style),
{
    let chars = text::characters(path);
    let slashed = style.with_slashes(path);
    let rest = if style.begins_with_drive(&chars) {
        let all = text::characters(slashed.as_str());
        assert(all@.skip(2) =~= all@.subrange(2, all@.len() as int));
        text::text_between(&all, 2, all.len())
    } else {
        slashed
    };
    let segments = text::split(rest.as_str(), '/');
    let ghost all = segments.deep_view();
    let ghost p = names_entry();
    let mut last: Option<usize> = None;
    let mut i: usize = 0;
    proof {
        reveal(Seq::filter);
        reveal_strlit("");
        assert(""@ == Seq::<char>::empty());
        assert(all.take(0) == Seq::<Seq<char>>::empty());
    }
    while i < segments.len()
        invariant
            i <= segments.len(),
            all == segments.deep_view(),
            p == names_entry(),
            ""@ == Seq::<char>::empty(),
            match last {
                Some(k) => k < segments.len() && all.take(i as int).filter(p).len() > 0
                    && all.take(i as int).filter(p).last() == all[k as int],
                None => all.take(i as int).filter(p).len() == 0,
            },
        decreases segments.len() - i,
    {
        proof {
            sequences::lemma_filter_take(all, p, i as int);
        }
        assert(all[i as int] == segments@[i as int]@);
        if !text::same(segments[i].as_str(), "") && !text::same(segments[i].as_str(), ".") {
            last = Some(i);
        }
        i = i + 1;
    }
    assert(all.take(i as int) == all);
    if let Some(k) = last {
        assert(all[k as int] == segments@[k as int]@);
        if !text::same(segments[k].as_str(), "..") {
            return Some(segments[k].clone());
        }
    }
    None
}

/// The identity of a repository without an origin, by the name of its directory.
pub open spec fn local_identity(name: Option<Seq<char>>) -> Result<Seq<char>, BootstrapErrorView> {
    if name is Some && name->0.len() > 0 {
        Ok("local/"@ + name->0)
    } else {
        Err(BootstrapErrorView::Git("repository root has no usable directory name"@))
    }
}

/// The identity of a repository without an origin, by the name of its directory.
pub fn identity_of_directory(name: Option<String>) -> (r: Result<String, BootstrapError>)
    ensures
        outcome::seen(r) == local_identity(name.deep_view()),
{
    if let Some(name) = name {
        proof {
            reveal_strlit("");
            if name@.len() == 0 {
                assert(name@ =~= ""@);
            }
        }
        if !text::same(name.as_str(), "") {
            return Ok(text::concat("local/", name.as_str()));
        }
    }
    Err(BootstrapError::Git("repository root has no usable directory name".to_owned()))
}

/// The name of a directory. What it is in a path that begins with a share is left to the machine.
fn directory_name(root: &str, style: PathStyle) -> (r: Option<String>)
    ensures
        !style.has_share(root@) ==> r.deep_view() == file_name(root@, style),
{
    let chars = text::characters(root);
    if style.begins_with_share(&chars) {
        file_name_here(root)
    } else {
        last_name(root, style)
    }
}

/// The identity of a repository without an origin: the name of its directory.
pub fn local_repository_identity(root: &str, style: PathStyle) -> (r: Result<
    String,
    BootstrapError,
>)
    ensures
        !style.has_share(root@) ==> outcome::seen(r) == local_identity(file_name(root@, style)),
        exists|name: Option<Seq<char>>| outcome::seen(r) == #[trigger] local_identity(name),
{
    identity_of_directory(directory_name(root, style))
}

/// The path in a Git URL: behind the host of `scheme://host/path`, behind the colon of
/// `host:path`, or all of it.
pub open spec fn origin_path(url: Seq<char>) -> Option<Seq<char>> {
    match text::split_at_first(url, "://"@) {
        Some((_, rest)) => match text::split_at_first(rest, "/"@) {
            Some((_, path)) => Some(path),
            None => None,
        },
        None => match text::split_at_first(url, ":"@) {
            Some((_, path)) => Some(path),
            None => Some(url),
        },
    }
}

/// The identity of a repository: the path of its origin, without a trailing slash or `.git`. It
/// has at least two segments.
pub open spec fn identity_of(origin: Seq<char>) -> Result<Seq<char>, BootstrapErrorView> {
    let url = text::without_suffixes(
        text::without_suffixes(text::trimmed(origin), "/"@),
        ".git"@,
    );
    match origin_path(url) {
        Some(path) => if text::pieces(path, '/').len() >= 2 {
            Ok(path)
        } else {
            Err(BootstrapErrorView::InvalidOrigin(origin))
        },
        None => Err(BootstrapErrorView::InvalidOrigin(origin)),
    }
}

/// The identity of a repository, from its origin.
pub fn repository_identity(origin: &str) -> (r: Result<String, BootstrapError>)
    ensures
        outcome::seen(r) == identity_of(origin@),
{
    proof {
        reveal_strlit("/");
        reveal_strlit(".git");
    }
    let trimmed = text::trim(origin);
    let unslashed = text::trim_suffixes(trimmed.as_str(), "/");
    let url = text::trim_suffixes(unslashed.as_str(), ".git");
    let path = match text::split_once(url.as_str(), "://") {
        Some((_, rest)) => match text::split_once(rest.as_str(), "/") {
            Some((_, path)) => Some(path),
            None => None,
        },
        None => match text::split_once(url.as_str(), ":") {
            Some((_, path)) => Some(path),
            None => Some(url),
        },
    };
    match path {
        Some(path) => {
            let segments = text::split(path.as_str(), '/');
            assert(segments.deep_view().len() == segments.len());
            if segments.len() >= 2 {
                Ok(path)
            } else {
                Err(BootstrapError::InvalidOrigin(origin.to_owned()))
            }
        },
        None => Err(BootstrapError::InvalidOrigin(origin.to_owned())),
    }
}

/// Whether a text can name a host, an owner or a repository in an origin: it is not empty and has
/// no colon, slash or white space in it.
pub open spec fn is_label(s: Seq<char>) -> bool {
    &&& s.len() > 0
    &&& forall|i: int|
        0 <= i < s.len() ==> #[trigger] s[i] != ':' && s[i] != '/' && !text::is_white(s[i])
}

/// The ways in which an origin can end behind the name of its repository.
pub open spec fn is_ending(s: Seq<char>) -> bool {
    s == Seq::<char>::empty() || s == ".git"@ || s == ".git/"@
}

proof fn lemma_ending(base: Seq<char>, before: Seq<char>, repository: Seq<char>, ending: Seq<char>)
    requires
        before.len() > 0,
        !text::is_white(before[0]),
        before.last() == '/' || before.last() == ':',
        is_label(repository),
        !".git"@.is_suffix_of(repository),
        is_ending(ending),
        base == before + repository,
    ensures
        text::without_suffixes(
            text::without_suffixes(text::trimmed(base + ending), "/"@),
            ".git"@,
        ) == base,
{
    reveal_strlit("/");
    reveal_strlit(".git");
    reveal_strlit(".git/");
    let all = base + ending;
    assert(repository[repository.len() - 1] != '/');
    assert(base.last() == repository[repository.len() - 1]);
    assert(all[0] == before[0]);
    assert(!text::is_white(all.last())) by {
        if ending.len() == 0 {
            assert(all.last() == base.last());
        } else {
            assert(all.last() == ending.last());
        }
    }
    text::lemma_trimmed_already(all);
    assert(text::without_suffixes(base, ".git"@) == base) by {
        if base.len() >= 4 && base.skip(base.len() - 4) == ".git"@ {
            let tail = base.skip(base.len() - 4);
            if repository.len() >= 4 {
                assert(repository.subrange(repository.len() - 4, repository.len() as int) =~= tail);
            } else {
                assert(tail[3 - repository.len() as int] == before.last());
            }
        }
    }
    assert(text::without_suffixes(base, "/"@) == base) by {
        if base.skip(base.len() - 1) == "/"@ {
            assert(base.skip(base.len() - 1)[0] == base.last());
        }
    }
    let whole = base + ".git"@;
    assert(text::without_suffixes(whole, "/"@) == whole) by {
        assert(whole.skip(whole.len() - 1)[0] == 't');
    }
    assert(text::without_suffixes(whole, ".git"@) == base) by {
        assert(whole.skip(whole.len() - 4) =~= ".git"@);
        assert(whole.take(whole.len() - 4) =~= base);
    }
    if ending == ".git/"@ {
        assert(all.skip(all.len() - 1) =~= "/"@);
        assert(all.take(all.len() - 1) =~= whole);
        assert(text::without_suffixes(all, "/"@) == text::without_suffixes(whole, "/"@));
    } else if ending == ".git"@ {
        assert(all == whole);
    } else {
        assert(all =~= base);
    }
}

proof fn lemma_scp_path(host: Seq<char>, path: Seq<char>)
    requires
        is_label(host),
        path.len() > 0,
        path[0] != '/',
        text::lacks(path, ':'),
    ensures
        origin_path("git@"@ + host + ":"@ + path) == Some(path),
{
    reveal_strlit("git@");
    reveal_strlit(":");
    reveal_strlit("://");
    let left = "git@"@ + host;
    let url = left + ":"@ + path;
    assert forall|i: int| 0 <= i < left.len() implies #[trigger] left[i] != ':' by {
        if i >= 4 {
            assert(left[i] == host[i - 4]);
        }
    }
    let at = left.len() as int;
    assert forall|j: int| 0 <= j <= url.len() - 3 implies #[trigger] url.subrange(j, j + 3)
        != "://"@ by {
        let part = url.subrange(j, j + 3);
        assert(part[0] == url[j] && part[1] == url[j + 1]);
        if j < at {
            assert(url[j] == left[j]);
        } else if j == at {
            assert(url[j + 1] == path[0]);
        } else {
            assert(url[j] == path[j - at - 1]);
        }
    }
    text::lemma_not_split(url, "://"@);
    text::lemma_split_behind(left, ":"@, path);
}

proof fn lemma_url_path(scheme: Seq<char>, host: Seq<char>, path: Seq<char>)
    requires
        text::lacks(scheme, ':'),
        text::lacks(host, '/'),
    ensures
        origin_path(scheme + "://"@ + (host + "/"@ + path)) == Some(path),
{
    reveal_strlit("/");
    reveal_strlit("://");
    text::lemma_split_behind(scheme, "://"@, host + "/"@ + path);
    text::lemma_split_behind(host, "/"@, path);
}

proof fn lemma_origin_identity(
    host: Seq<char>,
    between: Seq<char>,
    repository: Seq<char>,
    ending: Seq<char>,
)
    requires
        is_label(host),
        is_label(repository),
        !".git"@.is_suffix_of(repository),
        is_ending(ending),
        text::lacks(between, ':'),
        between.len() > 0 ==> between[0] != '/' && between.last() == '/',
    ensures
        ({
            let path = between + repository;
            let known = text::pieces(path, '/').len() >= 2;
            forall|origin: Seq<char>|
                origin == "git@"@ + host + ":"@ + path + ending || origin == "https://"@ + host
                    + "/"@ + path + ending || origin == "ssh://git@"@ + host + "/"@ + path + ending
                    ==> #[trigger] identity_of(origin) == (if known {
                    Ok::<Seq<char>, BootstrapErrorView>(path)
                } else {
                    Err::<Seq<char>, BootstrapErrorView>(BootstrapErrorView::InvalidOrigin(origin))
                })
        }),
{
    reveal_strlit("git@");
    reveal_strlit("https://");
    reveal_strlit("ssh://git@");
    reveal_strlit("/");
    reveal_strlit(":");
    reveal_strlit("://");
    let path = between + repository;
    assert forall|i: int| 0 <= i < path.len() implies #[trigger] path[i] != ':' by {
        if i < between.len() {
            assert(path[i] == between[i]);
        } else {
            assert(path[i] == repository[i - between.len()]);
        }
    }
    assert(path[0] != '/') by {
        if between.len() == 0 {
            assert(path[0] == repository[0]);
        } else {
            assert(path[0] == between[0]);
        }
    }
    let scp = "git@"@ + host + ":"@ + path;
    let scp_before = "git@"@ + host + ":"@ + between;
    assert(scp =~= scp_before + repository);
    lemma_ending(scp, scp_before, repository, ending);
    lemma_scp_path(host, path);
    let https = "https://"@ + host + "/"@ + path;
    let https_before = "https://"@ + host + "/"@ + between;
    assert(https =~= https_before + repository);
    lemma_ending(https, https_before, repository, ending);
    assert(https =~= seq!['h', 't', 't', 'p', 's'] + "://"@ + (host + "/"@ + path));
    lemma_url_path(seq!['h', 't', 't', 'p', 's'], host, path);
    let ssh = "ssh://git@"@ + host + "/"@ + path;
    let ssh_before = "ssh://git@"@ + host + "/"@ + between;
    assert(ssh =~= ssh_before + repository);
    lemma_ending(ssh, ssh_before, repository, ending);
    let user = "git@"@ + host;
    assert forall|i: int| 0 <= i < user.len() implies #[trigger] user[i] != '/' by {
        if i >= 4 {
            assert(user[i] == host[i - 4]);
        }
    }
    assert(ssh =~= seq!['s', 's', 'h'] + "://"@ + (user + "/"@ + path));
    lemma_url_path(seq!['s', 's', 'h'], user, path);
}

/// An origin leads to its owner and repository, however it is written: by SSH in the short or in
/// the long form or by HTTPS, with nothing, `.git` or `.git/` behind the repository.
pub proof fn origins_lead_to_owner_and_repository(
    host: Seq<char>,
    owner: Seq<char>,
    repository: Seq<char>,
    ending: Seq<char>,
)
    requires
        is_label(host),
        is_label(owner),
        is_label(repository),
        !".git"@.is_suffix_of(repository),
        is_ending(ending),
    ensures
        identity_of("git@"@ + host + ":"@ + owner + "/"@ + repository + ending) == Ok::<
            Seq<char>,
            BootstrapErrorView,
        >(owner + "/"@ + repository),
        identity_of("https://"@ + host + "/"@ + owner + "/"@ + repository + ending) == Ok::<
            Seq<char>,
            BootstrapErrorView,
        >(owner + "/"@ + repository),
        identity_of("ssh://git@"@ + host + "/"@ + owner + "/"@ + repository + ending) == Ok::<
            Seq<char>,
            BootstrapErrorView,
        >(owner + "/"@ + repository),
{
    reveal_strlit("/");
    assert("/"@ =~= seq!['/']);
    let between = owner + "/"@;
    assert forall|i: int| 0 <= i < between.len() implies #[trigger] between[i] != ':' by {
        if i < owner.len() {
            assert(between[i] == owner[i]);
        }
    }
    assert(between[0] == owner[0]);
    lemma_origin_identity(host, between, repository, ending);
    let path = between + repository;
    text::lemma_pieces_divide(owner, repository, '/');
    text::lemma_one_piece(owner, '/');
    text::lemma_one_piece(repository, '/');
    assert(text::pieces(path, '/').len() == 2);
    assert("git@"@ + host + ":"@ + owner + "/"@ + repository + ending =~= "git@"@ + host + ":"@
        + path + ending);
    assert("https://"@ + host + "/"@ + owner + "/"@ + repository + ending =~= "https://"@ + host
        + "/"@ + path + ending);
    assert("ssh://git@"@ + host + "/"@ + owner + "/"@ + repository + ending =~= "ssh://git@"@ + host
        + "/"@ + path + ending);
}

/// An origin leads to its whole path, however deep: what stands between the host and the repository
/// is kept by the letter.
pub proof fn origins_keep_their_whole_path(
    host: Seq<char>,
    groups: Seq<char>,
    repository: Seq<char>,
    ending: Seq<char>,
)
    requires
        is_label(host),
        groups.len() > 0,
        groups[0] != '/',
        text::lacks(groups, ':'),
        is_label(repository),
        !".git"@.is_suffix_of(repository),
        is_ending(ending),
    ensures
        ({
            let path = groups + seq!['/'] + repository;
            forall|origin: Seq<char>|
                origin == "git@"@ + host + ":"@ + path + ending || origin == "https://"@ + host
                    + "/"@ + path + ending || origin == "ssh://git@"@ + host + "/"@ + path + ending
                    ==> #[trigger] identity_of(origin) == Ok::<Seq<char>, BootstrapErrorView>(path)
        }),
{
    let between = groups + seq!['/'];
    assert forall|i: int| 0 <= i < between.len() implies #[trigger] between[i] != ':' by {
        if i < groups.len() {
            assert(between[i] == groups[i]);
        }
    }
    assert(between[0] == groups[0]);
    lemma_origin_identity(host, between, repository, ending);
    text::lemma_pieces_divide(groups, repository, '/');
    text::lemma_one_piece(repository, '/');
    lemma_some_piece(groups);
}

proof fn lemma_some_piece(s: Seq<char>)
    ensures
        text::pieces(s, '/').len() >= 1,
    decreases s.len(),
{
    if s.len() > 0 {
        lemma_some_piece(s.drop_last());
    }
}

/// White space around an origin does not count, nor do the slashes at its end.
pub proof fn origins_are_taken_without_their_margin(
    before: Seq<char>,
    origin: Seq<char>,
    after: Seq<char>,
)
    requires
        text::is_blank(before),
        text::is_blank(after),
        origin.len() > 0,
        !text::is_white(origin[0]),
        !text::is_white(origin.last()),
    ensures
        identity_of(before + origin + after) is Ok <==> identity_of(origin) is Ok,
        identity_of(origin) is Ok ==> identity_of(before + origin + after) == identity_of(origin),
        identity_of(origin + seq!['/']) is Ok <==> identity_of(origin) is Ok,
        identity_of(origin) is Ok ==> identity_of(origin + seq!['/']) == identity_of(origin),
{
    laws::paths::lemma_trimmed_inside(before, origin, after);
    reveal_strlit("/");
    let slash = seq!['/'];
    let longer = origin + slash;
    assert(slash =~= "/"@);
    text::lemma_trimmed_already(origin);
    assert(longer[0] == origin[0]);
    assert(longer.last() == '/');
    text::lemma_trimmed_already(longer);
    assert(longer.skip(longer.len() - 1) =~= "/"@);
    assert(longer.take(longer.len() - 1) =~= origin);
}

/// An origin that names no host is a path itself: it counts where a repository stands in a place of
/// its own.
pub proof fn origins_without_a_host_are_paths(place: Seq<char>, repository: Seq<char>)
    requires
        place.len() > 0,
        !text::is_white(place[0]),
        text::lacks(place, ':'),
        is_label(repository),
        !".git"@.is_suffix_of(repository),
    ensures
        identity_of(place + seq!['/'] + repository) == Ok::<Seq<char>, BootstrapErrorView>(
            place + seq!['/'] + repository,
        ),
        identity_of(repository) == Err::<Seq<char>, BootstrapErrorView>(
            BootstrapErrorView::InvalidOrigin(repository),
        ),
{
    reveal_strlit("/");
    reveal_strlit(":");
    reveal_strlit("://");
    reveal_strlit(".git");
    let before = place + seq!['/'];
    let base = before + repository;
    let none = Seq::<char>::empty();
    lemma_ending(base, before, repository, none);
    assert(base + none =~= base);
    assert forall|i: int| 0 <= i < base.len() implies #[trigger] base[i] != ':' by {
        if i < place.len() {
            assert(base[i] == place[i]);
        } else if i > place.len() {
            assert(base[i] == repository[i - place.len() - 1]);
        }
    }
    lemma_no_host(base);
    text::lemma_pieces_divide(place, repository, '/');
    text::lemma_one_piece(repository, '/');
    lemma_some_piece(place);
    assert(repository[repository.len() - 1] != '/' && !text::is_white(
        repository[repository.len() - 1],
    ));
    assert(!text::is_white(repository[0]));
    text::lemma_trimmed_already(repository);
    assert(text::without_suffixes(repository, "/"@) == repository) by {
        assert(repository.skip(repository.len() - 1)[0] == repository[repository.len() - 1]);
    }
    assert(text::without_suffixes(repository, ".git"@) == repository) by {
        if repository.len() >= 4 {
            assert(repository.skip(repository.len() - 4) =~= repository.subrange(
                repository.len() - 4,
                repository.len() as int,
            ));
        }
    }
    lemma_no_host(repository);
}

proof fn lemma_no_host(url: Seq<char>)
    requires
        text::lacks(url, ':'),
    ensures
        origin_path(url) == Some(url),
{
    reveal_strlit(":");
    reveal_strlit("://");
    assert forall|j: int| 0 <= j <= url.len() - 3 implies #[trigger] url.subrange(j, j + 3)
        != "://"@ by {
        assert(url.subrange(j, j + 3)[0] == url[j]);
    }
    assert forall|j: int| 0 <= j <= url.len() - 1 implies #[trigger] url.subrange(j, j + 1)
        != ":"@ by {
        assert(url.subrange(j, j + 1)[0] == url[j]);
    }
    text::lemma_not_split(url, "://"@);
    text::lemma_not_split(url, ":"@);
}

/// An origin that names no owner before its repository is refused, however it is written.
pub proof fn origins_without_an_owner_are_refused(
    host: Seq<char>,
    repository: Seq<char>,
    ending: Seq<char>,
)
    requires
        is_label(host),
        is_label(repository),
        !".git"@.is_suffix_of(repository),
        is_ending(ending),
    ensures
        forall|origin: Seq<char>|
            origin == "git@"@ + host + ":"@ + repository + ending || origin == "https://"@ + host
                + "/"@ + repository + ending || origin == "ssh://git@"@ + host + "/"@ + repository
                + ending ==> #[trigger] identity_of(origin) == Err::<
                Seq<char>,
                BootstrapErrorView,
            >(BootstrapErrorView::InvalidOrigin(origin)),
{
    let none = Seq::<char>::empty();
    lemma_origin_identity(host, none, repository, ending);
    assert(none + repository =~= repository);
    text::lemma_one_piece(repository, '/');
}

/// The repository that the runs of Git reveal: its root, its current commit and its origin, or the
/// name of its directory where it has none.
pub open spec fn discovered(
    toplevel: GitOutputView,
    head: GitOutputView,
    origin: GitOutputView,
    name: Option<Seq<char>>,
) -> Result<RepositoryContextView, BootstrapErrorView> {
    match git_must_say(seq!["rev-parse"@, "--show-toplevel"@], toplevel) {
        Err(error) => Err(error),
        Ok(root) => match head_said(head) {
            Err(error) => Err(error),
            Ok(revision) => {
                let identity = if origin.success {
                    identity_of(printed(origin.stdout))
                } else {
                    local_identity(name)
                };
                match identity {
                    Err(error) => Err(error),
                    Ok(identity) => Ok(RepositoryContextView { root, identity, revision }),
                }
            },
        },
    }
}

/// The arguments that ask Git for the root of a repository.
pub fn toplevel_arguments() -> (r: Vec<String>)
    ensures
        r.deep_view() == seq!["rev-parse"@, "--show-toplevel"@],
{
    let r = vec!["rev-parse".to_owned(), "--show-toplevel".to_owned()];
    assert(r.deep_view() =~= seq!["rev-parse"@, "--show-toplevel"@]);
    r
}

/// The arguments that ask Git for the current commit of a repository.
pub fn head_arguments() -> (r: Vec<String>)
    ensures
        r.deep_view() == seq!["rev-parse"@, "--verify"@, "--quiet"@, "HEAD"@],
{
    let r = vec![
        "rev-parse".to_owned(),
        "--verify".to_owned(),
        "--quiet".to_owned(),
        "HEAD".to_owned(),
    ];
    assert(r.deep_view() =~= seq!["rev-parse"@, "--verify"@, "--quiet"@, "HEAD"@]);
    r
}

/// The arguments that ask Git for the origin of a repository.
pub fn origin_arguments() -> (r: Vec<String>)
    ensures
        asks_origin(r.deep_view()),
{
    let r = vec!["remote".to_owned(), "get-url".to_owned(), "origin".to_owned()];
    assert(r.deep_view() =~= seq!["remote"@, "get-url"@, "origin"@]);
    r
}

/// Finds the enclosing repository, from what Git said of its root, its current commit and its
/// origin, and from the name of its directory.
pub fn repository_named(
    toplevel: &GitOutput,
    head: &GitOutput,
    origin: &GitOutput,
    name: Option<String>,
) -> (r: Result<RepositoryContext, BootstrapError>)
    ensures
        outcome::seen(r) == discovered(toplevel@, head@, origin@, name.deep_view()),
{
    let root = match git(&toplevel_arguments(), toplevel) {
        Ok(root) => root,
        Err(error) => return Err(error),
    };
    let revision = match git_head(head) {
        Ok(revision) => revision,
        Err(error) => return Err(error),
    };
    let identity = match git_optional(&origin_arguments(), origin) {
        Ok(Some(said)) => repository_identity(said.as_str()),
        Ok(None) => identity_of_directory(name),
        Err(error) => return Err(error),
    };
    match identity {
        Ok(identity) => Ok(RepositoryContext { root, identity, revision }),
        Err(error) => Err(error),
    }
}

/// Finds the enclosing repository, from what Git said of its root, its current commit and its
/// origin. A repository without a commit is valid and has no revision.
pub fn discover_repository(
    toplevel: &GitOutput,
    head: &GitOutput,
    origin: &GitOutput,
    style: PathStyle,
) -> (r: Result<RepositoryContext, BootstrapError>)
    ensures
        !style.has_share(printed(toplevel@.stdout)) ==> outcome::seen(r) == discovered(
            toplevel@,
            head@,
            origin@,
            file_name(printed(toplevel@.stdout), style),
        ),
        exists|name: Option<Seq<char>>|
            outcome::seen(r) == #[trigger] discovered(toplevel@, head@, origin@, name),
{
    let name = if toplevel.success {
        directory_name(printed_text(&toplevel.stdout).as_str(), style)
    } else {
        None
    };
    let ghost named = name.deep_view();
    let r = repository_named(toplevel, head, origin, name);
    assert(outcome::seen(r) == discovered(toplevel@, head@, origin@, named));
    r
}

/// The workspace of a Linear issue in a repository. Its objective is the description of the issue,
/// or the title where that is blank.
pub open spec fn issue_workspace(
    identifier: Seq<char>,
    title: Seq<char>,
    url: Seq<char>,
    description: Option<Seq<char>>,
    metadata: Option<LinearMetadataView>,
    repository: RepositoryContextView,
) -> WorkspaceView {
    WorkspaceView {
        scope: "linear:"@ + identifier,
        title,
        objective: if description is Some && !text::is_blank(description->0) {
            description->0
        } else {
            title
        },
        linear_issue: LinearIssueView { identifier, url: Some(url), metadata },
        repository: Some(
            RepositoryRefView {
                repository: repository.identity,
                revision: repository.revision,
            },
        ),
    }
}

/// The workspace of a Linear issue in a repository.
pub fn workspace_from_issue(
    identifier: String,
    title: String,
    url: String,
    description: Option<String>,
    metadata: Option<LinearMetadata>,
    repository: &RepositoryContext,
) -> (r: Workspace)
    ensures
        r@ == issue_workspace(
            identifier@,
            title@,
            url@,
            description.deep_view(),
            metadata.deep_view(),
            repository@,
        ),
{
    let objective = match description {
        Some(description) => if text::blank(description.as_str()) {
            title.clone()
        } else {
            description
        },
        None => title.clone(),
    };
    Workspace {
        scope: text::concat("linear:", identifier.as_str()),
        title,
        objective,
        linear_issue: LinearIssue { identifier, url: Some(url), metadata },
        repository: Some(
            RepositoryRef {
                repository: repository.identity.clone(),
                revision: repository.revision.clone(),
            },
        ),
    }
}

/// What the file of a selected scope holds.
pub open spec fn selection_file(scope: Seq<char>) -> Seq<char> {
    scope + "\n"@
}

/// What to write to select a scope for a checkout.
pub fn write_selection(scope: &str) -> (r: String)
    ensures
        r@ == selection_file(scope@),
{
    text::concat(scope, "\n")
}

/// The scope that a checkout has selected, from what its file holds.
pub open spec fn selected(contents: Option<Seq<char>>) -> Result<Seq<char>, BootstrapErrorView> {
    match contents {
        None => Err(BootstrapErrorView::MissingSelection),
        Some(contents) => if text::is_blank(contents) {
            Err(BootstrapErrorView::MissingSelection)
        } else {
            Ok(text::trimmed(contents))
        },
    }
}

/// Reads the scope that a checkout has selected, from what its file holds; none where there is no
/// file.
pub fn read_selection(contents: Option<String>) -> (r: Result<String, BootstrapError>)
    ensures
        outcome::seen(r) == selected(contents.deep_view()),
{
    match contents {
        None => Err(BootstrapError::MissingSelection),
        Some(contents) => if text::blank(contents.as_str()) {
            Err(BootstrapError::MissingSelection)
        } else {
            Ok(text::trim(contents.as_str()))
        },
    }
}

/// A scope that is not blank, without white space around it, is read back as it was selected.
pub proof fn selection_reads_back(scope: Seq<char>)
    requires
        !text::is_blank(scope),
        text::trimmed(scope) == scope,
    ensures
        selected(Some(selection_file(scope))) == Ok::<Seq<char>, BootstrapErrorView>(scope),
{
    let file = selection_file(scope);
    reveal_strlit("\n");
    assert(file == scope.push('\n'));
    text::lemma_trimmed_empty(scope);
    text::lemma_trim_front(scope);
    text::lemma_trim_back(text::trim_front(scope));
    assert(text::trim_front(scope) == scope);
    assert(!text::is_white(scope[0]));
    assert(file[0] == scope[0]);
    assert(text::trim_front(file) == file);
    assert(text::is_white('\n'));
    assert(file.last() == '\n');
    assert(file.drop_last() == scope);
    assert(text::trimmed(file) == scope);
    text::lemma_trimmed_empty(file);
}

/// Whether a record is of a daemon from before daemons identified themselves.
pub open spec fn is_legacy(record: DaemonRecordView, endpoint: Seq<char>) -> bool {
    &&& record.endpoint == endpoint
    &&& record.owner_token is None
    &&& record.repository is None
    &&& record.protocol_version is None
    &&& record.build_id is None
}

/// Whether a record is of the daemon that identifies itself so at an endpoint.
pub open spec fn is_of(
    record: DaemonRecordView,
    identity: DaemonIdentityView,
    endpoint: Seq<char>,
) -> bool {
    &&& record.endpoint == endpoint
    &&& record.owner_token == Some(identity.owner_token)
    &&& record.repository == Some(identity.repository)
}

/// How a checkout stands to the daemon at its endpoint. What it has no record of is foreign; what
/// it owns is compatible if it has the same protocol and build.
pub open spec fn disposition_of(
    endpoint: Seq<char>,
    repository: Seq<char>,
    build_id: Seq<char>,
    record: Option<DaemonRecordView>,
    probe: DaemonProbeView,
) -> DaemonDisposition {
    let legacy = record is Some && is_legacy(record->0, endpoint);
    match probe {
        DaemonProbeView::Absent => if record is Some {
            DaemonDisposition::OwnedStale
        } else {
            DaemonDisposition::Absent
        },
        DaemonProbeView::ForeignResponse => if legacy {
            DaemonDisposition::OwnedStale
        } else {
            DaemonDisposition::Foreign
        },
        DaemonProbeView::Identified(identity) => if legacy {
            DaemonDisposition::OwnedStale
        } else if record is None || !is_of(record->0, identity, endpoint) || identity.repository
            != repository {
            DaemonDisposition::Foreign
        } else if identity.protocol_version == DAEMON_PROTOCOL_VERSION && identity.build_id
            == build_id {
            DaemonDisposition::OwnedCompatible
        } else {
            DaemonDisposition::OwnedStale
        },
    }
}

/// How a checkout stands to the daemon at its endpoint.
pub fn daemon_disposition(
    endpoint: &str,
    repository: &str,
    build_id: &str,
    record: Option<&DaemonRecord>,
    probe: &DaemonProbe,
) -> (r: DaemonDisposition)
    ensures
        r == disposition_of(endpoint@, repository@, build_id@, record.deep_view(), probe@),
{
    let legacy: bool = match record {
        Some(record) => text::same(record.endpoint.as_str(), endpoint)
            && record.owner_token.is_none() && record.repository.is_none()
            && record.protocol_version.is_none() && record.build_id.is_none(),
        None => false,
    };
    match probe {
        DaemonProbe::Absent => if record.is_some() {
            DaemonDisposition::OwnedStale
        } else {
            DaemonDisposition::Absent
        },
        DaemonProbe::ForeignResponse => if legacy {
            DaemonDisposition::OwnedStale
        } else {
            DaemonDisposition::Foreign
        },
        DaemonProbe::Identified(identity) => {
            if legacy {
                return DaemonDisposition::OwnedStale;
            }
            let owned: bool = match record {
                Some(record) => text::same(record.endpoint.as_str(), endpoint) && holds(
                    &record.owner_token,
                    &identity.owner_token,
                ) && holds(&record.repository, &identity.repository),
                None => false,
            };
            if !owned || !text::same(identity.repository.as_str(), repository) {
                return DaemonDisposition::Foreign;
            }
            if identity.protocol_version == DAEMON_PROTOCOL_VERSION && text::same(
                identity.build_id.as_str(),
                build_id,
            ) {
                DaemonDisposition::OwnedCompatible
            } else {
                DaemonDisposition::OwnedStale
            }
        },
    }
}

/// Whether an optional text is a given one.
fn holds(value: &Option<String>, expected: &String) -> (r: bool)
    ensures
        r == (value.deep_view() == Some(expected@)),
{
    match value {
        Some(value) => value.equals(expected),
        None => false,
    }
}

/// A daemon is reused only where it belongs to the checkout, serves the repository and runs the
/// same protocol and build; a daemon that the checkout has no record of is never its own.
pub proof fn only_own_daemons_are_reused(
    endpoint: Seq<char>,
    repository: Seq<char>,
    build_id: Seq<char>,
    record: Option<DaemonRecordView>,
    probe: DaemonProbeView,
)
    ensures
        disposition_of(endpoint, repository, build_id, record, probe) is OwnedCompatible <==> {
            &&& probe is Identified
            &&& record is Some
            &&& is_of(record->0, probe->Identified_0, endpoint)
            &&& probe->Identified_0.repository == repository
            &&& probe->Identified_0.protocol_version == DAEMON_PROTOCOL_VERSION
            &&& probe->Identified_0.build_id == build_id
        },
        record is None ==> disposition_of(endpoint, repository, build_id, record, probe) is Absent
            || disposition_of(endpoint, repository, build_id, record, probe) is Foreign,
        disposition_of(endpoint, repository, build_id, record, probe) is Absent <==> record is None
            && probe is Absent,
{
}

/// Feeds bytes to a hasher with `Hash::hash`. What reaches the hasher differs from platform to
/// platform, so nothing is stated of it.
#[verifier::external_body]
fn hash_bytes(bytes: &Vec<u8>, hasher: &mut DefaultHasher) {
    bytes.hash(hasher)
}

/// The identity of a build, from the hash of its image: 16 hexadecimal digits.
pub fn build_id(hash: u64) -> (r: String)
    ensures
        r@ == text::hex_text(hash as nat, 16),
{
    text::hex(hash, 16)
}

/// The identity of the build whose image is given, from what the hasher makes of what it was fed.
pub fn current_build_id(image: &Vec<u8>) -> (r: String)
    ensures
        exists|fed: Seq<Seq<u8>>|
            r@ == text::hex_text(#[trigger] DefaultHasher::spec_finish(fed) as nat, 16),
{
    let mut hasher = DefaultHasher::new();
    hash_bytes(image, &mut hasher);
    build_id(hasher.finish())
}

} // verus!
