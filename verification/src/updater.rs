//! The rules of the self-update: which release is the latest, whether it is installed now, and
//! what a downloaded installer has to look like.
use crate::lan;
use crate::reading;
use crate::search;
use crate::text::{self, NumberError};
use vstd::prelude::*;

verus! {

pub const OWNER: &'static str = "tsuyoshi-otake";

pub const REPO: &'static str = "screen-mirror";

pub const INSTALLER_ASSET: &'static str = "ScreenMirror.msi";

pub const CHECK_INTERVAL_SECS: u64 = 3600;

pub const FIRST_CHECK_DELAY_SECS: u64 = 30;

pub const RELEASE_CHECK_TIMEOUT_SECS: u64 = 30;

pub const INSTALLER_DOWNLOAD_TIMEOUT_SECS: u64 = 900;

pub const MAX_INSTALLER_BYTES: u64 = 536_870_912;

/// What an update would interrupt, since installing one restarts the application.
#[derive(Clone, Copy, Debug, PartialEq, Eq, Structural)]
pub struct UpdateActivity {
    pub session: bool,
    pub stream: bool,
}

/// Takes note of whether the tray runs a session of its own.
pub fn set_session_active(activity: &mut UpdateActivity, active: bool)
    ensures
        final(activity).session == active,
        final(activity).stream == old(activity).stream,
{
    activity.session = active;
}

/// Takes note of whether a sender streams. Sender mode alone is not a session: a sender with no
/// receiver in range waits indefinitely, so the supervisor reports whether it currently has live
/// pipelines instead.
pub fn set_stream_active(activity: &mut UpdateActivity, active: bool)
    ensures
        final(activity).stream == active,
        final(activity).session == old(activity).session,
{
    activity.stream = active;
}

impl UpdateActivity {
    pub open spec fn busy(self) -> bool {
        self.session || self.stream
    }

    pub fn session_active(&self) -> (r: bool)
        ensures
            r == self.busy(),
    {
        self.session || self.stream
    }

    /// How the periodic check runs. Whatever goes on, it only notifies: installing is left to a
    /// check that the user asks for.
    pub fn background_check(&self) -> (r: UpdateCheckKind)
        ensures
            r == UpdateCheckKind::Background,
    {
        UpdateCheckKind::Background
    }
}

#[derive(Clone, Copy, Debug, PartialEq, Eq, Structural)]
pub enum UpdateCheckKind {
    /// Only tells that there is an update.
    Background,
    /// Installs it.
    Manual,
}

#[derive(Clone, Copy, Debug, PartialEq, Eq, Structural)]
pub struct Version {
    pub major: u64,
    pub minor: u64,
    pub patch: u64,
}

impl Version {
    pub open spec fn at_most(self, other: Version) -> bool {
        if self.major != other.major {
            self.major < other.major
        } else if self.minor != other.minor {
            self.minor < other.minor
        } else {
            self.patch <= other.patch
        }
    }

    /// Whether this version is no newer than the other one.
    pub fn no_newer_than(&self, other: &Version) -> (r: bool)
        ensures
            r == self.at_most(*other),
    {
        if self.major != other.major {
            self.major < other.major
        } else if self.minor != other.minor {
            self.minor < other.minor
        } else {
            self.patch <= other.patch
        }
    }
}

/// Versions are totally ordered.
pub proof fn law_versions_are_totally_ordered(a: Version, b: Version, c: Version)
    ensures
        a.at_most(a),
        a.at_most(b) || b.at_most(a),
        a.at_most(b) && b.at_most(a) ==> a == b,
        a.at_most(b) && b.at_most(c) ==> a.at_most(c),
{
}

#[derive(Clone, Copy, Debug, PartialEq, Eq, Structural)]
pub enum VersionError {
    MissingMinor,
    MissingPatch,
    /// One of the first three parts is no number of 64 bits.
    Number(NumberError),
}

/// A text without the letters `v` that it starts with.
pub open spec fn without_v(s: Seq<char>) -> Seq<char>
    decreases s.len(),
{
    if s.len() > 0 && s[0] == 'v' {
        without_v(s.skip(1))
    } else {
        s
    }
}

fn strip_v(chars: &[char]) -> (r: Vec<char>)
    ensures
        r@ == without_v(chars@),
{
    let mut i: usize = 0;
    assert(chars@.skip(0) == chars@);
    while i < chars.len() && chars[i] == 'v'
        invariant
            i <= chars.len(),
            without_v(chars@.skip(i as int)) == without_v(chars@),
        decreases chars.len() - i,
    {
        assert(chars@.skip(i as int).skip(1) == chars@.skip(i + 1));
        i += 1;
    }
    assert(chars@.skip(i as int) == chars@.subrange(i as int, chars@.len() as int));
    text::copy_range(chars, i, chars.len())
}

/// The number in one part of a version.
pub open spec fn part_number(part: Seq<char>) -> Option<nat> {
    text::parse_unsigned(part, u64::MAX as nat)
}

/// What is wrong with a part of a version that is no number.
pub open spec fn part_problem(part: Seq<char>) -> VersionError {
    VersionError::Number(text::number_problem(part, u64::MAX as nat))
}

/// The version that a text names: three numbers with dots between them, whatever stands behind a
/// third dot; spaces around it and letters `v` before it do not count.
pub open spec fn version_of(s: Seq<char>) -> Result<Version, VersionError> {
    let parts = text::split(without_v(text::trim(s)), '.');
    match part_number(parts[0]) {
        None => Err(part_problem(parts[0])),
        Some(major) => if parts.len() < 2 {
            Err(VersionError::MissingMinor)
        } else {
            match part_number(parts[1]) {
                None => Err(part_problem(parts[1])),
                Some(minor) => if parts.len() < 3 {
                    Err(VersionError::MissingPatch)
                } else {
                    match part_number(parts[2]) {
                        None => Err(part_problem(parts[2])),
                        Some(patch) => Ok(
                            Version {
                                major: major as u64,
                                minor: minor as u64,
                                patch: patch as u64,
                            },
                        ),
                    }
                },
            }
        },
    }
}

pub fn parse_version(version: &str) -> (r: Result<Version, VersionError>)
    ensures
        r == version_of(version@),
{
    let trimmed = text::trimmed(version);
    let stripped = strip_v(&trimmed);
    let parts = text::split_chars(&stripped, '.');
    let ghost rows = text::rows(parts@);
    assert(rows == text::split(without_v(text::trim(version@)), '.'));
    assert(rows[0] == parts@[0]@);
    let major: u64 = match text::read_number(&parts[0], u64::MAX) {
        Ok(n) => n,
        Err(error) => return Err(VersionError::Number(error)),
    };
    if parts.len() < 2 {
        return Err(VersionError::MissingMinor);
    }
    assert(rows[1] == parts@[1]@);
    let minor: u64 = match text::read_number(&parts[1], u64::MAX) {
        Ok(n) => n,
        Err(error) => return Err(VersionError::Number(error)),
    };
    if parts.len() < 3 {
        return Err(VersionError::MissingPatch);
    }
    assert(rows[2] == parts@[2]@);
    let patch: u64 = match text::read_number(&parts[2], u64::MAX) {
        Ok(n) => n,
        Err(error) => return Err(VersionError::Number(error)),
    };
    Ok(Version { major, minor, patch })
}

/// The parts of an address that say where the latest release was found.
#[derive(Debug, PartialEq, Eq)]
pub struct ReleaseLocation {
    pub scheme: Option<String>,
    pub host: Option<String>,
    pub path: String,
}

#[derive(Debug, PartialEq, Eq)]
pub struct GithubRelease {
    pub tag_name: String,
    pub assets: Vec<GithubAsset>,
}

#[derive(Debug, PartialEq, Eq)]
pub struct GithubAsset {
    pub name: String,
    pub browser_download_url: String,
}

#[derive(Debug, PartialEq, Eq)]
pub enum UpdateError {
    OutsideGithub,
    NoValidTag,
    LatestNotSemantic(VersionError),
    TagNotSemantic(String, VersionError),
    CurrentNotSemantic(VersionError),
    NoMsiAsset(String),
}

impl VersionError {
    pub open spec fn text(self) -> Seq<char> {
        match self {
            VersionError::MissingMinor => "missing minor version"@,
            VersionError::MissingPatch => "missing patch version"@,
            VersionError::Number(error) => error.text(),
        }
    }

    pub fn message(self) -> (r: &'static str)
        ensures
            r@ == self.text(),
    {
        match self {
            VersionError::MissingMinor => "missing minor version",
            VersionError::MissingPatch => "missing patch version",
            VersionError::Number(error) => error.message(),
        }
    }
}

impl UpdateError {
    pub open spec fn text(self) -> Seq<char> {
        match self {
            UpdateError::OutsideGithub => "latest release redirected outside GitHub"@,
            UpdateError::NoValidTag => "latest release redirect has no valid tag"@,
            UpdateError::LatestNotSemantic(error) => "latest GitHub release tag is not semantic: "@
                + error.text(),
            UpdateError::TagNotSemantic(tag, error) => "release tag is not a semantic version: "@
                + tag@ + ": "@ + error.text(),
            UpdateError::CurrentNotSemantic(error) => error.text(),
            UpdateError::NoMsiAsset(tag) => "release "@ + tag@ + " has no MSI asset"@,
        }
    }

    pub fn message(&self) -> (r: String)
        ensures
            r@ == self.text(),
    {
        match self {
            UpdateError::OutsideGithub => "latest release redirected outside GitHub".to_owned(),
            UpdateError::NoValidTag => "latest release redirect has no valid tag".to_owned(),
            UpdateError::LatestNotSemantic(error) => {
                let mut out = "latest GitHub release tag is not semantic: ".to_owned();
                out.push_str(error.message());
                out
            },
            UpdateError::TagNotSemantic(tag, error) => {
                let mut out = "release tag is not a semantic version: ".to_owned();
                out.push_str(tag);
                out.push_str(": ");
                out.push_str(error.message());
                out
            },
            UpdateError::CurrentNotSemantic(error) => error.message().to_owned(),
            UpdateError::NoMsiAsset(tag) => {
                let mut out = "release ".to_owned();
                out.push_str(tag);
                out.push_str(" has no MSI asset");
                out
            },
        }
    }
}

fn is_text(value: &Option<String>, expected: &str) -> (r: bool)
    ensures
        r == (value is Some && value->0@ == expected@),
{
    match value {
        Some(found) => text::str_equal(found, expected),
        None => false,
    }
}

/// What the path of every release of this project starts with.
pub open spec fn tag_prefix() -> Seq<char> {
    "/"@ + OWNER@ + "/"@ + REPO@ + "/releases/tag/"@
}

impl ReleaseLocation {
    pub open spec fn on_github(self) -> bool {
        &&& self.scheme is Some && self.scheme->0@ == "https"@
        &&& self.host is Some && self.host->0@ == "github.com"@
    }

    /// The tag in the path, where the path is that of a release of this project.
    pub open spec fn tag(self) -> Option<Seq<char>> {
        let tag = self.path@.skip(tag_prefix().len() as int);
        if text::starts_with(self.path@, tag_prefix()) && tag.len() > 0 && !tag.contains('/') {
            Some(tag)
        } else {
            None
        }
    }
}

/// The tag of the latest release, by the address that the request for it was led to.
pub fn parse_latest_release_tag(location: &ReleaseLocation) -> (r: Result<String, UpdateError>)
    ensures
        match r {
            Ok(tag) => location.on_github() && location.tag() == Some(tag@) && version_of(
                tag@,
            ) is Ok,
            Err(UpdateError::OutsideGithub) => !location.on_github(),
            Err(UpdateError::NoValidTag) => location.on_github() && location.tag() is None,
            Err(UpdateError::LatestNotSemantic(error)) => location.on_github()
                && location.tag() is Some && version_of(location.tag()->0) == Err::<
                Version,
                VersionError,
            >(error),
            Err(_) => false,
        },
{
    if !is_text(&location.scheme, "https") || !is_text(&location.host, "github.com") {
        return Err(UpdateError::OutsideGithub);
    }
    let mut prefix = "/".to_owned();
    prefix.push_str(OWNER);
    prefix.push_str("/");
    prefix.push_str(REPO);
    prefix.push_str("/releases/tag/");
    assert(prefix@ == tag_prefix());
    let start = text::chars_of(&prefix);
    let path = text::chars_of(&location.path);
    if !text::has_prefix(&path, &prefix) {
        return Err(UpdateError::NoValidTag);
    }
    let tag = text::copy_range(&path, start.len(), path.len());
    assert(tag@ == location.path@.skip(tag_prefix().len() as int));
    if tag.len() == 0 {
        return Err(UpdateError::NoValidTag);
    }
    let mut i: usize = 0;
    while i < tag.len()
        invariant
            i <= tag.len(),
            location.on_github(),
            tag@ == location.path@.skip(tag_prefix().len() as int),
            forall|k: int| 0 <= k < i ==> tag@[k] != '/',
        decreases tag.len() - i,
    {
        if tag[i] == '/' {
            assert(tag@.contains('/'));
            return Err(UpdateError::NoValidTag);
        }
        i += 1;
    }
    assert(!tag@.contains('/'));
    let name = text::string_of(&tag);
    match parse_version(&name) {
        Ok(_) => Ok(name),
        Err(error) => Err(UpdateError::LatestNotSemantic(error)),
    }
}

/// The address at which the installer of a release lies.
pub open spec fn installer_url(tag: Seq<char>) -> Seq<char> {
    "https://github.com/"@ + OWNER@ + "/"@ + REPO@ + "/releases/download/"@ + tag + "/"@
        + INSTALLER_ASSET@
}

/// The release that is asked for.
pub fn latest_release_url() -> (r: String)
    ensures
        r@ == "https://github.com/"@ + OWNER@ + "/"@ + REPO@ + "/releases/latest"@,
{
    let mut out = "https://github.com/".to_owned();
    out.push_str(OWNER);
    out.push_str("/");
    out.push_str(REPO);
    out.push_str("/releases/latest");
    out
}

impl GithubRelease {
    /// Whether this is the release of a tag, with its installer as the one asset.
    pub open spec fn is_release_of(self, tag: Seq<char>) -> bool {
        &&& self.tag_name@ == tag
        &&& self.assets@.len() == 1
        &&& self.assets@[0].name@ == INSTALLER_ASSET@
        &&& self.assets@[0].browser_download_url@ == installer_url(tag)
    }
}

/// The latest release, by the address that the request for it was led to.
pub fn latest_release(location: &ReleaseLocation) -> (r: Result<GithubRelease, UpdateError>)
    ensures
        match r {
            Ok(release) => location.on_github() && location.tag() is Some && version_of(
                location.tag()->0,
            ) is Ok && release.is_release_of(location.tag()->0),
            Err(UpdateError::OutsideGithub) => !location.on_github(),
            Err(UpdateError::NoValidTag) => location.on_github() && location.tag() is None,
            Err(UpdateError::LatestNotSemantic(error)) => location.on_github()
                && location.tag() is Some && version_of(location.tag()->0) == Err::<
                Version,
                VersionError,
            >(error),
            Err(_) => false,
        },
{
    let tag_name = parse_latest_release_tag(location)?;
    let mut url = "https://github.com/".to_owned();
    url.push_str(OWNER);
    url.push_str("/");
    url.push_str(REPO);
    url.push_str("/releases/download/");
    url.push_str(&tag_name);
    url.push_str("/");
    url.push_str(INSTALLER_ASSET);
    assert(url@ == installer_url(tag_name@));
    let asset = GithubAsset {
        name: INSTALLER_ASSET.to_owned(),
        browser_download_url: url,
    };
    Ok(GithubRelease { tag_name, assets: vec![asset] })
}

pub open spec fn is_named_installer(asset: GithubAsset) -> bool {
    text::same_ignoring_case(asset.name@, INSTALLER_ASSET@)
}

pub open spec fn is_any_installer(asset: GithubAsset) -> bool {
    text::ends_with(asset.name@, ".msi"@)
}

impl GithubRelease {
    /// The installer of a release: the one with the agreed name, else the first one there is.
    pub open spec fn installer(self) -> Option<GithubAsset> {
        search::or(
            search::first(self.assets@, |asset: GithubAsset| is_named_installer(asset)),
            search::first(self.assets@, |asset: GithubAsset| is_any_installer(asset)),
        )
    }

    fn find_installer(&self) -> (r: Option<&GithubAsset>)
        ensures
            match r {
                Some(asset) => self.installer() == Some(*asset),
                None => self.installer() is None,
            },
    {
        let ghost named = |asset: GithubAsset| is_named_installer(asset);
        proof {
            search::lemma_first_done(self.assets@, named);
        }
        let mut i: usize = 0;
        while i < self.assets.len()
            invariant
                i <= self.assets@.len(),
                named == (|asset: GithubAsset| is_named_installer(asset)),
                search::first(self.assets@.take(i as int), named) is None,
            decreases self.assets.len() - i,
        {
            let asset = &self.assets[i];
            proof {
                search::lemma_first_step(self.assets@, named, i as int);
            }
            if text::equal_ignoring_case(&asset.name, INSTALLER_ASSET) {
                return Some(asset);
            }
            i += 1;
        }
        proof {
            search::lemma_first_done(self.assets@, named);
        }
        let ghost any = |asset: GithubAsset| is_any_installer(asset);
        proof {
            search::lemma_first_done(self.assets@, any);
        }
        i = 0;
        while i < self.assets.len()
            invariant
                i <= self.assets@.len(),
                named == (|asset: GithubAsset| is_named_installer(asset)),
                search::first(self.assets@, named) is None,
                any == (|asset: GithubAsset| is_any_installer(asset)),
                search::first(self.assets@.take(i as int), any) is None,
            decreases self.assets.len() - i,
        {
            let asset = &self.assets[i];
            let name = text::chars_of(&asset.name);
            proof {
                search::lemma_first_step(self.assets@, any, i as int);
            }
            if text::has_suffix(&name, ".msi") {
                return Some(asset);
            }
            i += 1;
        }
        proof {
            search::lemma_first_done(self.assets@, any);
        }
        None
    }
}

/// What a check comes to.
#[derive(Debug, PartialEq, Eq)]
pub enum UpdateDecision {
    UpToDate { current: String, latest: String },
    /// There is an update, which is left for later.
    Available { latest: String },
    /// The update is downloaded from here and installed.
    Install { latest: String, url: String },
}

pub enum DecisionModel {
    UpToDate(Seq<char>, Seq<char>),
    Available(Seq<char>),
    Install(Seq<char>, Seq<char>),
    TagNotSemantic(Seq<char>, VersionError),
    CurrentNotSemantic(VersionError),
    NoMsiAsset(Seq<char>),
}

pub open spec fn decision(
    kind: UpdateCheckKind,
    current: Seq<char>,
    release: GithubRelease,
) -> DecisionModel {
    let tag = release.tag_name@;
    match version_of(tag) {
        Err(error) => DecisionModel::TagNotSemantic(tag, error),
        Ok(latest) => match version_of(current) {
            Err(error) => DecisionModel::CurrentNotSemantic(error),
            Ok(running) => if latest.at_most(running) {
                DecisionModel::UpToDate(current, without_v(tag))
            } else if kind == UpdateCheckKind::Background {
                DecisionModel::Available(without_v(tag))
            } else {
                match release.installer() {
                    None => DecisionModel::NoMsiAsset(tag),
                    Some(asset) => DecisionModel::Install(
                        without_v(tag),
                        asset.browser_download_url@,
                    ),
                }
            },
        },
    }
}

pub open spec fn decision_view(r: Result<UpdateDecision, UpdateError>) -> Option<DecisionModel> {
    match r {
        Ok(UpdateDecision::UpToDate { current, latest }) => Some(
            DecisionModel::UpToDate(current@, latest@),
        ),
        Ok(UpdateDecision::Available { latest }) => Some(DecisionModel::Available(latest@)),
        Ok(UpdateDecision::Install { latest, url }) => Some(
            DecisionModel::Install(latest@, url@),
        ),
        Err(UpdateError::TagNotSemantic(tag, error)) => Some(
            DecisionModel::TagNotSemantic(tag@, error),
        ),
        Err(UpdateError::CurrentNotSemantic(error)) => Some(
            DecisionModel::CurrentNotSemantic(error),
        ),
        Err(UpdateError::NoMsiAsset(tag)) => Some(DecisionModel::NoMsiAsset(tag@)),
        Err(_) => None,
    }
}

/// Decides what to do about the latest release, by the version that is running.
pub fn check_update(kind: UpdateCheckKind, current: &str, release: &GithubRelease) -> (r: Result<
    UpdateDecision,
    UpdateError,
>)
    ensures
        decision_view(r) == Some(decision(kind, current@, *release)),
{
    let latest = match parse_version(&release.tag_name) {
        Ok(version) => version,
        Err(error) => return Err(UpdateError::TagNotSemantic(release.tag_name.clone(), error)),
    };
    let running = match parse_version(current) {
        Ok(version) => version,
        Err(error) => return Err(UpdateError::CurrentNotSemantic(error)),
    };
    let stripped = strip_v(&text::chars_of(&release.tag_name));
    let latest_text = text::string_of(&stripped);
    if latest.no_newer_than(&running) {
        return Ok(UpdateDecision::UpToDate { current: current.to_owned(), latest: latest_text });
    }
    match kind {
        UpdateCheckKind::Background => Ok(UpdateDecision::Available { latest: latest_text }),
        UpdateCheckKind::Manual => match release.find_installer() {
            Some(asset) => Ok(
                UpdateDecision::Install {
                    latest: latest_text,
                    url: asset.browser_download_url.clone(),
                },
            ),
            None => Err(UpdateError::NoMsiAsset(release.tag_name.clone())),
        },
    }
}

/// A periodic check never installs: a newer release is only told of, whatever it holds and
/// whatever goes on in the application.
pub proof fn law_periodic_checks_never_install(current: Seq<char>, release: GithubRelease)
    ensures
        !(decision(UpdateCheckKind::Background, current, release) is Install),
        version_of(release.tag_name@) is Ok && version_of(current) is Ok && !version_of(
            release.tag_name@,
        )->Ok_0.at_most(version_of(current)->Ok_0) ==> decision(
            UpdateCheckKind::Background,
            current,
            release,
        ) == DecisionModel::Available(without_v(release.tag_name@)),
{
}

/// Only a newer version is ever offered or installed.
pub proof fn law_updates_never_go_back(
    kind: UpdateCheckKind,
    current: Seq<char>,
    release: GithubRelease,
)
    requires
        decision(kind, current, release) is Install || decision(
            kind,
            current,
            release,
        ) is Available,
    ensures
        version_of(release.tag_name@) is Ok,
        version_of(current) is Ok,
        !version_of(release.tag_name@)->Ok_0.at_most(version_of(current)->Ok_0),
        version_of(current)->Ok_0.at_most(version_of(release.tag_name@)->Ok_0),
{
}

/// A release that was found on its project page can be decided on: its tag is a version, and its
/// installer is the one at the agreed address.
pub proof fn law_found_releases_can_be_installed(
    tag: Seq<char>,
    current: Seq<char>,
    release: GithubRelease,
)
    requires
        version_of(tag) is Ok,
        version_of(current) is Ok,
        release.is_release_of(tag),
    ensures
        decision(UpdateCheckKind::Manual, current, release) == if version_of(tag)->Ok_0.at_most(
            version_of(current)->Ok_0,
        ) {
            DecisionModel::UpToDate(current, without_v(tag))
        } else {
            DecisionModel::Install(without_v(tag), installer_url(tag))
        },
{
    let named = |asset: GithubAsset| is_named_installer(asset);
    assert(named(release.assets@[0]));
    assert(release.assets@.drop_last() == Seq::<GithubAsset>::empty());
    reveal_with_fuel(search::first, 2);
}

/// What keeps a download from being installed.
#[derive(Clone, Copy, Debug, PartialEq, Eq, Structural)]
pub enum DownloadError {
    TooLarge,
    Incomplete,
    NotAnInstaller,
}

/// The bytes that every installer package starts with.
pub open spec fn msi_header() -> Seq<u8> {
    seq![0xD0u8, 0xCFu8, 0x11u8, 0xE0u8, 0xA1u8, 0xB1u8, 0x1Au8, 0xE1u8]
}

/// Tests a download by its length and by the bytes that it starts with.
pub fn check_download(written: u64, header: &[u8]) -> (r: Result<(), DownloadError>)
    ensures
        r == if written > MAX_INSTALLER_BYTES {
            Err::<(), DownloadError>(DownloadError::TooLarge)
        } else if header@.len() < 8 {
            Err::<(), DownloadError>(DownloadError::Incomplete)
        } else if header@.take(8) != msi_header() {
            Err::<(), DownloadError>(DownloadError::NotAnInstaller)
        } else {
            Ok::<(), DownloadError>(())
        },
        r is Ok ==> written <= 536_870_912 && header@.len() >= 8 && header@[0] == 0xD0 && header@[1]
            == 0xCF && header@[2] == 0x11 && header@[3] == 0xE0 && header@[4] == 0xA1 && header@[5]
            == 0xB1 && header@[6] == 0x1A && header@[7] == 0xE1,
{
    if written > MAX_INSTALLER_BYTES {
        return Err(DownloadError::TooLarge);
    }
    if header.len() < 8 {
        return Err(DownloadError::Incomplete);
    }
    let ghost start = header@.take(8);
    assert(forall|k: int| 0 <= k < 8 ==> start[k] == header@[k]);
    if header[0] == 0xD0 && header[1] == 0xCF && header[2] == 0x11 && header[3] == 0xE0 && header[4]
        == 0xA1 && header[5] == 0xB1 && header[6] == 0x1A && header[7] == 0xE1 {
        assert(start == msi_header());
        Ok(())
    } else {
        assert(forall|k: int| 0 <= k < 8 && start == msi_header() ==> header@[k] == msi_header()[k]);
        assert(start != msi_header()) by {
            if start == msi_header() {
                assert(start[0] == header@[0] && start[1] == header@[1] && start[2] == header@[2]
                    && start[3] == header@[3] && start[4] == header@[4] && start[5] == header@[5]
                    && start[6] == header@[6] && start[7] == header@[7]);
            }
        }
        Err(DownloadError::NotAnInstaller)
    }
}

/// The name under which the installer of a release is kept.
pub fn installer_file_name(tag_name: &str) -> (r: String)
    ensures
        r@ == "ScreenMirror-"@ + tag_name@ + ".msi"@,
{
    let mut out = "ScreenMirror-".to_owned();
    out.push_str(tag_name);
    out.push_str(".msi");
    out
}

/// The name of the installer of a release while it is downloaded.
pub fn partial_file_name(tag_name: &str) -> (r: String)
    ensures
        r@ == "ScreenMirror-"@ + tag_name@ + ".msi.part"@,
{
    let mut out = "ScreenMirror-".to_owned();
    out.push_str(tag_name);
    out.push_str(".msi.part");
    out
}

/// The name of the log of an installation.
pub fn install_log_name(latest: &str) -> (r: String)
    ensures
        r@ == "ScreenMirror-update-v"@ + latest@ + ".log"@,
{
    let mut out = "ScreenMirror-update-v".to_owned();
    out.push_str(latest);
    out.push_str(".log");
    out
}

/// How a check has ended.
#[derive(Debug, PartialEq, Eq)]
pub enum UpdateOutcome {
    UpToDate { current: String, latest: String },
    UpdateStarted { latest: String },
    Available { latest: String },
    Failed { error: String },
}

impl UpdateOutcome {
    /// What the tray shows after a periodic check: nothing where nothing is new, or where the
    /// check failed.
    pub open spec fn background_text(self) -> Option<Seq<char>> {
        match self {
            UpdateOutcome::UpToDate { .. } => None,
            UpdateOutcome::UpdateStarted { latest } => Some("Status: updating to v"@ + latest@),
            UpdateOutcome::Available { latest } => Some(
                "Status: update v"@ + latest@ + " available"@,
            ),
            UpdateOutcome::Failed { .. } => None,
        }
    }

    pub fn background_status(&self) -> (r: Option<String>)
        ensures
            match r {
                Some(message) => self.background_text() == Some(message@),
                None => self.background_text() is None,
            },
    {
        match self {
            UpdateOutcome::UpToDate { .. } => None,
            UpdateOutcome::UpdateStarted { latest } => {
                let mut out = "Status: updating to v".to_owned();
                out.push_str(latest);
                Some(out)
            },
            UpdateOutcome::Available { latest } => {
                let mut out = "Status: update v".to_owned();
                out.push_str(latest);
                out.push_str(" available");
                Some(out)
            },
            UpdateOutcome::Failed { .. } => None,
        }
    }

    /// What the tray shows after a check that was asked for.
    pub open spec fn manual_text(self) -> Seq<char> {
        match self {
            UpdateOutcome::UpToDate { current, .. } => "Status: latest version (v"@ + current@
                + ")"@,
            UpdateOutcome::UpdateStarted { latest } => "Status: updating to v"@ + latest@
                + "; app will restart"@,
            UpdateOutcome::Available { latest } => "Status: update v"@ + latest@ + " available"@,
            UpdateOutcome::Failed { error } => "Error: update check failed: "@ + error@,
        }
    }

    pub fn manual_status(&self) -> (r: String)
        ensures
            r@ == self.manual_text(),
    {
        match self {
            UpdateOutcome::UpToDate { current, .. } => {
                let mut out = "Status: latest version (v".to_owned();
                out.push_str(current);
                out.push_str(")");
                out
            },
            UpdateOutcome::UpdateStarted { latest } => {
                let mut out = "Status: updating to v".to_owned();
                out.push_str(latest);
                out.push_str("; app will restart");
                out
            },
            UpdateOutcome::Available { latest } => {
                let mut out = "Status: update v".to_owned();
                out.push_str(latest);
                out.push_str(" available");
                out
            },
            UpdateOutcome::Failed { error } => {
                let mut out = "Error: update check failed: ".to_owned();
                out.push_str(error);
                out
            },
        }
    }
}

/// The first number of two versions that differs decides which is newer.
pub proof fn law_first_difference_decides(a: Version, b: Version)
    ensures
        a.major < b.major ==> a.at_most(b) && !b.at_most(a),
        a.major == b.major && a.minor < b.minor ==> a.at_most(b) && !b.at_most(a),
        a.major == b.major && a.minor == b.minor && a.patch < b.patch ==> a.at_most(b)
            && !b.at_most(a),
{
}

/// A version is read as the three numbers that are written in it, with the letter that tags have
/// before it or without.
pub proof fn law_written_versions_are_read_back(major: u64, minor: u64, patch: u64)
    ensures
        ({
            let written = text::dec(major as nat) + seq!['.'] + text::dec(minor as nat) + seq!['.']
                + text::dec(patch as nat);
            &&& version_of(written) == Ok::<Version, VersionError>(Version { major, minor, patch })
            &&& version_of(seq!['v'] + written) == Ok::<Version, VersionError>(
                Version { major, minor, patch },
            )
        }),
{
    let (a, b, c) = (text::dec(major as nat), text::dec(minor as nat), text::dec(patch as nat));
    let written = a + seq!['.'] + b + seq!['.'] + c;
    lemma_part(major);
    lemma_part(minor);
    lemma_part(patch);
    reading::lemma_split_at(a, '.', b);
    reading::lemma_split_at(a + seq!['.'] + b, '.', c);
    let parts = text::split(written, '.');
    assert(parts == seq![a] + seq![b] + seq![c]);
    assert(parts[0] == a && parts[1] == b && parts[2] == c);
    assert(written[0] == a[0]);
    assert(written.last() == c.last());
    assert(text::is_digit(a[0]) && text::is_digit(c[c.len() - 1]));
    assert(text::trim(written) == written);
    assert(without_v(written) == written);
    let tagged = seq!['v'] + written;
    assert(tagged[0] == 'v' && tagged.last() == c.last());
    assert(text::trim(tagged) == tagged);
    assert(tagged.skip(1) == written);
    assert(without_v(tagged) == written);
}

proof fn lemma_part(n: u64)
    ensures
        text::split(text::dec(n as nat), '.') == seq![text::dec(n as nat)],
        part_number(text::dec(n as nat)) == Some(n as nat),
        text::dec(n as nat).len() > 0,
        text::all_digits(text::dec(n as nat)),
{
    let s = text::dec(n as nat);
    text::lemma_dec_digits(n as nat);
    assert(lan::lacks(s, '.')) by {
        assert forall|i: int| 0 <= i < s.len() implies #[trigger] s[i] != '.' by {
            assert(text::is_digit(s[i]));
        }
    }
    reading::lemma_split_whole(s, '.');
    text::law_decimal_round_trip(n as nat, u64::MAX as nat);
}

/// A newer release is told of by a periodic check and installed by one that was asked for, from the
/// installer with the agreed name wherever it has one; one that is no newer is left alone.
pub proof fn law_newer_releases_are_taken(current: Seq<char>, release: GithubRelease, i: int)
    requires
        version_of(release.tag_name@) is Ok,
        version_of(current) is Ok,
        0 <= i < release.assets@.len(),
    ensures
        ({
            let newer = !version_of(release.tag_name@)->Ok_0.at_most(version_of(current)->Ok_0);
            let asked = decision(UpdateCheckKind::Manual, current, release);
            let named = text::same_ignoring_case(
                release.assets@[i].name@,
                "ScreenMirror.msi"@,
            );
            &&& !newer ==> asked is UpToDate && decision(
                UpdateCheckKind::Background,
                current,
                release,
            ) is UpToDate
            &&& newer ==> decision(UpdateCheckKind::Background, current, release) is Available
            &&& newer && named ==> asked is Install && exists|k: int|
                0 <= k <= i && text::same_ignoring_case(
                    (#[trigger] release.assets@[k]).name@,
                    "ScreenMirror.msi"@,
                ) && asked->Install_1 == release.assets@[k].browser_download_url@
            &&& newer && text::ends_with(release.assets@[i].name@, ".msi"@) ==> asked is Install
            &&& asked is Install ==> exists|k: int|
                0 <= k < release.assets@.len() && (text::same_ignoring_case(
                    (#[trigger] release.assets@[k]).name@,
                    "ScreenMirror.msi"@,
                ) || text::ends_with(release.assets@[k].name@, ".msi"@)) && asked->Install_1
                    == release.assets@[k].browser_download_url@
        }),
{
    let assets = release.assets@;
    let named = |asset: GithubAsset| is_named_installer(asset);
    let any = |asset: GithubAsset| is_any_installer(asset);
    search::lemma_first_sound(assets, named);
    search::lemma_first_sound(assets, any);
    if named(assets[i]) {
        search::lemma_first_exists(assets, named, i);
    }
    if any(assets[i]) {
        search::lemma_first_exists(assets, any, i);
    }
    if release.installer() is Some {
        let found = release.installer()->0;
        let k = assets.index_of(found);
        assert(assets.contains(found));
        assert(assets[k] == found);
        assert(named(found) || any(found));
    }
}

/// The tag of a release is what stands behind the path of this project's releases, as long as it is
/// one piece.
pub proof fn law_tags_stand_behind_the_release_path(location: ReleaseLocation, tag: Seq<char>)
    requires
        tag.len() > 0,
        !tag.contains('/'),
        location.path@ == "/tsuyoshi-otake/screen-mirror/releases/tag/"@ + tag,
    ensures
        location.tag() == Some(tag),
        text::starts_with(
            installer_url(tag),
            "https://github.com/tsuyoshi-otake/screen-mirror/releases/download/"@ + tag,
        ),
        text::ends_with(installer_url(tag), "/ScreenMirror.msi"@),
{
    reveal_strlit("/");
    reveal_strlit("tsuyoshi-otake");
    reveal_strlit("screen-mirror");
    reveal_strlit("/releases/tag/");
    reveal_strlit("/tsuyoshi-otake/screen-mirror/releases/tag/");
    let prefix = "/tsuyoshi-otake/screen-mirror/releases/tag/"@;
    assert(tag_prefix() =~= prefix);
    let path = location.path@;
    assert(path.subrange(0, prefix.len() as int) == prefix);
    assert(path.skip(prefix.len() as int) == tag);
    lemma_installer_url(tag);
}

proof fn lemma_installer_url(tag: Seq<char>)
    ensures
        text::starts_with(
            installer_url(tag),
            "https://github.com/tsuyoshi-otake/screen-mirror/releases/download/"@ + tag,
        ),
        text::ends_with(installer_url(tag), "/ScreenMirror.msi"@),
{
    reveal_strlit("https://github.com/");
    reveal_strlit("/");
    reveal_strlit("tsuyoshi-otake");
    reveal_strlit("screen-mirror");
    reveal_strlit("/releases/download/");
    reveal_strlit("https://github.com/tsuyoshi-otake/screen-mirror/releases/download/");
    reveal_strlit("ScreenMirror.msi");
    reveal_strlit("/ScreenMirror.msi");
    let base = "https://github.com/tsuyoshi-otake/screen-mirror/releases/download/"@;
    assert("https://github.com/"@ + OWNER@ + "/"@ + REPO@ + "/releases/download/"@ =~= base);
    assert("/"@ + INSTALLER_ASSET@ =~= "/ScreenMirror.msi"@);
    let url = installer_url(tag);
    assert(url =~= base + tag + ("/"@ + INSTALLER_ASSET@));
    assert(url.subrange(0, (base + tag).len() as int) == base + tag);
    assert(url.subrange(url.len() - 17, url.len() as int) == "/ScreenMirror.msi"@);
}

} // verus!
