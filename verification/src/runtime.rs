use vstd::prelude::*;
use vstd::string::*;
use vstd::utf8::encode_utf8;

use crate::text::{joined, string_views, join_strings};
use crate::time::Duration;
use crate::text::{contains, ends_with, occurs_in, str_eq};

verus! {

/// `std::path::PathBuf`, carried through opaque: nothing is claimed of it.
#[verifier::external_type_specification]
#[verifier::external_body]
pub struct ExPathBuf(std::path::PathBuf);

/// `std::io::Error`, carried through opaque: nothing is claimed of it.
#[verifier::external_type_specification]
#[verifier::external_body]
pub struct ExIoError(std::io::Error);

/// An I/O failure together with where and during what it happened.
pub struct BetterIoError {
    pub location: std::path::PathBuf,
    pub context: &'static str,
    pub error: std::io::Error,
}

impl BetterIoError {
    pub fn new(location: std::path::PathBuf, context: &'static str, error: std::io::Error) -> (res: Self)
        ensures
            res.location == location,
            res.context == context,
            res.error == error,
    {
        BetterIoError { location, context, error }
    }
}

/// Where the language model comes from.
pub enum Model {
    /// A model file on disk.
    Local(std::path::PathBuf),
    /// A model file of a Hugging Face repository.
    HuggingFace { model: String, owner: String, repo: String },
}

/// Whether a model file name is a GGUF file.
pub open spec fn is_gguf_name(name: Seq<char>) -> bool {
    name.len() >= 5 && name.subrange(name.len() - 5, name.len() as int) == ".gguf"@
}

/// Accepts a model file name only when it ends in `.gguf`.
pub fn check_is_gguf(name: &str) -> (res: Result<(), ModelError>)
    ensures
        res is Ok <==> is_gguf_name(name@),
        res matches Err(e) ==> e is NotGguf,
{
    proof {
        reveal_strlit(".gguf");
    }
    if ends_with(name, ".gguf") {
        Ok(())
    } else {
        Err(ModelError::NotGguf)
    }
}

/// Why a model cannot be used.
pub enum ModelError {
    /// The model file is not in GGUF format.
    NotGguf,
}

/// Ten mebibytes: the progress logger reports at most once per this many bytes.
pub const TEN_MB: u64 = 10 * 1024 * 1024;

/// Whether a download at `current` of `total` bytes (0 when unknown) is
/// worth reporting after the last report at `last`: ten more mebibytes, or
/// the end of a download of known size.
pub open spec fn progress_due(current: u64, total: u64, last: u64) -> bool {
    current >= last + TEN_MB || (total > 0 && current >= total)
}

pub fn should_log_progress(current: u64, total: u64, last: u64) -> (res: bool)
    requires
        last + TEN_MB <= u64::MAX,
    ensures
        res == progress_due(current, total, last),
{
    current >= last + TEN_MB || (total > 0 && current >= total)
}

/// Reports the progress of a transfer at most once per ten mebibytes, and
/// at its end.
pub struct ChunkProgressLogger {
    /// The position of the last report, in bytes.
    pub last_logged_bytes: u64,
}

impl ChunkProgressLogger {
    /// A logger that has reported nothing yet.
    pub fn new() -> (res: Self)
        ensures
            res.last_logged_bytes == 0,
    {
        ChunkProgressLogger { last_logged_bytes: 0 }
    }

    /// Whether the transfer, at `current` of `total` bytes (0 when unknown),
    /// is to be reported now; when it is, `current` becomes the position of
    /// the last report. The caller writes the report.
    pub fn check_and_log(&mut self, current: u64, total: u64) -> (res: bool)
        requires
            old(self).last_logged_bytes + TEN_MB <= u64::MAX,
        ensures
            res == progress_due(current, total, old(self).last_logged_bytes),
            final(self).last_logged_bytes == if res {
                current
            } else {
                old(self).last_logged_bytes
            },
    {
        let due = should_log_progress(current, total, self.last_logged_bytes);
        if due {
            self.last_logged_bytes = current;
        }
        due
    }
}

/// One mebibyte: the download loop reports at whole mebibytes.
pub const MIB: u64 = 1024 * 1024;

/// Whether the download loop reports after `downloaded` of `total` bytes:
/// at every whole mebibyte and at the end.
pub fn download_progress_due(downloaded: u64, total: u64) -> (res: bool)
    ensures
        res == (downloaded % MIB == 0 || downloaded == total),
{
    downloaded % MIB == 0 || downloaded == total
}

/// How long to wait for the model server to answer, in seconds.
pub const READY_TIMEOUT_SECS: u64 = 60;

/// How long to let the model server settle once it answers, in seconds.
pub const SETTLE_SECS: u64 = 6;

/// What the wait for the model server does next.
pub enum Readiness {
    /// Ask the server for its models.
    Ask,
    /// The server answered: let it settle, then it is ready.
    Settle,
    /// The wait is over without an answer.
    GiveUp,
}

/// The next step of the wait for the model server, after `waited` of
/// `timeout` and with `answered` telling whether the last question was
/// answered: settle once it answers, ask again while time is left, give up
/// otherwise.
pub fn readiness_step(waited: &Duration, timeout: &Duration, answered: bool) -> (res: Readiness)
    ensures
        answered ==> res is Settle,
        !answered && waited@ < timeout@ ==> res is Ask,
        !answered && waited@ >= timeout@ ==> res is GiveUp,
{
    if answered {
        Readiness::Settle
    } else if timeout.le(waited) {
        Readiness::GiveUp
    } else {
        Readiness::Ask
    }
}

/// The operating systems the runtime archive is built for.
pub enum TargetOs {
    MacOs,
    Linux,
    Windows,
}

/// The processor architectures the runtime archive is built for.
pub enum TargetArch {
    X86_64,
    Aarch64,
}

/// The GPU back-end tag of the runtime archive: CUDA or HIP on Windows by
/// GPU vendor, Vulkan elsewhere except on ARM, where there is no tag.
pub open spec fn gpu_tag(is_nvidia: bool, os: TargetOs, arch: TargetArch) -> Seq<char> {
    if os is Windows {
        if is_nvidia {
            "cuda-13.1"@
        } else {
            "hip"@
        }
    } else if !(arch is Aarch64) {
        "vulkan"@
    } else {
        ""@
    }
}

pub fn gpu_flag(is_nvidia: bool, os: &TargetOs, arch: &TargetArch) -> (res: &'static str)
    ensures
        res@ == gpu_tag(is_nvidia, *os, *arch),
{
    match os {
        TargetOs::Windows => if is_nvidia {
            "cuda-13.1"
        } else {
            "hip"
        },
        _ => match arch {
            TargetArch::Aarch64 => "",
            TargetArch::X86_64 => "vulkan",
        },
    }
}

/// The architecture tag of the runtime archive.
pub open spec fn arch_tag(arch: TargetArch) -> Seq<char> {
    match arch {
        TargetArch::X86_64 => "x64"@,
        TargetArch::Aarch64 => "arm64"@,
    }
}

pub fn arch_flag(arch: &TargetArch) -> (res: &'static str)
    ensures
        res@ == arch_tag(*arch),
{
    match arch {
        TargetArch::X86_64 => "x64",
        TargetArch::Aarch64 => "arm64",
    }
}

/// The operating-system tag of the runtime archive.
pub open spec fn os_tag(os: TargetOs) -> Seq<char> {
    match os {
        TargetOs::MacOs => "macos"@,
        TargetOs::Linux => "ubuntu"@,
        TargetOs::Windows => "win"@,
    }
}

pub fn os_flag(os: &TargetOs) -> (res: &'static str)
    ensures
        res@ == os_tag(*os),
{
    match os {
        TargetOs::MacOs => "macos",
        TargetOs::Linux => "ubuntu",
        TargetOs::Windows => "win",
    }
}

/// The name of the server executable on the target.
pub open spec fn server_name(os: TargetOs) -> Seq<char> {
    if os is Windows {
        "llama-server.exe"@
    } else {
        "llama-server"@
    }
}

pub fn server_binary_name(os: &TargetOs) -> (res: &'static str)
    ensures
        res@ == server_name(*os),
{
    match os {
        TargetOs::Windows => "llama-server.exe",
        _ => "llama-server",
    }
}

/// Whether an asset name carries all three build tags.
pub open spec fn asset_matches(name: Seq<char>, gpu: Seq<char>, arch: Seq<char>, os: Seq<char>) -> bool {
    occurs_in(name, gpu) && occurs_in(name, arch) && occurs_in(name, os)
}

/// The first release asset whose name carries the GPU, architecture and OS
/// tags; `None` when no asset does.
pub fn select_release_asset(names: &Vec<String>, gpu: &str, arch: &str, os: &str) -> (res: Option<usize>)
    ensures
        match res {
            Some(i) => i < names@.len() && asset_matches(names@[i as int]@, gpu@, arch@, os@) && forall|j: int|
                0 <= j < i ==> !asset_matches(#[trigger] names@[j]@, gpu@, arch@, os@),
            None => forall|j: int|
                0 <= j < names@.len() ==> !asset_matches(#[trigger] names@[j]@, gpu@, arch@, os@),
        },
{
    let mut i: usize = 0;
    while i < names.len()
        invariant
            i <= names@.len(),
            forall|j: int| 0 <= j < i ==> !asset_matches(#[trigger] names@[j]@, gpu@, arch@, os@),
        decreases names@.len() - i,
    {
        let name = names[i].as_str();
        if contains(name, gpu) && contains(name, arch) && contains(name, os) {
            return Some(i);
        }
        i = i + 1;
    }
    None
}

/// Whether a trailing path segment points below the repository: `latest`,
/// `releases` or empty.
pub open spec fn is_release_suffix(segment: Seq<char>) -> bool {
    segment == "latest"@ || segment == "releases"@ || segment == Seq::<char>::empty()
}

/// `segments` without the trailing segments that point below the repository.
pub open spec fn repository_segments(segments: Seq<Seq<char>>) -> Seq<Seq<char>>
    decreases segments.len(),
{
    if segments.len() > 0 && is_release_suffix(segments.last()) {
        repository_segments(segments.drop_last())
    } else {
        segments
    }
}

/// The path segments of the release API endpoint of a repository: the
/// releases list for pre-releases, the latest release otherwise.
pub open spec fn release_segments(segments: Seq<Seq<char>>, prerelease: bool) -> Seq<Seq<char>> {
    if prerelease {
        repository_segments(segments).push("releases"@)
    } else {
        repository_segments(segments).push("releases"@).push("latest"@)
    }
}

proof fn lemma_repository_segments_take(s: Seq<Seq<char>>, k: int)
    requires
        0 <= k <= s.len(),
        forall|j: int| k <= j < s.len() ==> is_release_suffix(#[trigger] s[j]),
    ensures
        repository_segments(s) == repository_segments(s.take(k)),
    decreases s.len() - k,
{
    if k < s.len() {
        let t = s.take(s.len() - 1);
        assert(s.drop_last() =~= t);
        assert forall|j: int| k <= j < t.len() implies is_release_suffix(#[trigger] t[j]) by {
            assert(t[j] == s[j]);
        }
        lemma_repository_segments_take(t, k);
        assert(t.take(k) =~= s.take(k));
    } else {
        assert(s.take(k) =~= s);
    }
}

fn trailing_release_suffix(segs: &Vec<String>) -> (res: bool)
    requires
        segs@.len() > 0,
    ensures
        res == is_release_suffix(segs@.last()@),
{
    proof {
        reveal_strlit("");
    }
    let last = segs[segs.len() - 1].as_str();
    assert(last@ == segs@.last()@);
    assert(""@ =~= Seq::<char>::empty());
    str_eq(last, "latest") || str_eq(last, "releases") || str_eq(last, "")
}

/// Rewrites the path segments of a repository URL into those of its
/// release endpoint.
pub fn release_path_segments(segments: Vec<String>, prerelease: bool) -> (res: Vec<String>)
    ensures
        string_views(res@) == release_segments(string_views(segments@), prerelease),
{
    let ghost views = string_views(segments@);
    let mut segs = segments;
    while segs.len() > 0 && trailing_release_suffix(&segs)
        invariant
            segs@.len() <= views.len(),
            string_views(segs@) == views.take(segs@.len() as int),
            forall|j: int| segs@.len() <= j < views.len() ==> is_release_suffix(#[trigger] views[j]),
        decreases segs@.len(),
    {
        let ghost before = segs@;
        proof {
            assert(string_views(before)[before.len() - 1] == views[before.len() - 1]);
        }
        segs.pop();
        proof {
            assert(string_views(segs@) =~= views.take(segs@.len() as int));
        }
    }
    proof {
        lemma_repository_segments_take(views, segs@.len() as int);
        let t = views.take(segs@.len() as int);
        if t.len() > 0 {
            assert(t.last() == string_views(segs@).last());
        }
    }
    let ghost kept = segs@;
    segs.push(String::from_str("releases"));
    if !prerelease {
        segs.push(String::from_str("latest"));
    }
    proof {
        if prerelease {
            assert(string_views(segs@) =~= string_views(kept).push("releases"@));
        } else {
            assert(string_views(segs@) =~= string_views(kept).push("releases"@).push("latest"@));
        }
    }
    segs
}

/// The query of the release request: one entry per page for the releases list.
pub fn release_query(prerelease: bool) -> (res: Option<&'static str>)
    ensures
        prerelease ==> (res matches Some(q) && q@ == "per_page=1"@),
        !prerelease ==> res is None,
{
    if prerelease {
        Some("per_page=1")
    } else {
        None
    }
}

/// The path of the release endpoint: its segments joined with `/`.
pub fn release_path(segments: Vec<String>, prerelease: bool) -> (res: String)
    ensures
        res@ == joined(release_segments(string_views(segments@), prerelease), "/"@),
{
    let segs = release_path_segments(segments, prerelease);
    join_strings(&segs, "/")
}

/// What the url crate makes of a text as a URL: `None` when `Url::parse`
/// refuses it; otherwise the length in bytes of the parsed URL's text
/// (`Url::as_str`) and what `Url::path_segments` gives of it, `None` for a
/// URL that cannot be a base.
pub uninterp spec fn parsed_url(url: Seq<char>) -> Option<(nat, Option<Seq<Seq<char>>>)>;

/// Parses `url` with `url::Url::parse`, and gives the length of its text
/// (`Url::as_str`) and its path segments (`Url::path_segments`). Claimed:
/// `None` exactly where the name above says that parsing fails (the parse
/// error itself is dropped), and otherwise the length and the segments, as
/// owned strings, that the name gives.
#[verifier::external_body]
fn parse_url(url: &str) -> (res: Option<(usize, Option<Vec<String>>)>)
    ensures
        match parsed_url(url@) {
            None => res is None,
            Some((len, None)) => {
                &&& res matches Some((l, o))
                &&& l == len
                &&& o is None
            },
            Some((len, Some(segs))) => {
                &&& res matches Some((l, o))
                &&& l == len
                &&& o matches Some(v)
                &&& string_views(v@) == segs
            },
        },
{
    match url::Url::parse(url) {
        Ok(parsed) => Some((
            parsed.as_str().len(),
            parsed.path_segments().map(|s| s.map(|s| s.to_string()).collect()),
        )),
        Err(_) => None,
    }
}

/// The text of the URL that `url` parses to, after `Url::set_path` with
/// `path` and `Url::set_query` with `query`.
pub uninterp spec fn url_with_path_and_query(url: Seq<char>, path: Seq<char>, query: Option<Seq<char>>) -> Seq<char>;

/// The longest text, in bytes, that the url crate can keep: it stores
/// offsets into a URL's text as `u32` and panics past them.
pub const URL_BYTES_MAX: u64 = 0xFFFF_FFFF;

/// What replacing the path and query of a URL whose text has `len` bytes
/// may grow it to at most: each byte of the new path and query
/// percent-encoded into three, the `/` that starts a path, the `/.` that
/// guards a path starting with `//`, the `?` of the query, and room to
/// spare.
pub open spec fn url_growth_bound(len: nat, path_bytes: nat, query_bytes: nat) -> nat {
    len + 3 * path_bytes + 3 * query_bytes + 8
}

pub open spec fn option_view(query: Option<&str>) -> Option<Seq<char>> {
    match query {
        Some(q) => Some(q@),
        None => None,
    }
}

pub open spec fn option_bytes(query: Option<&str>) -> nat {
    match query {
        Some(q) => q.spec_bytes().len(),
        None => 0,
    }
}

/// Parses `url` with `url::Url::parse`, replaces its path with `Url::set_path`
/// and its query with `Url::set_query`, and gives the resulting text
/// (`String::from` the URL). Claimed: the text that the name above gives.
/// The caller must hand over a URL that parses, and a path and query that
/// cannot grow its text past `URL_BYTES_MAX`, where the crate would panic.
#[verifier::external_body]
fn with_path_and_query(url: &str, path: &str, query: Option<&str>) -> (res: String)
    requires
        parsed_url(url@) matches Some((len, _)) && url_growth_bound(len, path.spec_bytes().len(), option_bytes(query))
            <= URL_BYTES_MAX,
    ensures
        res@ == url_with_path_and_query(url@, path@, option_view(query)),
{
    let mut parsed = url::Url::parse(url).unwrap();
    parsed.set_path(path);
    parsed.set_query(query);
    String::from(parsed)
}

/// Why no release URL was built from a repository URL.
pub enum ReleaseUrlError {
    /// The repository URL does not parse.
    InvalidUrl,
    /// The release URL could grow past the longest text the url crate keeps.
    TooLong,
}

/// The characters of the path that the release endpoint of the repository
/// at `url` is reached by, when `url` parses.
pub open spec fn release_url_path(url: Seq<char>, prerelease: bool) -> Seq<char> {
    let segments = match parsed_url(url) {
        Some((_, Some(segs))) => segs,
        _ => Seq::empty(),
    };
    joined(release_segments(segments, prerelease), "/"@)
}

pub open spec fn release_query_view(prerelease: bool) -> Option<Seq<char>> {
    if prerelease {
        Some("per_page=1"@)
    } else {
        None
    }
}

/// Whether building the release URL of `url` stays within the url crate's
/// limit.
pub open spec fn release_url_fits(url: Seq<char>, prerelease: bool) -> bool {
    parsed_url(url) matches Some((len, _)) && url_growth_bound(
        len,
        encode_utf8(release_url_path(url, prerelease)).len(),
        if prerelease {
            "per_page=1".spec_bytes().len()
        } else {
            0
        },
    ) <= URL_BYTES_MAX
}

/// The URL of the release endpoint of the GitHub repository whose API URL
/// is `url`: its path is the repository's, without trailing `latest`,
/// `releases` or empty segments, followed by `releases` (pre-releases, with
/// one release per page) or `releases/latest`.
pub fn release_url(url: &str, prerelease: bool) -> (res: Result<String, ReleaseUrlError>)
    ensures
        parsed_url(url@) is None <==> res matches Err(ReleaseUrlError::InvalidUrl),
        res matches Err(ReleaseUrlError::TooLong) <==> (parsed_url(url@) is Some && !release_url_fits(
            url@,
            prerelease,
        )),
        res matches Ok(u) ==> u@ == url_with_path_and_query(
            url@,
            release_url_path(url@, prerelease),
            release_query_view(prerelease),
        ),
{
    let (len, segments) = match parse_url(url) {
        None => {
            return Err(ReleaseUrlError::InvalidUrl);
        },
        Some((len, Some(v))) => (len, v),
        Some((len, None)) => (len, Vec::new()),
    };
    proof {
        if parsed_url(url@) matches Some((_, None)) {
            assert(string_views(segments@) =~= Seq::<Seq<char>>::empty());
        }
    }
    let path = release_path(segments, prerelease);
    let query = release_query(prerelease);
    let path_str = path.as_str();
    let path_bytes = path_str.as_bytes().len();
    let query_bytes: usize = match query {
        Some(q) => q.as_bytes().len(),
        None => 0,
    };
    proof {
        assert(path@ == release_url_path(url@, prerelease));
        assert(path_bytes == encode_utf8(release_url_path(url@, prerelease)).len());
        assert(query_bytes == option_bytes(query));
        if prerelease {
            assert(option_bytes(query) == "per_page=1".spec_bytes().len());
        }
    }
    let n = len as u64;
    let p = path_bytes as u64;
    let q = query_bytes as u64;
    if n > URL_BYTES_MAX - 8 {
        return Err(ReleaseUrlError::TooLong);
    }
    let room = URL_BYTES_MAX - 8 - n;
    if p > room / 3 {
        assert(3 * p > room) by (nonlinear_arith)
            requires
                p > room / 3,
        ;
        return Err(ReleaseUrlError::TooLong);
    }
    assert(3 * p <= room) by (nonlinear_arith)
        requires
            p <= room / 3,
    ;
    let rest = room - 3 * p;
    if q > rest / 3 {
        assert(3 * q > rest) by (nonlinear_arith)
            requires
                q > rest / 3,
        ;
        return Err(ReleaseUrlError::TooLong);
    }
    assert(3 * q <= rest) by (nonlinear_arith)
        requires
            q <= rest / 3,
    ;
    Ok(with_path_and_query(url, path_str, query))
}

/// The first pre-release in a list of releases, given their pre-release flags.
pub fn first_prerelease(flags: &Vec<bool>) -> (res: Option<usize>)
    ensures
        match res {
            Some(i) => i < flags@.len() && flags@[i as int] && forall|j: int| 0 <= j < i ==> !flags@[j],
            None => forall|j: int| 0 <= j < flags@.len() ==> !flags@[j],
        },
{
    let mut i: usize = 0;
    while i < flags.len()
        invariant
            i <= flags@.len(),
            forall|j: int| 0 <= j < i ==> !flags@[j],
        decreases flags@.len() - i,
    {
        if flags[i] {
            return Some(i);
        }
        i = i + 1;
    }
    None
}

/// Pointing a repository URL at its release endpoint twice changes nothing
/// more than doing it once.
pub proof fn lemma_release_segments_idempotent(segments: Seq<Seq<char>>, prerelease: bool)
    ensures
        release_segments(release_segments(segments, prerelease), prerelease) == release_segments(
            segments,
            prerelease,
        ),
{
    let base = repository_segments(segments);
    lemma_repository_segments_stable(segments);
    let once = release_segments(segments, prerelease);
    if prerelease {
        assert(once.drop_last() =~= base);
        assert(is_release_suffix(once.last()));
        assert(repository_segments(once) == repository_segments(base));
    } else {
        assert(once.drop_last().drop_last() =~= base);
        assert(is_release_suffix(once.last()));
        assert(is_release_suffix(once.drop_last().last()));
        assert(repository_segments(once) == repository_segments(once.drop_last()));
        assert(repository_segments(once.drop_last()) == repository_segments(base));
    }
}

proof fn lemma_repository_segments_stable(segments: Seq<Seq<char>>)
    ensures
        repository_segments(repository_segments(segments)) == repository_segments(segments),
        repository_segments(segments).len() > 0 ==> !is_release_suffix(repository_segments(segments).last()),
    decreases segments.len(),
{
    if segments.len() > 0 && is_release_suffix(segments.last()) {
        lemma_repository_segments_stable(segments.drop_last());
    }
}

/// The build tags of the runtime archive: the GPU tag depends on the GPU
/// vendor only on Windows (CUDA for NVIDIA, HIP otherwise); elsewhere it is
/// Vulkan, or nothing on ARM. Each architecture and each operating system
/// has its own tag.
pub proof fn lemma_build_tags(is_nvidia: bool, os: TargetOs, arch: TargetArch)
    ensures
        gpu_tag(true, TargetOs::Windows, arch) == "cuda-13.1"@,
        gpu_tag(false, TargetOs::Windows, arch) == "hip"@,
        !(os is Windows) ==> gpu_tag(is_nvidia, os, arch) == gpu_tag(!is_nvidia, os, arch),
        !(os is Windows) && arch is X86_64 ==> gpu_tag(is_nvidia, os, arch) == "vulkan"@,
        !(os is Windows) && arch is Aarch64 ==> gpu_tag(is_nvidia, os, arch) == Seq::<char>::empty(),
        arch_tag(TargetArch::X86_64) == "x64"@,
        arch_tag(TargetArch::Aarch64) == "arm64"@,
        os_tag(TargetOs::MacOs) == "macos"@,
        os_tag(TargetOs::Linux) == "ubuntu"@,
        os_tag(TargetOs::Windows) == "win"@,
        arch_tag(TargetArch::X86_64) != arch_tag(TargetArch::Aarch64),
        os_tag(TargetOs::MacOs) != os_tag(TargetOs::Linux) && os_tag(TargetOs::Linux) != os_tag(TargetOs::Windows)
            && os_tag(TargetOs::MacOs) != os_tag(TargetOs::Windows),
{
    reveal_strlit("");
    reveal_strlit("x64");
    reveal_strlit("arm64");
    reveal_strlit("macos");
    reveal_strlit("ubuntu");
    reveal_strlit("win");
    assert(Seq::<char>::empty() =~= ""@);
    assert("x64"@.len() != "arm64"@.len());
    assert("macos"@[0] != "ubuntu"@[0] && "ubuntu"@[0] != "win"@[0] && "macos"@[0] != "win"@[0]);
}

/// The server executable is `llama-server`, with `.exe` appended on Windows.
pub proof fn lemma_server_name(os: TargetOs)
    ensures
        server_name(TargetOs::Linux) == "llama-server"@,
        server_name(TargetOs::MacOs) == "llama-server"@,
        server_name(TargetOs::Windows) == "llama-server"@ + ".exe"@,
{
    reveal_strlit("llama-server");
    reveal_strlit(".exe");
    reveal_strlit("llama-server.exe");
    assert("llama-server.exe"@ =~= "llama-server"@ + ".exe"@);
}

/// A model file name is accepted exactly when it ends in `.gguf`: any text
/// with `.gguf` appended is, and no name whose last character is not `f`
/// or that is shorter than `.gguf` is.
pub proof fn lemma_gguf_names(stem: Seq<char>, name: Seq<char>)
    ensures
        is_gguf_name(stem + ".gguf"@),
        (name.len() < 5 || name.last() != 'f') ==> !is_gguf_name(name),
{
    reveal_strlit(".gguf");
    let s = stem + ".gguf"@;
    assert(s.subrange(s.len() - 5, s.len() as int) =~= ".gguf"@);
    if name.len() >= 5 && is_gguf_name(name) {
        assert(name.subrange(name.len() - 5, name.len() as int)[4] == name.last());
    }
}

/// Progress is reported once ten mebibytes more than at the last report
/// have arrived, or when a download of known size is complete, and not
/// before: below that step, before the end, nothing is reported.
pub proof fn lemma_progress_reports(current: u64, total: u64, last: u64)
    ensures
        current >= last + 10 * 1024 * 1024 ==> progress_due(current, total, last),
        total > 0 && current >= total ==> progress_due(current, total, last),
        current < last + 10 * 1024 * 1024 && (total == 0 || current < total) ==> !progress_due(current, total, last),
{
}

} // verus!
