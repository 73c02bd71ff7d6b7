//! Decisions of the SDK manager: the archive of a package to install on a
//! platform, the platform asked for, where an installed package lives, and
//! the packages queued for removal.
use vstd::prelude::*;
use crate::installed_list::{packages_view, InstalledPackage, InstalledPackageView};
use crate::paths::{path_join, push_path};
use crate::repository::{archives_view, bit_size_from_text, Archive, ArchiveView, BitSizeError, BitSizeType};
use crate::strs::{starts_with, text_starts_with, decimal, decimal_text, push_char, chars_of, find_char, find_char_in, split_char, split_first, str_eq, string_from, string_of};

use crate::urls::{join_url, parse_url, url_joined, url_parsed};

verus! {

/// What to do when a lock on an SDK directory cannot be released.
#[derive(Debug, Clone, Copy, PartialEq, Eq)]
pub enum SdkLockReleaseErrorBehaviour {
    /// Log and ignore
    Log,
    /// Panic
    Panic,
    /// Log and panic.
    LogPanic,
    /// Silently ignore lock release errors
    Ignore,
}

impl Default for SdkLockReleaseErrorBehaviour {
    fn default() -> (r: Self)
        ensures
            r == SdkLockReleaseErrorBehaviour::LogPanic,
    {
        SdkLockReleaseErrorBehaviour::LogPanic
    }
}

/// Whether an archive can be installed on a platform: it names no operating
/// system or the platform's, and no bit width or the platform's.
pub open spec fn archive_fits(a: ArchiveView, host_os: Seq<char>, bits: BitSizeType) -> bool {
    (a.host_os.len() == 0 || a.host_os == host_os) && (a.host_bits == BitSizeType::Unset
        || a.host_bits == bits)
}

/// No archive of a package fits the platform.
#[derive(Debug, Clone, PartialEq, Eq)]
pub struct ArchiveSelectionFailed {
    pub host_os: String,
    pub bits: BitSizeType,
}

/// The first archive of a package that fits the platform.
pub fn select_archive<'a>(archives: &'a Vec<Archive>, host_os: &String, bits: BitSizeType) -> (r: Result<&'a Archive, ArchiveSelectionFailed>)
    ensures
        match r {
            Ok(a) => exists|i: int|
                0 <= i < archives@.len() && a == &archives@[i] && archive_fits(archives@[i]@, host_os@, bits)
                    && forall|j: int| 0 <= j < i ==> !archive_fits(#[trigger] archives@[j]@, host_os@, bits),
            Err(e) => e.host_os@ == host_os@ && e.bits == bits && forall|j: int|
                0 <= j < archives@.len() ==> !archive_fits(#[trigger] archives@[j]@, host_os@, bits),
        },
{
    let mut i: usize = 0;
    while i < archives.len()
        invariant
            i <= archives.len(),
            forall|j: int| 0 <= j < i ==> !archive_fits(#[trigger] archives@[j]@, host_os@, bits),
        decreases archives.len() - i,
    {
        let a = &archives[i];
        let os_fits = a.get_host_os().as_str().unicode_len() == 0 || str_eq(a.get_host_os().as_str(), host_os.as_str());
        let bits_fit = match (a.get_host_bits(), bits) {
            (BitSizeType::Unset, _) => true,
            (BitSizeType::Bit64, BitSizeType::Bit64) => true,
            (BitSizeType::Bit32, BitSizeType::Bit32) => true,
            (BitSizeType::Unset, _) => true,
            _ => false,
        };
        if os_fits && bits_fit {
            return Ok(a);
        }
        i += 1;
    }
    Err(ArchiveSelectionFailed { host_os: host_os.clone(), bits })
}

/// The platform a text asks for: `os;bits` gives the system and the bit
/// width (which must be one); a text without `;` is the system, with the
/// default bit width.
pub open spec fn platform_from(text: Seq<char>, default_bits: BitSizeType) -> Result<(Seq<char>, BitSizeType), Seq<char>> {
    match split_first(text, ';') {
        (os, Some(b)) => match bit_size_from_text(b) {
            Some(bits) => Ok((os, bits)),
            None => Err(b),
        },
        (os, None) => Ok((os, default_bits)),
    }
}

/// Reads the platform a text asks for.
pub fn parse_platform(text: &str, default_bits: BitSizeType) -> (r: Result<(String, BitSizeType), BitSizeError>)
    ensures
        match platform_from(text@, default_bits) {
            Ok((os, bits)) => r matches Ok(x) && x.0@ == os && x.1 == bits,
            Err(b) => r matches Err(e) && e.text@ == b,
        },
{
    let v = chars_of(text);
    assert(v@.subrange(0, v@.len() as int) == v@);
    proof {
        crate::strs::lemma_find_char(v@, ';');
    }
    match find_char_in(&v, 0, v.len(), ';') {
        Some(k) => {
            let os = string_from(&v, 0, k);
            let rest = string_from(&v, k + 1, v.len());
            match crate::repository::BitSizeType::from_str(rest.as_str()) {
                Ok(bits) => Ok((os, bits)),
                Err(e) => Err(e),
            }
        },
        None => Ok((string_of(&v), default_bits)),
    }
}

/// The relative directory of a package path `a;b;c`: `a/b/c`.
pub open spec fn segments_path(segs: Seq<Seq<char>>) -> Seq<char>
    decreases segs.len(),
{
    if segs.len() == 0 {
        Seq::empty()
    } else {
        path_join(segments_path(segs.drop_last()), segs.last())
    }
}

/// Where an installed package lives: the directory recorded for it, else
/// its path (`;` separating directories) under its repository's directory
/// in the SDK directory `sdk`.
pub open spec fn package_dir(sdk: Seq<char>, p: InstalledPackageView) -> Seq<char> {
    match p.directory {
        Some(d) => d,
        None => path_join(path_join(sdk, p.repository_name), segments_path(split_char(p.path, ';'))),
    }
}

/// Where an installed package lives, under the SDK directory `sdk`.
pub fn package_directory(sdk: &str, package: &InstalledPackage) -> (r: String)
    ensures
        r@ == package_dir(sdk@, package@),
{
    if let Some(d) = &package.directory {
        return d.clone();
    }
    let segs = crate::strs::split_text(package.path.as_str(), ';');
    let ghost sv = segs@.map_values(|t: String| t@);
    let mut rel = String::new();
    let mut i: usize = 0;
    assert(sv.take(0) =~= Seq::<Seq<char>>::empty());
    while i < segs.len()
        invariant
            i <= segs.len(),
            sv == segs@.map_values(|t: String| t@),
            rel@ == segments_path(sv.take(i as int)),
        decreases segs.len() - i,
    {
        proof {
            assert(sv.take(i + 1).drop_last() == sv.take(i as int));
            assert(sv.take(i + 1).last() == segs@[i as int]@);
        }
        push_path(&mut rel, segs[i].as_str());
        i += 1;
    }
    proof {
        assert(sv.take(segs.len() as int) == sv);
    }
    let mut dir = crate::strs::str_to_string(sdk);
    push_path(&mut dir, package.repository_name.as_str());
    push_path(&mut dir, rel.as_str());
    dir
}

/// The packages queued for removal.
#[derive(Debug)]
pub struct Uninstaller {
    packages: Vec<InstalledPackage>,
    quiet: bool,
}

impl Uninstaller {
    pub fn new(quiet: bool) -> (r: Self)
        ensures
            r.queued().len() == 0,
            r.is_quiet() == quiet,
    {
        Uninstaller { packages: Vec::new(), quiet }
    }

    pub closed spec fn queued(&self) -> Seq<InstalledPackageView> {
        packages_view(self.packages@)
    }

    pub closed spec fn is_quiet(&self) -> bool {
        self.quiet
    }

    pub fn add_uninstall_package(&mut self, package: InstalledPackage)
        ensures
            final(self).queued() == old(self).queued().push(package@),
            final(self).is_quiet() == old(self).is_quiet(),
    {
        let ghost before = self.packages@;
        self.packages.push(package);
        proof {
            assert(packages_view(self.packages@) =~= packages_view(before).push(package@));
        }
    }

    /// Whether progress is kept quiet.
    pub fn quiet(&self) -> (r: bool)
        ensures
            r == self.is_quiet(),
    {
        self.quiet
    }

    /// The packages queued for removal, giving the queue up.
    pub fn into_packages(self) -> (r: Vec<InstalledPackage>)
        ensures
            packages_view(r@) == self.queued(),
    {
        self.packages
    }
}

impl SdkLockReleaseErrorBehaviour {
    /// Whether a failed release is logged.
    pub fn logs(&self) -> (r: bool)
        ensures
            r == (*self == SdkLockReleaseErrorBehaviour::Log || *self == SdkLockReleaseErrorBehaviour::LogPanic),
    {
        match self {
            SdkLockReleaseErrorBehaviour::Log | SdkLockReleaseErrorBehaviour::LogPanic => true,
            _ => false,
        }
    }

    /// Whether a failed release ends the process with a panic.
    pub fn panics(&self) -> (r: bool)
        ensures
            r == (*self == SdkLockReleaseErrorBehaviour::Panic || *self == SdkLockReleaseErrorBehaviour::LogPanic),
    {
        match self {
            SdkLockReleaseErrorBehaviour::Panic | SdkLockReleaseErrorBehaviour::LogPanic => true,
            _ => false,
        }
    }
}

/// A lock on an SDK directory, held by one process: the lock file inside
/// the directory holds that process's id.
#[derive(Debug)]
pub struct SdkLock {
    path: String,
    release_err_behaviour: SdkLockReleaseErrorBehaviour,
    pid: u32,
}

impl SdkLock {
    /// The lock file of the directory `dir`.
    pub open spec fn lock_file_of(dir: Seq<char>) -> Seq<char> {
        path_join(dir, ".lock"@)
    }

    pub closed spec fn file(&self) -> Seq<char> {
        self.path@
    }

    pub closed spec fn owner(&self) -> u32 {
        self.pid
    }

    pub closed spec fn behaviour(&self) -> SdkLockReleaseErrorBehaviour {
        self.release_err_behaviour
    }

    /// The lock on `dir` for the process `pid`, which panics after logging
    /// when it cannot be released.
    pub fn new(dir: &str, pid: u32) -> (r: Self)
        ensures
            r.file() == Self::lock_file_of(dir@),
            r.owner() == pid,
            r.behaviour() == SdkLockReleaseErrorBehaviour::LogPanic,
    {
        let mut path = crate::strs::str_to_string(dir);
        push_path(&mut path, ".lock");
        SdkLock { path, release_err_behaviour: SdkLockReleaseErrorBehaviour::LogPanic, pid }
    }

    /// The path of the lock file.
    pub fn lock_file(&self) -> (r: &String)
        ensures
            r@ == self.file(),
    {
        &self.path
    }

    /// The id of the process holding the lock.
    pub fn pid(&self) -> (r: u32)
        ensures
            r == self.owner(),
    {
        self.pid
    }

    pub fn release_err_behaviour(&self) -> (r: SdkLockReleaseErrorBehaviour)
        ensures
            r == self.behaviour(),
    {
        self.release_err_behaviour
    }

    pub fn set_release_err_behaviour(&mut self, behaviour: SdkLockReleaseErrorBehaviour)
        ensures
            final(self).behaviour() == behaviour,
            final(self).file() == old(self).file(),
            final(self).owner() == old(self).owner(),
    {
        self.release_err_behaviour = behaviour;
    }

    /// Whether a lock file holding `content` belongs to this process: it
    /// holds this process's id in decimal, and nothing else.
    pub fn owns(&self, content: &str) -> (r: bool)
        ensures
            r == (content@ == decimal(self.owner() as nat)),
    {
        let mine = decimal_text(self.pid as u64);
        str_eq(mine.as_str(), content)
    }
}

/// What SHA-1 makes of `data`: its digest.
pub uninterp spec fn spec_sha1(data: Seq<u8>) -> Seq<u8>;

/// `sha1::Sha1::digest`: the SHA-1 digest of `data`, named by `spec_sha1`;
/// the crate's output size for SHA-1 is 20 bytes.
#[verifier::external_body]
fn sha1_digest(data: &[u8]) -> (r: Vec<u8>)
    ensures
        r@ == spec_sha1(data@),
        r@.len() == 20,
{
    <sha1::Sha1 as sha1::Digest>::digest(data).to_vec()
}

/// The lower-case hexadecimal digit of `n`.
pub open spec fn hex_digit(n: int) -> char {
    if n < 10 {
        (48 + n) as char
    } else {
        (87 + n) as char
    }
}

/// The bytes in lower-case hexadecimal, two digits each, the high one first.
pub open spec fn hex_text(b: Seq<u8>) -> Seq<char>
    decreases b.len(),
{
    if b.len() == 0 {
        Seq::empty()
    } else {
        hex_text(b.drop_last()).push(hex_digit(b.last() as int / 16)).push(hex_digit(b.last() as int % 16))
    }
}

fn hex_char(n: u8) -> (r: char)
    requires
        n < 16,
    ensures
        r == hex_digit(n as int),
{
    if n < 10 {
        (48 + n) as char
    } else {
        (87 + n) as char
    }
}

/// The SHA-1 checksum of `data`, in lower-case hexadecimal.
pub fn calculate_checksum(data: &[u8]) -> (r: String)
    ensures
        r@ == hex_text(spec_sha1(data@)),
{
    let digest = sha1_digest(data);
    let mut out = String::new();
    let mut i: usize = 0;
    proof {
        reveal_strlit("");
        assert(digest@.take(0) =~= Seq::<u8>::empty());
    }
    while i < digest.len()
        invariant
            i <= digest.len(),
            out@ == hex_text(digest@.take(i as int)),
        decreases digest.len() - i,
    {
        let b = digest[i];
        push_char(&mut out, hex_char(b / 16));
        push_char(&mut out, hex_char(b % 16));
        proof {
            assert(digest@.take(i + 1).drop_last() =~= digest@.take(i as int));
        }
        i += 1;
    }
    proof {
        assert(digest@.take(digest.len() as int) =~= digest@);
    }
    out
}

/// Why installing a package failed.
#[derive(Debug, PartialEq, Eq)]
pub enum InstallerError {
    /// The downloaded file could not be read for its checksum.
    ChecksumIOError { message: String },
    /// The checksum calculated for a file is not the one expected.
    ChecksumMismatch { path: String, expected: String, calculated: String },
    /// The installation was cancelled before completion.
    Canceled { path: String },
    /// No archive of the package suits the platform.
    ArchiveSelectionFailed(String, BitSizeType),
    /// An archive url could not be parsed.
    UrlParseError { url: String, err: String },
    /// A request could not be sent.
    FailedToSendRequest { url: String, source: String },
    /// The server answered a request with an error.
    BadServerResponse { url: String, source: String },
    /// The download file could not be created.
    FailedToCreateDownloadTmp(String, String),
    /// The download file could not be opened.
    FailedToOpenDownloadTmp(String, String),
    /// Not all bytes read from the network reached the file.
    IOCopyFailed(usize, usize),
    /// The downloaded bytes could not be flushed to disk.
    IOFlushFailed { path: String, package: String, source: String },
    /// The archive could not be unpacked.
    UnzipError(String),
    /// Any other failure.
    Other(String),
    /// The request saw no activity for too long.
    RequestTimedOut(String),
}

/// Checks the SHA-1 checksum of the downloaded file at `path`, whose bytes
/// are `data`, against the one the repository lists.
pub fn verify_checksum(path: &str, expected: &str, data: &[u8]) -> (r: Result<(), InstallerError>)
    ensures
        hex_text(spec_sha1(data@)) == expected@ ==> r is Ok,
        hex_text(spec_sha1(data@)) != expected@ ==> (r matches Err(
            InstallerError::ChecksumMismatch { path: p, expected: e, calculated: c },
        ) && p@ == path@ && e@ == expected@ && c@ == hex_text(spec_sha1(data@))),
{
    let calculated = calculate_checksum(data);
    if str_eq(calculated.as_str(), expected) {
        Ok(())
    } else {
        Err(
            InstallerError::ChecksumMismatch {
                path: crate::strs::str_to_string(path),
                expected: crate::strs::str_to_string(expected),
                calculated,
            },
        )
    }
}

/// The URL to download an archive from, given what `Url::parse` makes of
/// the archive's URL and what `Url::join` makes of it against the
/// repository's base URL: a full `http://` or `https://` URL stands as it
/// is, anything else is taken relative to the base.
pub open spec fn spec_archive_url(
    url: Seq<char>,
    parsed: Option<(Seq<char>, Option<Seq<char>>, Seq<char>)>,
    joined: Option<Seq<char>>,
) -> Option<Seq<char>> {
    if starts_with(url, "http://"@) || starts_with(url, "https://"@) {
        match parsed {
            Some(p) => Some(p.0),
            None => None,
        }
    } else {
        joined
    }
}

/// The URL to download the archive at `url` from, for the repository whose
/// base URL is `base`; `Err` where the URL does not parse or join.
pub fn archive_url(base: &str, url: &str) -> (r: Result<String, ()>)
    ensures
        match spec_archive_url(url@, url_parsed(url@), url_joined(base@, url@)) {
            Some(t) => r matches Ok(x) && x@ == t,
            None => r is Err,
        },
{
    if text_starts_with(url, "http://") || text_starts_with(url, "https://") {
        match parse_url(url) {
            Some((t, _, _)) => Ok(t),
            None => Err(()),
        }
    } else {
        match join_url(base, url) {
            Some(t) => Ok(t),
            None => Err(()),
        }
    }
}

} // verus!
