//! The install/remove/update engine. It owns the in-memory ledger and
//! cache and makes every decision; the outside work (fetching a listing,
//! downloading an archive, extracting, running a lifecycle script, writing
//! the ledger file) is handed to the caller as an [`Action`], and the
//! caller reports what happened through the matching `on_*` method. The
//! caller performs actions exactly as stated and feeds back the event for
//! the action it just performed.

use vstd::prelude::*;
use vstd::string::StringExecFns;

verus! {

use crate::Error;
use crate::acquire::{sha256_hex_of, verify_download};
use crate::config::Config;
use crate::package::{Dependency, Package};
use crate::repo::Repository;
use crate::semver::{SemVer, VersionOrder, find_from, spec_cmp, spec_parse, find_char_from};
use vstd::string::StrSliceExecFns;

/// One piece of outside work the engine asks its caller to perform.
#[derive(Debug, PartialEq, Eq)]
pub enum Action {
    /// Check that the archive at `path` exists, copy it into the temp
    /// directory if it is not already there, and report its file name;
    /// report failure when the path does not exist.
    PrepareLocal { path: String },
    /// Fetch and parse the remote listing of the source at `url`.
    FetchListing { url: String },
    /// Download `<url>/<name>.star` into the temp directory and report the
    /// downloaded bytes.
    DownloadArchive { url: String, name: String },
    /// Unpack the archive file `archive` in the temp directory into the
    /// directory `dir_name` there, creating it if absent.
    Extract { dir_name: String, archive: String },
    /// Parse the manifest file inside the extracted directory.
    ReadManifest { dir_name: String },
    /// If an install script exists at the extraction root, start it; its
    /// exit status is not inspected.
    RunInstallScript { dir_name: String },
    /// If a removal script exists at the extraction root, copy it into the
    /// stored scripts directory under the package's name.
    SaveRemoveScript { dir_name: String },
    /// Delete the extraction directory and the archive file.
    Cleanup { dir_name: String, archive: String },
    /// If a stored removal script exists for `name`, start it; its exit
    /// status is not inspected.
    RunRemoveScript { name: String },
    /// Persist the engine's ledger to the ledger file.
    SaveLedger,
    /// The operation is complete.
    Done,
}

/// Where a single package's installation stands.
#[derive(Debug, PartialEq, Eq, Structural)]
pub enum Phase {
    PreparingLocal,
    Locating,
    Fetching,
    Extracting,
    ReadingManifest,
    ResolvingDeps,
    RunningInstallScript,
    SavingRemoveScript,
    CleaningUp,
    Committing,
}

/// One in-flight installation; nested entries are dependency installs.
pub struct Frame {
    pub name: String,
    pub archive: String,
    pub local: bool,
    pub force: bool,
    pub src_idx: usize,
    pub manifest: Option<Package>,
    pub dep_idx: usize,
    pub phase: Phase,
}

/// What the engine as a whole is doing.
pub enum Mode {
    Idle,
    Installing,
    RunningRemove { name: String },
    CommittingRemove,
}

/// The engine's state: the two stores, the settings it was started with,
/// a model of what it has staged in the temp directory, and the stack of
/// in-flight installations.
pub struct Engine {
    pub ledger: Repository,
    pub cache: Repository,
    pub sources: Vec<String>,
    pub keep_package_files: bool,
    pub tmp_archives: Vec<String>,
    pub tmp_dirs: Vec<String>,
    pub stack: Vec<Frame>,
    pub mode: Mode,
}

/// How a dependency declaration stands against the two stores.
#[derive(Clone, Copy, Debug, PartialEq, Eq, Structural)]
pub enum DepDecision {
    /// Installed at a version at least the declared minimum.
    Satisfied,
    /// Not satisfied, but the cache offers a sufficient version.
    Installable,
    /// Neither store satisfies it.
    Unresolved,
    /// A version string involved does not parse.
    BadVersion,
}

/// Version `v` is at least `min`; meaningful only when both parse.
pub open spec fn version_at_least(v: Seq<char>, min: Seq<char>) -> bool {
    !(spec_cmp(spec_parse(v)->Some_0, spec_parse(min)->Some_0) is Older)
}

pub open spec fn dep_cache_decision(cache: Repository, d: Dependency) -> DepDecision {
    match cache.spec_get(d.name@) {
        Option::Some(p) => {
            if spec_parse(p.version@) is None || spec_parse(d.min_version@) is None {
                DepDecision::BadVersion
            } else if version_at_least(p.version@, d.min_version@) {
                DepDecision::Installable
            } else {
                DepDecision::Unresolved
            }
        },
        Option::None => DepDecision::Unresolved,
    }
}

/// The dependency rule: the ledger satisfies when it holds the name at a
/// sufficient version; otherwise the cache may offer one to install.
pub open spec fn dep_decision(ledger: Repository, cache: Repository, d: Dependency) -> DepDecision {
    match ledger.spec_get(d.name@) {
        Option::Some(p) => {
            if spec_parse(p.version@) is None || spec_parse(d.min_version@) is None {
                DepDecision::BadVersion
            } else if version_at_least(p.version@, d.min_version@) {
                DepDecision::Satisfied
            } else {
                dep_cache_decision(cache, d)
            }
        },
        Option::None => dep_cache_decision(cache, d),
    }
}

fn cache_lookup(cache: &Repository, dependency: &Dependency) -> (r: DepDecision)
    ensures
        r == dep_cache_decision(*cache, *dependency),
{
    match cache.get_package(dependency.name.clone()) {
        Option::Some(p) => {
            let pv = SemVer::from_string(p.version.clone());
            let mv = SemVer::from_string(dependency.min_version.clone());
            match (pv, mv) {
                (Result::Ok(a), Result::Ok(b)) => match a.compare(&b) {
                    VersionOrder::Older => DepDecision::Unresolved,
                    VersionOrder::Equal => DepDecision::Installable,
                    VersionOrder::Newer => DepDecision::Installable,
                },
                _ => DepDecision::BadVersion,
            }
        },
        Option::None => DepDecision::Unresolved,
    }
}

/// Where `dependency` stands: satisfied by the ledger, installable from
/// the cache, unresolved, or blocked by an unparseable version.
pub fn check_dependency(ledger: &Repository, cache: &Repository, dependency: &Dependency) -> (r:
    DepDecision)
    ensures
        r == dep_decision(*ledger, *cache, *dependency),
{
    match ledger.get_package(dependency.name.clone()) {
        Option::Some(p) => {
            let pv = SemVer::from_string(p.version.clone());
            let mv = SemVer::from_string(dependency.min_version.clone());
            match (pv, mv) {
                (Result::Ok(a), Result::Ok(b)) => match a.compare(&b) {
                    VersionOrder::Older => cache_lookup(cache, dependency),
                    VersionOrder::Equal => DepDecision::Satisfied,
                    VersionOrder::Newer => DepDecision::Satisfied,
                },
                _ => DepDecision::BadVersion,
            }
        },
        Option::None => cache_lookup(cache, dependency),
    }
}

/// The outcome of walking a manifest's dependency list from a given
/// position: all satisfied, the next one to install, or a failure.
pub enum DepScanResult {
    AllSatisfied,
    Install(int),
    Fail(Error),
}

pub open spec fn dep_scan(
    ledger: Repository,
    cache: Repository,
    deps: Seq<Dependency>,
    i: int,
) -> DepScanResult
    decreases deps.len() - i,
{
    if i < 0 || i >= deps.len() {
        DepScanResult::AllSatisfied
    } else {
        match dep_decision(ledger, cache, deps[i]) {
            DepDecision::Satisfied => dep_scan(ledger, cache, deps, i + 1),
            DepDecision::Installable => {
                if ledger.spec_contains(deps[i].name@) {
                    DepScanResult::Fail(Error::DependencyUnresolved)
                } else {
                    DepScanResult::Install(i)
                }
            },
            DepDecision::Unresolved => DepScanResult::Fail(Error::DependencyUnresolved),
            DepDecision::BadVersion => DepScanResult::Fail(Error::FormatError),
        }
    }
}

/// A failure inside a dependency install surfaces at the top as an
/// unresolved dependency; only a top-level failure keeps its own error.
pub open spec fn wrap_fail(depth: int, e: Error) -> Error {
    if depth > 1 {
        Error::DependencyUnresolved
    } else {
        e
    }
}

/// The working name of a local archive: the file name up to its first dot.
pub open spec fn stem_of(s: Seq<char>) -> Seq<char> {
    match find_from(s, 0, '.') {
        Option::Some(i) => s.subrange(0, i),
        Option::None => s,
    }
}

fn stem(s: &String) -> (r: String)
    ensures
        r@ == stem_of(s@),
{
    match find_char_from(s.as_str(), 0, '.') {
        Option::Some(i) => s.as_str().substring_char(0, i).to_owned(),
        Option::None => s.clone(),
    }
}

/// The first occurrence of `s` taken out; everything else kept in order.
pub open spec fn strs_remove_first(vs: Seq<String>, s: Seq<char>) -> Seq<String>
    decreases vs.len(),
{
    if vs.len() == 0 {
        vs
    } else if vs[0]@ == s {
        vs.drop_first()
    } else {
        seq![vs[0]] + strs_remove_first(vs.drop_first(), s)
    }
}

proof fn lemma_strs_remove_at(vs: Seq<String>, s: Seq<char>, i: int)
    requires
        0 <= i < vs.len(),
        vs[i]@ == s,
        forall|j: int| 0 <= j < i ==> vs[j]@ != s,
    ensures
        strs_remove_first(vs, s) == vs.remove(i),
    decreases i,
{
    if i == 0 {
        assert(vs.drop_first() =~= vs.remove(0));
    } else {
        assert forall|j: int| 0 <= j < i - 1 implies vs.drop_first()[j]@ != s by {
            assert(vs.drop_first()[j] == vs[j + 1]);
        }
        assert(vs.drop_first()[i - 1] == vs[i]);
        lemma_strs_remove_at(vs.drop_first(), s, i - 1);
        assert(seq![vs[0]] + vs.drop_first().remove(i - 1) =~= vs.remove(i));
    }
}

proof fn lemma_strs_remove_absent(vs: Seq<String>, s: Seq<char>)
    requires
        forall|j: int| 0 <= j < vs.len() ==> vs[j]@ != s,
    ensures
        strs_remove_first(vs, s) == vs,
    decreases vs.len(),
{
    if vs.len() > 0 {
        assert forall|j: int| 0 <= j < vs.drop_first().len() implies vs.drop_first()[j]@ != s by {
            assert(vs.drop_first()[j] == vs[j + 1]);
        }
        lemma_strs_remove_absent(vs.drop_first(), s);
        assert(seq![vs[0]] + vs.drop_first() =~= vs);
    }
}

fn remove_first_str(v: &mut Vec<String>, name: &String)
    ensures
        final(v)@ == strs_remove_first(old(v)@, name@),
{
    let n = v.len();
    let mut i: usize = 0;
    while i < n
        invariant
            i <= n,
            n == v@.len(),
            v@ == old(v)@,
            forall|j: int| 0 <= j < i ==> v@[j]@ != name@,
        decreases n - i,
    {
        if v[i] == *name {
            proof {
                lemma_strs_remove_at(v@, name@, i as int);
            }
            v.remove(i);
            return ;
        }
        i = i + 1;
    }
    proof {
        lemma_strs_remove_absent(v@, name@);
    }
}

impl Engine {
    pub open spec fn top(&self) -> Frame {
        self.stack@.last()
    }

    pub open spec fn depth(&self) -> int {
        self.stack@.len() as int
    }

    /// What must hold of one in-flight frame for the machine to proceed.
    pub open spec fn frame_inv(&self, f: Frame) -> bool {
        &&& match f.phase {
            Phase::PreparingLocal => f.local,
            Phase::Locating => !f.local && f.src_idx < self.sources@.len()
                && self.cache.spec_contains(f.name@),
            Phase::Fetching => !f.local && f.src_idx < self.sources@.len()
                && self.cache.spec_contains(f.name@),
            Phase::ResolvingDeps => f.manifest is Some && f.dep_idx
                <= f.manifest->Some_0.dependencies@.len(),
            Phase::RunningInstallScript => f.manifest is Some,
            Phase::SavingRemoveScript => f.manifest is Some,
            Phase::CleaningUp => f.manifest is Some,
            _ => true,
        }
    }

    /// The engine's own well-formedness: sound stores, a stack exactly in
    /// installing mode, every frame consistent with its phase, and every
    /// frame below the top parked on the dependency it is waiting for.
    pub open spec fn inv(&self) -> bool {
        &&& self.ledger.wf()
        &&& self.cache.wf()
        &&& (self.mode is Installing <==> self.stack@.len() > 0)
        &&& forall|i: int| 0 <= i < self.stack@.len() ==> self.frame_inv(#[trigger] self.stack@[i])
        &&& forall|i: int|
            0 <= i < self.stack@.len() - 1 ==> (#[trigger] self.stack@[i]).phase
                is ResolvingDeps && self.stack@[i].manifest is Some && self.stack@[i].dep_idx
                < self.stack@[i].manifest->Some_0.dependencies@.len()
    }

    /// A fresh engine over the given stores and settings.
    pub fn new(ledger: Repository, cache: Repository, config: Config) -> (e: Engine)
        requires
            ledger.wf(),
            cache.wf(),
        ensures
            e.inv(),
            e.mode is Idle,
            e.ledger == ledger,
            e.cache == cache,
            e.sources == config.repositories,
            e.keep_package_files == config.keep_package_files,
            e.tmp_archives@.len() == 0,
            e.tmp_dirs@.len() == 0,
    {
        Engine {
            ledger,
            cache,
            sources: config.repositories,
            keep_package_files: config.keep_package_files,
            tmp_archives: Vec::new(),
            tmp_dirs: Vec::new(),
            stack: Vec::new(),
            mode: Mode::Idle,
        }
    }

    /// Aborts the whole operation; below the top frame the error surfaces
    /// as an unresolved dependency.
    fn fail(&mut self, e: Error) -> (r: Error)
        requires
            old(self).inv(),
            old(self).mode is Installing,
        ensures
            final(self).inv(),
            final(self).mode is Idle,
            final(self).stack@.len() == 0,
            final(self).ledger == old(self).ledger,
            final(self).cache == old(self).cache,
            final(self).sources == old(self).sources,
            final(self).keep_package_files == old(self).keep_package_files,
            final(self).tmp_archives == old(self).tmp_archives,
            final(self).tmp_dirs == old(self).tmp_dirs,
            r == wrap_fail(old(self).depth(), e),
    {
        let deep = self.stack.len() > 1;
        self.stack.clear();
        self.mode = Mode::Idle;
        if deep {
            Error::DependencyUnresolved
        } else {
            e
        }
    }

    /// Starts installing `package` from a repository, or from a local
    /// archive path when `local` is set. A package already in the ledger
    /// is refused unless `force` is set. A remote install must already be
    /// known to the cache, and needs at least one configured source.
    pub fn install_package(&mut self, package: String, local: bool, force: bool) -> (r: Result<
        Action,
        Error,
    >)
        requires
            old(self).inv(),
            old(self).mode is Idle,
        ensures
            final(self).inv(),
            final(self).ledger == old(self).ledger,
            final(self).cache == old(self).cache,
            final(self).tmp_archives == old(self).tmp_archives,
            final(self).tmp_dirs == old(self).tmp_dirs,
            r is Err ==> *final(self) == *old(self),
            (old(self).ledger.spec_contains(package@) && !force) ==> r == Result::<
                Action,
                Error,
            >::Err(Error::AlreadyInstalled),
            (!(old(self).ledger.spec_contains(package@) && !force) && local) ==> (r == Result::<
                Action,
                Error,
            >::Ok(Action::PrepareLocal { path: package }) && final(self).mode is Installing
                && final(self).stack@.len() == 1 && final(self).top().phase is PreparingLocal
                && final(self).top().local && final(self).top().force == force),
            (!(old(self).ledger.spec_contains(package@) && !force) && !local && !old(self).cache.spec_contains(package@)) ==> r == Result::<Action, Error>::Err(Error::NotFound),
            (!(old(self).ledger.spec_contains(package@) && !force) && !local && old(self).cache.spec_contains(package@) && old(self).sources@.len() == 0) ==> r == Result::<
                Action,
                Error,
            >::Err(Error::NotFound),
            (!(old(self).ledger.spec_contains(package@) && !force) && !local && old(self).cache.spec_contains(package@) && old(self).sources@.len() > 0) ==> (r == Result::<
                Action,
                Error,
            >::Ok(Action::FetchListing { url: old(self).sources@[0] }) && final(self).mode is Installing && final(self).stack@.len() == 1 && final(self).top().phase is Locating && final(self).top().name == package && final(self).top().src_idx == 0 && !final(self).top().local && final(self).top().force == force
                && final(self).top().archive@ == package@ + ".star"@),
    {
        if self.ledger.get_package(package.clone()).is_some() && !force {
            return Result::Err(Error::AlreadyInstalled);
        }
        if local {
            let frame = Frame {
                name: package.clone(),
                archive: String::new(),
                local: true,
                force,
                src_idx: 0,
                manifest: Option::None,
                dep_idx: 0,
                phase: Phase::PreparingLocal,
            };
            self.stack.push(frame);
            self.mode = Mode::Installing;
            return Result::Ok(Action::PrepareLocal { path: package });
        }
        if self.cache.get_package(package.clone()).is_none() {
            return Result::Err(Error::NotFound);
        }
        if self.sources.len() == 0 {
            return Result::Err(Error::NotFound);
        }
        let url = self.sources[0].clone();
        let archive = package.clone().concat(".star");
        let frame = Frame {
            name: package.clone(),
            archive,
            local: false,
            force,
            src_idx: 0,
            manifest: Option::None,
            dep_idx: 0,
            phase: Phase::Locating,
        };
        self.stack.push(frame);
        self.mode = Mode::Installing;
        Result::Ok(Action::FetchListing { url })
    }

    /// Takes the result of fetching one source's listing: the first source
    /// that lists the package wins; a source without it passes to the
    /// next; a fetch failure aborts; no source left is a missing package.
    pub fn on_listing(&mut self, listing: Option<Repository>) -> (r: Result<Action, Error>)
        requires
            old(self).inv(),
            old(self).mode is Installing,
            old(self).top().phase is Locating,
            (listing matches Option::Some(rep) ==> rep.wf()),
        ensures
            final(self).inv(),
            final(self).ledger == old(self).ledger,
            final(self).cache == old(self).cache,
            final(self).tmp_archives == old(self).tmp_archives,
            final(self).tmp_dirs == old(self).tmp_dirs,
            listing is None ==> (final(self).mode is Idle && r == Result::<Action, Error>::Err(
                wrap_fail(old(self).depth(), Error::NetworkError),
            )),
            (listing matches Option::Some(rep) && rep.spec_contains(old(self).top().name@)) ==> (r
                == Result::<Action, Error>::Ok(
                Action::DownloadArchive {
                    url: old(self).sources@[old(self).top().src_idx as int],
                    name: old(self).top().name,
                },
            ) && final(self).mode is Installing && final(self).stack@.len() == old(self).depth()
                && final(self).top().phase is Fetching && final(self).top().name == old(self).top().name && final(self).top().archive == old(self).top().archive),
            (listing matches Option::Some(rep) && !rep.spec_contains(old(self).top().name@) && old(self).top().src_idx + 1 < old(self).sources@.len()) ==> (r == Result::<Action, Error>::Ok(
                Action::FetchListing { url: old(self).sources@[old(self).top().src_idx + 1] },
            ) && final(self).mode is Installing && final(self).stack@.len() == old(self).depth()
                && final(self).top().phase is Locating && final(self).top().src_idx == old(self).top().src_idx + 1 && final(self).top().name == old(self).top().name),
            (listing matches Option::Some(rep) && !rep.spec_contains(old(self).top().name@) && old(self).top().src_idx + 1 >= old(self).sources@.len()) ==> (final(self).mode is Idle && r
                == Result::<Action, Error>::Err(wrap_fail(old(self).depth(), Error::NotFound))),
    {
        match listing {
            Option::None => Result::Err(self.fail(Error::NetworkError)),
            Option::Some(rep) => {
                let ghost pre = *self;
                let mut f = self.stack.pop().unwrap();
                proof {
                    assert(pre.frame_inv(pre.stack@[pre.stack@.len() - 1]));
                }
                if rep.get_package(f.name.clone()).is_some() {
                    let url = self.sources[f.src_idx].clone();
                    let name = f.name.clone();
                    f.phase = Phase::Fetching;
                    self.stack.push(f);
                    proof {
                        assert(self.stack@.drop_last() =~= pre.stack@.drop_last());
                        assert forall|i: int| 0 <= i < self.stack@.len() implies self.frame_inv(
                            #[trigger] self.stack@[i],
                        ) by {
                            if i < self.stack@.len() - 1 {
                                assert(self.stack@[i] == pre.stack@[i]);
                            }
                        }
                    }
                    Result::Ok(Action::DownloadArchive { url, name })
                } else {
                    let n_src = self.sources.len();
                    let next = f.src_idx + 1;
                    if next < n_src {
                        f.src_idx = next;
                        let url = self.sources[next].clone();
                        self.stack.push(f);
                        proof {
                            assert(self.stack@.drop_last() =~= pre.stack@.drop_last());
                            assert forall|i: int|
                                0 <= i < self.stack@.len() implies self.frame_inv(
                                #[trigger] self.stack@[i],
                            ) by {
                                if i < self.stack@.len() - 1 {
                                    assert(self.stack@[i] == pre.stack@[i]);
                                }
                            }
                        }
                        Result::Ok(Action::FetchListing { url })
                    } else {
                        self.stack.push(f);
                        proof {
                            assert(self.stack@.drop_last() =~= pre.stack@.drop_last());
                            assert forall|i: int|
                                0 <= i < self.stack@.len() implies self.frame_inv(
                                #[trigger] self.stack@[i],
                            ) by {
                                if i < self.stack@.len() - 1 {
                                    assert(self.stack@[i] == pre.stack@[i]);
                                }
                            }
                        }
                        Result::Err(self.fail(Error::NotFound))
                    }
                }
            },
        }
    }

    /// Takes the downloaded archive bytes. With a checksum recorded in the
    /// cache the bytes must hash to it; without one no verification takes
    /// place. On success the archive is staged and extraction is next.
    pub fn on_archive(&mut self, bytes: Option<Vec<u8>>) -> (r: Result<Action, Error>)
        requires
            old(self).inv(),
            old(self).mode is Installing,
            old(self).top().phase is Fetching,
        ensures
            final(self).inv(),
            final(self).ledger == old(self).ledger,
            final(self).cache == old(self).cache,
            final(self).tmp_dirs == old(self).tmp_dirs,
            bytes is None ==> (final(self).mode is Idle && r == Result::<Action, Error>::Err(
                wrap_fail(old(self).depth(), Error::NetworkError),
            ) && final(self).tmp_archives == old(self).tmp_archives),
            bytes matches Option::Some(b) ==> ({
                let entry = old(self).cache.spec_get(old(self).top().name@)->Some_0;
                match entry.checksum {
                    Option::Some(c) => {
                        if c@ == sha256_hex_of(b@) {
                            final(self).archive_accepted(*old(self), r)
                        } else {
                            &&& final(self).mode is Idle
                            &&& r == Result::<Action, Error>::Err(
                                wrap_fail(old(self).depth(), Error::ChecksumMismatch),
                            )
                            &&& final(self).tmp_archives == old(self).tmp_archives
                        }
                    },
                    Option::None => final(self).archive_accepted(*old(self), r),
                }
            }),
    {
        match bytes {
            Option::None => Result::Err(self.fail(Error::NetworkError)),
            Option::Some(b) => {
                let ghost pre = *self;
                let mut f = self.stack.pop().unwrap();
                let check: Result<(), Error> = match self.cache.get_package(f.name.clone()) {
                    Option::Some(p) => verify_download(&p.checksum, &b),
                    Option::None => {
                        proof {
                            assert(false);
                        }
                        Result::Err(Error::NotFound)
                    },
                };
                match check {
                    Result::Err(unused) => {
                        self.stack.push(f);
                        proof {
                            assert(self.stack@.drop_last() =~= pre.stack@.drop_last());
                            assert forall|i: int|
                                0 <= i < self.stack@.len() implies self.frame_inv(
                                #[trigger] self.stack@[i],
                            ) by {
                                if i < self.stack@.len() - 1 {
                                    assert(self.stack@[i] == pre.stack@[i]);
                                }
                            }
                            assert forall|i: int|
                                0 <= i < self.stack@.len() - 1 implies ((
                            #[trigger] self.stack@[i]).phase is ResolvingDeps
                                && self.stack@[i].manifest is Some && self.stack@[i].dep_idx
                                < self.stack@[i].manifest->Some_0.dependencies@.len()) by {
                                assert(self.stack@[i] == pre.stack@[i]);
                            }
                        }
                        Result::Err(self.fail(Error::ChecksumMismatch))
                    },
                    Result::Ok(unit) => {
                        self.tmp_archives.push(f.archive.clone());
                        let dir_name = f.name.clone();
                        let archive = f.archive.clone();
                        f.phase = Phase::Extracting;
                        self.stack.push(f);
                        proof {
                            assert(self.stack@.drop_last() =~= pre.stack@.drop_last());
                            assert forall|i: int|
                                0 <= i < self.stack@.len() implies self.frame_inv(
                                #[trigger] self.stack@[i],
                            ) by {
                                if i < self.stack@.len() - 1 {
                                    assert(self.stack@[i] == pre.stack@[i]);
                                }
                            }
                        }
                        Result::Ok(Action::Extract { dir_name, archive })
                    },
                }
            },
        }
    }

    /// The download was accepted: the archive is staged in the temp model
    /// and the next step is extraction.
    pub open spec fn archive_accepted(&self, pre: Engine, r: Result<Action, Error>) -> bool {
        &&& r == Result::<Action, Error>::Ok(
            Action::Extract { dir_name: pre.top().name, archive: pre.top().archive },
        )
        &&& self.mode is Installing
        &&& self.stack@.len() == pre.stack@.len()
        &&& self.top().phase is Extracting
        &&& self.top().name == pre.top().name
        &&& self.top().archive == pre.top().archive
        &&& self.tmp_archives@ == pre.tmp_archives@.push(pre.top().archive)
    }

    /// Takes the staged local archive's file name; the package's working
    /// name is the file name up to its first dot.
    pub fn on_local_prepared(&mut self, file_name: Option<String>) -> (r: Result<Action, Error>)
        requires
            old(self).inv(),
            old(self).mode is Installing,
            old(self).top().phase is PreparingLocal,
        ensures
            final(self).inv(),
            final(self).ledger == old(self).ledger,
            final(self).cache == old(self).cache,
            final(self).tmp_dirs == old(self).tmp_dirs,
            file_name is None ==> (final(self).mode is Idle && r == Result::<Action, Error>::Err(
                wrap_fail(old(self).depth(), Error::NotFound),
            ) && final(self).tmp_archives == old(self).tmp_archives),
            file_name matches Option::Some(fname) ==> (final(self).mode is Installing && final(self).stack@.len() == old(self).depth() && final(self).top().phase is Extracting && final(self).top().name@ == stem_of(fname@) && final(self).top().archive == fname && final(self).tmp_archives@ == old(self).tmp_archives@.push(fname) && (r matches Result::Ok(a)
                && a matches Action::Extract { dir_name, archive } && dir_name@ == stem_of(fname@)
                && archive == fname)),
    {
        match file_name {
            Option::None => Result::Err(self.fail(Error::NotFound)),
            Option::Some(fname) => {
                let ghost pre = *self;
                let mut f = self.stack.pop().unwrap();
                let working = stem(&fname);
                let dir_name = working.clone();
                f.name = working;
                f.archive = fname.clone();
                self.tmp_archives.push(fname.clone());
                f.phase = Phase::Extracting;
                self.stack.push(f);
                proof {
                    assert(self.stack@.drop_last() =~= pre.stack@.drop_last());
                    assert forall|i: int| 0 <= i < self.stack@.len() implies self.frame_inv(
                        #[trigger] self.stack@[i],
                    ) by {
                        if i < self.stack@.len() - 1 {
                            assert(self.stack@[i] == pre.stack@[i]);
                        }
                    }
                }
                Result::Ok(Action::Extract { dir_name, archive: fname })
            },
        }
    }

    /// Takes the result of unpacking the archive: the extraction directory
    /// is staged and the manifest inside it is read next.
    pub fn on_extracted(&mut self, ok: bool) -> (r: Result<Action, Error>)
        requires
            old(self).inv(),
            old(self).mode is Installing,
            old(self).top().phase is Extracting,
        ensures
            final(self).inv(),
            final(self).ledger == old(self).ledger,
            final(self).cache == old(self).cache,
            final(self).tmp_archives == old(self).tmp_archives,
            !ok ==> (final(self).mode is Idle && r == Result::<Action, Error>::Err(
                wrap_fail(old(self).depth(), Error::IoError),
            ) && final(self).tmp_dirs == old(self).tmp_dirs),
            ok ==> (r == Result::<Action, Error>::Ok(
                Action::ReadManifest { dir_name: old(self).top().name },
            ) && final(self).mode is Installing && final(self).stack@.len() == old(self).depth()
                && final(self).top().phase is ReadingManifest && final(self).top().name == old(self).top().name && final(self).top().archive == old(self).top().archive && final(self).tmp_dirs@ == old(self).tmp_dirs@.push(old(self).top().name)),
    {
        if !ok {
            return Result::Err(self.fail(Error::IoError));
        }
        let ghost pre = *self;
        let mut f = self.stack.pop().unwrap();
        self.tmp_dirs.push(f.name.clone());
        let dir_name = f.name.clone();
        f.phase = Phase::ReadingManifest;
        self.stack.push(f);
        proof {
            assert(self.stack@.drop_last() =~= pre.stack@.drop_last());
            assert forall|i: int| 0 <= i < self.stack@.len() implies self.frame_inv(
                #[trigger] self.stack@[i],
            ) by {
                if i < self.stack@.len() - 1 {
                    assert(self.stack@[i] == pre.stack@[i]);
                }
            }
        }
        Result::Ok(Action::ReadManifest { dir_name })
    }

    /// What resuming the dependency walk at `start` leads to: every
    /// dependency satisfied moves the frame on to its install script; one
    /// installable from the cache pushes a nested install; anything else
    /// aborts the whole operation.
    pub open spec fn scan_step_post(
        &self,
        pre: Engine,
        p: Package,
        start: int,
        r: Result<Action, Error>,
    ) -> bool {
        match dep_scan(pre.ledger, pre.cache, p.dependencies@, start) {
            DepScanResult::AllSatisfied => {
                &&& r == Result::<Action, Error>::Ok(
                    Action::RunInstallScript { dir_name: pre.top().name },
                )
                &&& self.mode is Installing
                &&& self.stack@.len() == pre.stack@.len()
                &&& self.top().phase is RunningInstallScript
                &&& self.top().name == pre.top().name
                &&& self.top().archive == pre.top().archive
                &&& self.top().manifest == Option::Some(p)
            },
            DepScanResult::Install(i) => {
                if pre.sources@.len() == 0 {
                    &&& r == Result::<Action, Error>::Err(Error::DependencyUnresolved)
                    &&& self.mode is Idle
                    &&& self.stack@.len() == 0
                } else {
                    &&& r == Result::<Action, Error>::Ok(
                        Action::FetchListing { url: pre.sources@[0] },
                    )
                    &&& self.mode is Installing
                    &&& self.stack@.len() == pre.stack@.len() + 1
                    &&& self.top().phase is Locating
                    &&& self.top().name == p.dependencies@[i].name
                    &&& self.top().src_idx == 0
                    &&& !self.top().local
                    &&& !self.top().force
                    &&& self.stack@[self.stack@.len() - 2].dep_idx == i
                    &&& self.stack@[self.stack@.len() - 2].manifest == Option::Some(p)
                    &&& self.stack@[self.stack@.len() - 2].name == pre.top().name
                    &&& self.stack@[self.stack@.len() - 2].archive == pre.top().archive
                }
            },
            DepScanResult::Fail(e) => {
                &&& r == Result::<Action, Error>::Err(wrap_fail(pre.stack@.len() as int, e))
                &&& self.mode is Idle
                &&& self.stack@.len() == 0
            },
        }
    }

    /// Walks the manifest's dependency list from the frame's position.
    fn advance_deps(&mut self) -> (r: Result<Action, Error>)
        requires
            old(self).inv(),
            old(self).mode is Installing,
            old(self).top().phase is ResolvingDeps,
        ensures
            final(self).inv(),
            final(self).ledger == old(self).ledger,
            final(self).cache == old(self).cache,
            final(self).tmp_archives == old(self).tmp_archives,
            final(self).tmp_dirs == old(self).tmp_dirs,
            final(self).scan_step_post(
                *old(self),
                old(self).top().manifest->Some_0,
                old(self).top().dep_idx as int,
                r,
            ),
    {
        let ghost pre = *self;
        let ghost p = old(self).top().manifest->Some_0;
        let mut f = self.stack.pop().unwrap();
        let num_deps = match &f.manifest {
            Option::Some(m) => m.dependencies.len(),
            Option::None => 0,
        };
        while f.dep_idx < num_deps
            invariant
                pre == *old(self),
                self.ledger == pre.ledger,
                self.cache == pre.cache,
                self.sources == pre.sources,
                self.keep_package_files == pre.keep_package_files,
                self.tmp_archives == pre.tmp_archives,
                self.tmp_dirs == pre.tmp_dirs,
                self.mode == pre.mode,
                pre.mode is Installing,
                pre.inv(),
                self.stack@ == pre.stack@.drop_last(),
                f.manifest == Option::Some(p),
                p == pre.top().manifest->Some_0,
                num_deps == p.dependencies@.len(),
                f.dep_idx <= num_deps,
                f.name == pre.top().name,
                f.archive == pre.top().archive,
                f.local == pre.top().local,
                f.force == pre.top().force,
                f.phase == pre.top().phase,
                pre.top().phase is ResolvingDeps,
                dep_scan(pre.ledger, pre.cache, p.dependencies@, pre.top().dep_idx as int)
                    == dep_scan(pre.ledger, pre.cache, p.dependencies@, f.dep_idx as int),
            decreases num_deps - f.dep_idx,
        {
            let dcl = match &f.manifest {
                Option::Some(m) => {
                    let d = &m.dependencies[f.dep_idx];
                    Dependency { name: d.name.clone(), min_version: d.min_version.clone() }
                },
                Option::None => {
                    proof {
                        assert(false);
                    }
                    Dependency { name: String::new(), min_version: String::new() }
                },
            };
            proof {
                assert(dcl == p.dependencies@[f.dep_idx as int]);
            }
            match check_dependency(&self.ledger, &self.cache, &dcl) {
                DepDecision::Satisfied => {
                    f.dep_idx = f.dep_idx + 1;
                },
                DepDecision::Installable => {
                    if self.ledger.get_package(dcl.name.clone()).is_some() {
                        self.stack.push(f);
                        proof {
                            assert(self.stack@.drop_last() =~= pre.stack@.drop_last());
                            assert forall|i: int|
                                0 <= i < self.stack@.len() implies self.frame_inv(
                                #[trigger] self.stack@[i],
                            ) by {
                                if i < self.stack@.len() - 1 {
                                    assert(self.stack@[i] == pre.stack@[i]);
                                }
                            }
                            assert forall|i: int|
                                0 <= i < self.stack@.len() - 1 implies ((
                            #[trigger] self.stack@[i]).phase is ResolvingDeps
                                && self.stack@[i].manifest is Some && self.stack@[i].dep_idx
                                < self.stack@[i].manifest->Some_0.dependencies@.len()) by {
                                assert(self.stack@[i] == pre.stack@[i]);
                            }
                        }
                        return Result::Err(self.fail(Error::DependencyUnresolved));
                    }
                    if self.sources.len() == 0 {
                        self.stack.push(f);
                        proof {
                            assert(self.stack@.drop_last() =~= pre.stack@.drop_last());
                            assert forall|i: int|
                                0 <= i < self.stack@.len() implies self.frame_inv(
                                #[trigger] self.stack@[i],
                            ) by {
                                if i < self.stack@.len() - 1 {
                                    assert(self.stack@[i] == pre.stack@[i]);
                                }
                            }
                            assert forall|i: int|
                                0 <= i < self.stack@.len() - 1 implies ((
                            #[trigger] self.stack@[i]).phase is ResolvingDeps
                                && self.stack@[i].manifest is Some && self.stack@[i].dep_idx
                                < self.stack@[i].manifest->Some_0.dependencies@.len()) by {
                                assert(self.stack@[i] == pre.stack@[i]);
                            }
                        }
                        let e = self.fail(Error::DependencyUnresolved);
                        return Result::Err(e);
                    }
                    let url = self.sources[0].clone();
                    let archive = dcl.name.clone().concat(".star");
                    let child = Frame {
                        name: dcl.name,
                        archive,
                        local: false,
                        force: false,
                        src_idx: 0,
                        manifest: Option::None,
                        dep_idx: 0,
                        phase: Phase::Locating,
                    };
                    self.stack.push(f);
                    self.stack.push(child);
                    proof {
                        assert(self.stack@.drop_last().drop_last() =~= pre.stack@.drop_last());
                        assert forall|i: int| 0 <= i < self.stack@.len() implies self.frame_inv(
                            #[trigger] self.stack@[i],
                        ) by {
                            if i < self.stack@.len() - 2 {
                                assert(self.stack@[i] == pre.stack@[i]);
                            }
                        }
                        assert forall|i: int|
                            0 <= i < self.stack@.len() - 1 implies (
                        #[trigger] self.stack@[i]).phase is ResolvingDeps
                            && self.stack@[i].manifest is Some && self.stack@[i].dep_idx
                            < self.stack@[i].manifest->Some_0.dependencies@.len() by {
                            if i < self.stack@.len() - 2 {
                                assert(self.stack@[i] == pre.stack@[i]);
                            }
                        }
                    }
                    return Result::Ok(Action::FetchListing { url });
                },
                DepDecision::Unresolved => {
                    self.stack.push(f);
                    proof {
                            assert(self.stack@.drop_last() =~= pre.stack@.drop_last());
                            assert forall|i: int|
                                0 <= i < self.stack@.len() implies self.frame_inv(
                                #[trigger] self.stack@[i],
                            ) by {
                                if i < self.stack@.len() - 1 {
                                    assert(self.stack@[i] == pre.stack@[i]);
                                }
                            }
                            assert forall|i: int|
                                0 <= i < self.stack@.len() - 1 implies ((
                            #[trigger] self.stack@[i]).phase is ResolvingDeps
                                && self.stack@[i].manifest is Some && self.stack@[i].dep_idx
                                < self.stack@[i].manifest->Some_0.dependencies@.len()) by {
                                assert(self.stack@[i] == pre.stack@[i]);
                            }
                        }
                    return Result::Err(self.fail(Error::DependencyUnresolved));
                },
                DepDecision::BadVersion => {
                    self.stack.push(f);
                    proof {
                            assert(self.stack@.drop_last() =~= pre.stack@.drop_last());
                            assert forall|i: int|
                                0 <= i < self.stack@.len() implies self.frame_inv(
                                #[trigger] self.stack@[i],
                            ) by {
                                if i < self.stack@.len() - 1 {
                                    assert(self.stack@[i] == pre.stack@[i]);
                                }
                            }
                            assert forall|i: int|
                                0 <= i < self.stack@.len() - 1 implies ((
                            #[trigger] self.stack@[i]).phase is ResolvingDeps
                                && self.stack@[i].manifest is Some && self.stack@[i].dep_idx
                                < self.stack@[i].manifest->Some_0.dependencies@.len()) by {
                                assert(self.stack@[i] == pre.stack@[i]);
                            }
                        }
                    return Result::Err(self.fail(Error::FormatError));
                },
            }
        }
        let dir_name = f.name.clone();
        f.phase = Phase::RunningInstallScript;
        self.stack.push(f);
        proof {
            assert(self.stack@.drop_last() =~= pre.stack@.drop_last());
            assert forall|i: int| 0 <= i < self.stack@.len() implies self.frame_inv(
                #[trigger] self.stack@[i],
            ) by {
                if i < self.stack@.len() - 1 {
                    assert(self.stack@[i] == pre.stack@[i]);
                }
            }
        }
        Result::Ok(Action::RunInstallScript { dir_name })
    }

    /// Takes the parsed manifest and starts resolving its dependencies in
    /// declaration order.
    pub fn on_manifest(&mut self, pkg: Option<Package>) -> (r: Result<Action, Error>)
        requires
            old(self).inv(),
            old(self).mode is Installing,
            old(self).top().phase is ReadingManifest,
        ensures
            final(self).inv(),
            final(self).ledger == old(self).ledger,
            final(self).cache == old(self).cache,
            final(self).tmp_archives == old(self).tmp_archives,
            final(self).tmp_dirs == old(self).tmp_dirs,
            pkg is None ==> (final(self).mode is Idle && r == Result::<Action, Error>::Err(
                wrap_fail(old(self).depth(), Error::FormatError),
            )),
            pkg matches Option::Some(p) ==> final(self).scan_step_post(*old(self), p, 0, r),
    {
        match pkg {
            Option::None => Result::Err(self.fail(Error::FormatError)),
            Option::Some(p) => {
                let ghost pre = *self;
                let mut f = self.stack.pop().unwrap();
                f.manifest = Option::Some(p);
                f.dep_idx = 0;
                f.phase = Phase::ResolvingDeps;
                self.stack.push(f);
                proof {
                    assert(self.stack@.drop_last() =~= pre.stack@.drop_last());
                    assert forall|i: int| 0 <= i < self.stack@.len() implies self.frame_inv(
                        #[trigger] self.stack@[i],
                    ) by {
                        if i < self.stack@.len() - 1 {
                            assert(self.stack@[i] == pre.stack@[i]);
                        }
                    }
                }
                self.advance_deps()
            },
        }
    }

    /// The install script was started (or none existed); the removal
    /// script, if present, is stored away next.
    pub fn on_script_ran(&mut self) -> (r: Action)
        requires
            old(self).inv(),
            old(self).mode is Installing,
            old(self).top().phase is RunningInstallScript,
        ensures
            final(self).inv(),
            final(self).ledger == old(self).ledger,
            final(self).cache == old(self).cache,
            final(self).tmp_archives == old(self).tmp_archives,
            final(self).tmp_dirs == old(self).tmp_dirs,
            final(self).mode is Installing,
            final(self).stack@.len() == old(self).depth(),
            final(self).top().phase is SavingRemoveScript,
            final(self).top().name == old(self).top().name,
            final(self).top().archive == old(self).top().archive,
            final(self).top().manifest == old(self).top().manifest,
            r == (Action::SaveRemoveScript { dir_name: old(self).top().name }),
    {
        let ghost pre = *self;
        let mut f = self.stack.pop().unwrap();
        let dir_name = f.name.clone();
        f.phase = Phase::SavingRemoveScript;
        self.stack.push(f);
        proof {
            assert(self.stack@.drop_last() =~= pre.stack@.drop_last());
            assert forall|i: int| 0 <= i < self.stack@.len() implies self.frame_inv(
                #[trigger] self.stack@[i],
            ) by {
                if i < self.stack@.len() - 1 {
                    assert(self.stack@[i] == pre.stack@[i]);
                }
            }
        }
        Action::SaveRemoveScript { dir_name }
    }

    /// The removal script was stored (or none existed); the staged archive
    /// and extraction directory are purged next.
    pub fn on_script_saved(&mut self, ok: bool) -> (r: Result<Action, Error>)
        requires
            old(self).inv(),
            old(self).mode is Installing,
            old(self).top().phase is SavingRemoveScript,
        ensures
            final(self).inv(),
            final(self).ledger == old(self).ledger,
            final(self).cache == old(self).cache,
            final(self).tmp_archives == old(self).tmp_archives,
            final(self).tmp_dirs == old(self).tmp_dirs,
            !ok ==> (final(self).mode is Idle && r == Result::<Action, Error>::Err(
                wrap_fail(old(self).depth(), Error::IoError),
            )),
            ok ==> (r == Result::<Action, Error>::Ok(
                Action::Cleanup {
                    dir_name: old(self).top().name,
                    archive: old(self).top().archive,
                },
            ) && final(self).mode is Installing && final(self).stack@.len() == old(self).depth()
                && final(self).top().phase is CleaningUp && final(self).top().name == old(self).top().name && final(self).top().archive == old(self).top().archive && final(self).top().manifest == old(self).top().manifest),
    {
        if !ok {
            return Result::Err(self.fail(Error::IoError));
        }
        let ghost pre = *self;
        let mut f = self.stack.pop().unwrap();
        let dir_name = f.name.clone();
        let archive = f.archive.clone();
        f.phase = Phase::CleaningUp;
        self.stack.push(f);
        proof {
            assert(self.stack@.drop_last() =~= pre.stack@.drop_last());
            assert forall|i: int| 0 <= i < self.stack@.len() implies self.frame_inv(
                #[trigger] self.stack@[i],
            ) by {
                if i < self.stack@.len() - 1 {
                    assert(self.stack@[i] == pre.stack@[i]);
                }
            }
        }
        Result::Ok(Action::Cleanup { dir_name, archive })
    }

    /// The temp entries are gone: the manifest is committed to the ledger,
    /// which is persisted next.
    pub fn on_cleanup_done(&mut self, ok: bool) -> (r: Result<Action, Error>)
        requires
            old(self).inv(),
            old(self).mode is Installing,
            old(self).top().phase is CleaningUp,
        ensures
            final(self).inv(),
            final(self).cache == old(self).cache,
            !ok ==> (final(self).mode is Idle && r == Result::<Action, Error>::Err(
                wrap_fail(old(self).depth(), Error::IoError),
            ) && final(self).ledger == old(self).ledger && final(self).tmp_archives == old(self).tmp_archives && final(self).tmp_dirs == old(self).tmp_dirs),
            ok ==> ({
                let m = old(self).top().manifest->Some_0;
                &&& r == Result::<Action, Error>::Ok(Action::SaveLedger)
                &&& final(self).mode is Installing
                &&& final(self).stack@.len() == old(self).depth()
                &&& final(self).top().phase is Committing
                &&& final(self).ledger.wf()
                &&& final(self).ledger.spec_get(m.name@) == Option::Some(m)
                &&& forall|n: Seq<char>|
                    n != m.name@ ==> final(self).ledger.spec_get(n) == old(self).ledger.spec_get(n)
                &&& final(self).tmp_dirs@ == strs_remove_first(
                    old(self).tmp_dirs@,
                    old(self).top().name@,
                )
                &&& final(self).tmp_archives@ == strs_remove_first(
                    old(self).tmp_archives@,
                    old(self).top().archive@,
                )
            }),
    {
        if !ok {
            return Result::Err(self.fail(Error::IoError));
        }
        let ghost pre = *self;
        let mut f = self.stack.pop().unwrap();
        let mut dirs = Vec::new();
        core::mem::swap(&mut dirs, &mut self.tmp_dirs);
        remove_first_str(&mut dirs, &f.name);
        core::mem::swap(&mut dirs, &mut self.tmp_dirs);
        let mut archives = Vec::new();
        core::mem::swap(&mut archives, &mut self.tmp_archives);
        remove_first_str(&mut archives, &f.archive);
        core::mem::swap(&mut archives, &mut self.tmp_archives);
        let m = match f.manifest.take() {
            Option::Some(m) => m,
            Option::None => {
                proof {
                    assert(false);
                }
                return Result::Err(Error::IoError);
            },
        };
        self.ledger.add_package(m);
        f.phase = Phase::Committing;
        self.stack.push(f);
        proof {
            assert(self.stack@.drop_last() =~= pre.stack@.drop_last());
            assert forall|i: int| 0 <= i < self.stack@.len() implies self.frame_inv(
                #[trigger] self.stack@[i],
            ) by {
                if i < self.stack@.len() - 1 {
                    assert(self.stack@[i] == pre.stack@[i]);
                }
            }
        }
        Result::Ok(Action::SaveLedger)
    }

    /// The ledger file was written. A top-level install is then done; a
    /// dependency install hands control back to the frame that wanted it,
    /// which moves on to its next dependency.
    pub fn on_ledger_saved(&mut self, ok: bool) -> (r: Result<Action, Error>)
        requires
            old(self).inv(),
            (old(self).mode is Installing && old(self).top().phase is Committing) || old(self).mode is CommittingRemove,
        ensures
            final(self).inv(),
            final(self).ledger == old(self).ledger,
            final(self).cache == old(self).cache,
            final(self).tmp_archives == old(self).tmp_archives,
            final(self).tmp_dirs == old(self).tmp_dirs,
            old(self).mode is CommittingRemove ==> (final(self).mode is Idle && (if ok {
                r == Result::<Action, Error>::Ok(Action::Done)
            } else {
                r == Result::<Action, Error>::Err(Error::IoError)
            })),
            (old(self).mode is Installing && !ok) ==> (final(self).mode is Idle && r == Result::<
                Action,
                Error,
            >::Err(wrap_fail(old(self).depth(), Error::IoError))),
            (old(self).mode is Installing && ok && old(self).depth() == 1) ==> (final(self).mode is Idle && r == Result::<Action, Error>::Ok(Action::Done)),
            (old(self).mode is Installing && ok && old(self).depth() > 1) ==> ({
                let parent = old(self).stack@[old(self).depth() - 2];
                let p = parent.manifest->Some_0;
                match dep_scan(
                    old(self).ledger,
                    old(self).cache,
                    p.dependencies@,
                    parent.dep_idx + 1,
                ) {
                    DepScanResult::AllSatisfied => {
                        &&& r == Result::<Action, Error>::Ok(
                            Action::RunInstallScript { dir_name: parent.name },
                        )
                        &&& final(self).mode is Installing
                        &&& final(self).stack@.len() == old(self).depth() - 1
                        &&& final(self).top().phase is RunningInstallScript
                        &&& final(self).top().name == parent.name
                    },
                    DepScanResult::Install(i) => {
                        if old(self).sources@.len() == 0 {
                            &&& r == Result::<Action, Error>::Err(Error::DependencyUnresolved)
                            &&& final(self).mode is Idle
                        } else {
                            &&& r == Result::<Action, Error>::Ok(
                                Action::FetchListing { url: old(self).sources@[0] },
                            )
                            &&& final(self).mode is Installing
                            &&& final(self).stack@.len() == old(self).depth()
                            &&& final(self).top().phase is Locating
                            &&& final(self).top().name == p.dependencies@[i].name
                        }
                    },
                    DepScanResult::Fail(e) => {
                        &&& r == Result::<Action, Error>::Err(
                            wrap_fail(old(self).depth() - 1, e),
                        )
                        &&& final(self).mode is Idle
                    },
                }
            }),
    {
        match &self.mode {
            Mode::CommittingRemove => {
                self.mode = Mode::Idle;
                if ok {
                    Result::Ok(Action::Done)
                } else {
                    Result::Err(Error::IoError)
                }
            },
            _ => {
                if !ok {
                    return Result::Err(self.fail(Error::IoError));
                }
                let ghost pre = *self;
                let child = self.stack.pop().unwrap();
                if self.stack.len() == 0 {
                    self.mode = Mode::Idle;
                    return Result::Ok(Action::Done);
                }
                let mut parent = self.stack.pop().unwrap();
                proof {
                    assert(parent == pre.stack@[pre.stack@.len() - 2]);
                }
                let dep_count = match &parent.manifest {
                    Option::Some(m) => m.dependencies.len(),
                    Option::None => 0,
                };
                proof {
                    assert(parent.dep_idx < dep_count);
                }
                parent.dep_idx = parent.dep_idx + 1;
                self.stack.push(parent);
                proof {
                    assert(self.stack@.drop_last() =~= pre.stack@.drop_last().drop_last());
                    assert forall|i: int| 0 <= i < self.stack@.len() implies self.frame_inv(
                        #[trigger] self.stack@[i],
                    ) by {
                        if i < self.stack@.len() - 1 {
                            assert(self.stack@[i] == pre.stack@[i]);
                        }
                    }
                    assert forall|i: int|
                        0 <= i < self.stack@.len() - 1 implies (
                    #[trigger] self.stack@[i]).phase is ResolvingDeps && self.stack@[i].manifest
                        is Some && self.stack@[i].dep_idx
                        < self.stack@[i].manifest->Some_0.dependencies@.len() by {
                        assert(self.stack@[i] == pre.stack@[i]);
                    }
                }
                self.advance_deps()
            },
        }
    }

    /// Starts removing `package`: it must be in the ledger, and a package
    /// some other package depends on is refused unless `force` is set.
    /// The stored removal script runs before the ledger is touched.
    pub fn remove_package(&mut self, package: String, force: bool) -> (r: Result<Action, Error>)
        requires
            old(self).inv(),
            old(self).mode is Idle,
        ensures
            final(self).inv(),
            final(self).ledger == old(self).ledger,
            final(self).cache == old(self).cache,
            final(self).tmp_archives == old(self).tmp_archives,
            final(self).tmp_dirs == old(self).tmp_dirs,
            r is Err ==> *final(self) == *old(self),
            !old(self).ledger.spec_contains(package@) ==> r == Result::<Action, Error>::Err(
                Error::NotFound,
            ),
            (old(self).ledger.spec_contains(package@) && old(self).ledger.spec_is_dependency(
                package@,
            ) && !force) ==> r == Result::<Action, Error>::Err(Error::InUse),
            (old(self).ledger.spec_contains(package@) && !(old(self).ledger.spec_is_dependency(
                package@,
            ) && !force)) ==> (r == Result::<Action, Error>::Ok(
                Action::RunRemoveScript { name: package },
            ) && (final(self).mode matches Mode::RunningRemove { name } && name == package)),
    {
        if self.ledger.get_package(package.clone()).is_none() {
            return Result::Err(Error::NotFound);
        }
        if self.ledger.is_dependency(package.clone()) && !force {
            return Result::Err(Error::InUse);
        }
        self.mode = Mode::RunningRemove { name: package.clone() };
        Result::Ok(Action::RunRemoveScript { name: package })
    }

    /// The stored removal script was started (or none existed); the entry
    /// leaves the ledger, which is persisted next.
    pub fn on_remove_script_ran(&mut self) -> (r: Action)
        requires
            old(self).inv(),
            old(self).mode is RunningRemove,
        ensures
            final(self).inv(),
            final(self).cache == old(self).cache,
            final(self).tmp_archives == old(self).tmp_archives,
            final(self).tmp_dirs == old(self).tmp_dirs,
            final(self).mode is CommittingRemove,
            r == Action::SaveLedger,
            (old(self).mode matches Mode::RunningRemove { name } ==> final(self).ledger.spec_get(
                name@,
            ) is None && (forall|n: Seq<char>|
                n != name@ ==> final(self).ledger.spec_get(n) == old(self).ledger.spec_get(n))
                && final(self).ledger.wf()),
    {
        let name = match &self.mode {
            Mode::RunningRemove { name } => name.clone(),
            _ => {
                proof {
                    assert(false);
                }
                String::new()
            },
        };
        self.ledger.remove_package(name);
        self.mode = Mode::CommittingRemove;
        Action::SaveLedger
    }

    /// Starts updating `package`: it must be installed and cached, and the
    /// cached version must be strictly newer than the installed one; then
    /// it is installed again, forced, from its repository.
    pub fn update_package(&mut self, package: String) -> (r: Result<Action, Error>)
        requires
            old(self).inv(),
            old(self).mode is Idle,
        ensures
            final(self).inv(),
            final(self).ledger == old(self).ledger,
            final(self).cache == old(self).cache,
            final(self).tmp_archives == old(self).tmp_archives,
            final(self).tmp_dirs == old(self).tmp_dirs,
            r is Err ==> *final(self) == *old(self),
            !old(self).ledger.spec_contains(package@) ==> r == Result::<Action, Error>::Err(
                Error::NotFound,
            ),
            (old(self).ledger.spec_contains(package@) && !old(self).cache.spec_contains(package@))
                ==> r == Result::<Action, Error>::Err(Error::NotCached),
            (old(self).ledger.spec_contains(package@) && old(self).cache.spec_contains(package@))
                ==> ({
                let iv = old(self).ledger.spec_get(package@)->Some_0.version@;
                let cv = old(self).cache.spec_get(package@)->Some_0.version@;
                if spec_parse(cv) is None || spec_parse(iv) is None {
                    r == Result::<Action, Error>::Err(Error::FormatError)
                } else if !(spec_cmp(spec_parse(cv)->Some_0, spec_parse(iv)->Some_0) is Newer) {
                    r == Result::<Action, Error>::Err(Error::UpToDate)
                } else {
                    if old(self).sources@.len() == 0 {
                        r == Result::<Action, Error>::Err(Error::NotFound)
                    } else {
                        (r == Result::<Action, Error>::Ok(
                            Action::FetchListing { url: old(self).sources@[0] },
                        ) && final(self).mode is Installing && final(self).stack@.len() == 1
                            && final(self).top().phase is Locating && final(self).top().name
                            == package && final(self).top().force)
                    }
                }
            }),
    {
        let installed_version = match self.ledger.get_package(package.clone()) {
            Option::Some(p) => p.version.clone(),
            Option::None => {
                return Result::Err(Error::NotFound);
            },
        };
        let cached_version = match self.cache.get_package(package.clone()) {
            Option::Some(p) => p.version.clone(),
            Option::None => {
                return Result::Err(Error::NotCached);
            },
        };
        let cv = match SemVer::from_string(cached_version) {
            Result::Ok(v) => v,
            Result::Err(unused) => {
                return Result::Err(Error::FormatError);
            },
        };
        let iv = match SemVer::from_string(installed_version) {
            Result::Ok(v) => v,
            Result::Err(unused) => {
                return Result::Err(Error::FormatError);
            },
        };
        match cv.compare(&iv) {
            VersionOrder::Newer => self.install_package(package, false, true),
            VersionOrder::Equal => Result::Err(Error::UpToDate),
            VersionOrder::Older => Result::Err(Error::UpToDate),
        }
    }
}

/// Every installed package's name and version, in ledger order.
pub fn list_packages(ledger: &Repository) -> (r: Vec<(String, String)>)
    ensures
        r@.len() == ledger.packages@.len(),
        forall|i: int|
            0 <= i < r@.len() ==> (#[trigger] r@[i]).0 == ledger.packages@[i].name && r@[i].1
                == ledger.packages@[i].version,
{
    let mut out: Vec<(String, String)> = Vec::new();
    let n = ledger.packages.len();
    let mut i: usize = 0;
    while i < n
        invariant
            i <= n,
            n == ledger.packages@.len(),
            out@.len() == i,
            forall|j: int|
                0 <= j < i ==> (#[trigger] out@[j]).0 == ledger.packages@[j].name && out@[j].1
                    == ledger.packages@[j].version,
        decreases n - i,
    {
        out.push((ledger.packages[i].name.clone(), ledger.packages[i].version.clone()));
        i = i + 1;
    }
    out
}

/// Every cached package's name and version, in cache order.
pub fn list_available_packages(cache: &Repository) -> (r: Vec<(String, String)>)
    ensures
        r@.len() == cache.packages@.len(),
        forall|i: int|
            0 <= i < r@.len() ==> (#[trigger] r@[i]).0 == cache.packages@[i].name && r@[i].1
                == cache.packages@[i].version,
{
    let mut out: Vec<(String, String)> = Vec::new();
    let n = cache.packages.len();
    let mut i: usize = 0;
    while i < n
        invariant
            i <= n,
            n == cache.packages@.len(),
            out@.len() == i,
            forall|j: int|
                0 <= j < i ==> (#[trigger] out@[j]).0 == cache.packages@[j].name && out@[j].1
                    == cache.packages@[j].version,
        decreases n - i,
    {
        out.push((cache.packages[i].name.clone(), cache.packages[i].version.clone()));
        i = i + 1;
    }
    out
}

/// The names an update of everything walks: each installed package, in
/// ledger order; individual failures are reported and skipped.
pub fn update_all_packages(ledger: &Repository) -> (r: Vec<String>)
    ensures
        r@.len() == ledger.packages@.len(),
        forall|i: int| 0 <= i < r@.len() ==> #[trigger] r@[i] == ledger.packages@[i].name,
{
    let mut out: Vec<String> = Vec::new();
    let n = ledger.packages.len();
    let mut i: usize = 0;
    while i < n
        invariant
            i <= n,
            n == ledger.packages@.len(),
            out@.len() == i,
            forall|j: int| 0 <= j < i ==> #[trigger] out@[j] == ledger.packages@[j].name,
        decreases n - i,
    {
        out.push(ledger.packages[i].name.clone());
        i = i + 1;
    }
    out
}

/// Whether the availability cache knows `package` at all.
pub fn package_is_cached(cache: &Repository, package: String) -> (r: bool)
    ensures
        r == cache.spec_contains(package@),
{
    cache.get_package(package).is_some()
}

/// A short human-readable account of a cached package: name and version,
/// then its description and license.
pub fn get_package_details(cache: &Repository, package: String) -> (r: Option<String>)
    ensures
        match cache.spec_get(package@) {
            Option::Some(p) => (r matches Option::Some(d) && d@ == p.name@ + " - "@ + p.version@
                + "\n\n"@ + p.description@ + "\n"@ + p.license@),
            Option::None => r is None,
        },
{
    match cache.get_package(package) {
        Option::Some(p) => {
            let mut d = p.name.clone();
            d.append(" - ");
            d.append(p.version.as_str());
            d.append("\n\n");
            d.append(p.description.as_str());
            d.append("\n");
            d.append(p.license.as_str());
            Option::Some(d)
        },
        Option::None => Option::None,
    }
}

} // verus!
