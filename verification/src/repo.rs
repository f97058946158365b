//! A repository: a collection of packages keyed by name. Two instances are
//! kept on disk per installation: the ledger of installed packages and the
//! cache of remotely available ones.

use vstd::prelude::*;
use vstd::string::StringExecFns;

verus! {

use crate::Error;
use crate::package::{Dependency, Package};
use crate::semver::{SemVer, VersionOrder, spec_cmp, spec_parse};

/// A collection of packages with pairwise distinct names.
pub struct Repository {
    pub packages: Vec<Package>,
}

/// No two packages share a name.
pub open spec fn unique_names(ps: Seq<Package>) -> bool {
    forall|i: int, j: int| 0 <= i < j < ps.len() ==> ps[i].name@ != ps[j].name@
}

/// The first package named `name`, scanning front to back.
pub open spec fn pkgs_find(ps: Seq<Package>, name: Seq<char>) -> Option<Package>
    decreases ps.len(),
{
    if ps.len() == 0 {
        Option::None
    } else if ps[0].name@ == name {
        Option::Some(ps[0])
    } else {
        pkgs_find(ps.drop_first(), name)
    }
}

pub proof fn lemma_find_at(ps: Seq<Package>, name: Seq<char>, k: int)
    requires
        0 <= k < ps.len(),
        ps[k].name@ == name,
        forall|j: int| 0 <= j < k ==> ps[j].name@ != name,
    ensures
        pkgs_find(ps, name) == Option::Some(ps[k]),
    decreases k,
{
    if k > 0 {
        lemma_find_at(ps.drop_first(), name, k - 1);
    }
}

pub proof fn lemma_find_absent(ps: Seq<Package>, name: Seq<char>)
    requires
        forall|j: int| 0 <= j < ps.len() ==> ps[j].name@ != name,
    ensures
        pkgs_find(ps, name) is None,
    decreases ps.len(),
{
    if ps.len() > 0 {
        lemma_find_absent(ps.drop_first(), name);
    }
}

/// When nothing is found under `name`, no entry bears that name.
pub proof fn lemma_find_none(ps: Seq<Package>, name: Seq<char>)
    requires
        pkgs_find(ps, name) is None,
    ensures
        forall|j: int| 0 <= j < ps.len() ==> ps[j].name@ != name,
    decreases ps.len(),
{
    if ps.len() > 0 {
        lemma_find_none(ps.drop_first(), name);
        assert forall|j: int| 0 <= j < ps.len() implies ps[j].name@ != name by {
            if j > 0 {
                assert(ps[j] == ps.drop_first()[j - 1]);
            }
        }
    }
}

/// When a package named `name` is found, it sits at a first index whose
/// predecessors all bear other names.
pub proof fn lemma_find_witness(ps: Seq<Package>, name: Seq<char>) -> (k: int)
    requires
        pkgs_find(ps, name) is Some,
    ensures
        0 <= k < ps.len(),
        ps[k] == pkgs_find(ps, name)->Some_0,
        ps[k].name@ == name,
        forall|j: int| 0 <= j < k ==> ps[j].name@ != name,
    decreases ps.len(),
{
    if ps[0].name@ == name {
        0
    } else {
        let k0 = lemma_find_witness(ps.drop_first(), name);
        assert forall|j: int| 0 <= j < k0 + 1 implies ps[j].name@ != name by {
            if j > 0 {
                assert(ps[j] == ps.drop_first()[j - 1]);
            }
        }
        k0 + 1
    }
}

/// With unique names, whichever index holds `name` is the one found.
pub proof fn lemma_find_present(ps: Seq<Package>, k: int)
    requires
        unique_names(ps),
        0 <= k < ps.len(),
    ensures
        pkgs_find(ps, ps[k].name@) == Option::Some(ps[k]),
{
    assert forall|j: int| 0 <= j < k implies ps[j].name@ != ps[k].name@ by {}
    lemma_find_at(ps, ps[k].name@, k);
}

/// A bootstrap dependency declaration on the base system.
pub open spec fn bootstrap_dependency(d: Dependency) -> bool {
    &&& d.name@ == "system"@
    &&& d.min_version@ == "1.0.0"@
}

/// The base-system bootstrap package.
pub open spec fn is_bootstrap_base(p: Package) -> bool {
    &&& p.name@ == "system"@
    &&& p.description@ == "The base system for Wombat Linux"@
    &&& p.version@ == "1.0.0"@
    &&& p.dependencies@.len() == 0
    &&& p.authors@.len() == 1 && p.authors@[0]@ == "Wombat Linux"@
    &&& p.license@ == "MIT"@
    &&& p.checksum is None
}

/// The package manager's own bootstrap package.
pub open spec fn is_bootstrap_manager(p: Package) -> bool {
    &&& p.name@ == "comet"@
    &&& p.description@ == "The package manager for Wombat Linux"@
    &&& p.version@ == "1.0.0"@
    &&& p.dependencies@.len() == 1 && bootstrap_dependency(p.dependencies@[0])
    &&& p.authors@.len() == 1 && p.authors@[0]@ == "Wombat Linux"@
    &&& p.license@ == "MIT"@
    &&& p.checksum is None
}

/// The companion build tool's bootstrap package.
pub open spec fn is_bootstrap_build_tool(p: Package) -> bool {
    &&& p.name@ == "startools"@
    &&& p.description@ == "A utility for managing stars"@
    &&& p.version@ == "1.0.0"@
    &&& p.dependencies@.len() == 1 && bootstrap_dependency(p.dependencies@[0])
    &&& p.authors@.len() == 1 && p.authors@[0]@ == "Wombat Linux"@
    &&& p.license@ == "MIT"@
    &&& p.checksum is None
}

/// How a cache merge settles one name: an incoming package fills a hole,
/// and replaces a present one only when strictly newer.
pub open spec fn merge_entry(cur: Option<Package>, inc: Option<Package>) -> Option<Package> {
    match (cur, inc) {
        (Option::None, Option::None) => Option::None,
        (Option::Some(c), Option::None) => Option::Some(c),
        (Option::None, Option::Some(p)) => Option::Some(p),
        (Option::Some(c), Option::Some(p)) => {
            if spec_cmp(
                spec_parse(p.version@)->Some_0,
                spec_parse(c.version@)->Some_0,
            ) is Newer {
                Option::Some(p)
            } else {
                Option::Some(c)
            }
        },
    }
}

/// Whether every name collision between `cur` and `inc` has parseable
/// versions on both sides, so a merge can compare them.
pub open spec fn merge_compatible(cur: Repository, inc: Seq<Package>) -> bool {
    forall|i: int|
        0 <= i < inc.len() ==> match cur.spec_get(#[trigger] inc[i].name@) {
            Option::Some(c) => spec_parse(c.version@) is Some && spec_parse(inc[i].version@) is Some,
            Option::None => true,
        }
}

fn bootstrap_authors() -> (v: Vec<String>)
    ensures
        v@.len() == 1,
        v@[0]@ == "Wombat Linux"@,
{
    let mut v: Vec<String> = Vec::new();
    v.push(String::from_str("Wombat Linux"));
    v
}

fn bootstrap_dependencies() -> (v: Vec<Dependency>)
    ensures
        v@.len() == 1,
        bootstrap_dependency(v@[0]),
{
    let mut v: Vec<Dependency> = Vec::new();
    v.push(
        Dependency {
            name: String::from_str("system"),
            min_version: String::from_str("1.0.0"),
        },
    );
    v
}

impl Repository {
    /// The package stored under `name`, if any.
    pub open spec fn spec_get(&self, name: Seq<char>) -> Option<Package> {
        pkgs_find(self.packages@, name)
    }

    pub open spec fn spec_contains(&self, name: Seq<char>) -> bool {
        self.spec_get(name) is Some
    }

    pub open spec fn wf(&self) -> bool {
        unique_names(self.packages@)
    }

    /// Some package other than `name` itself declares `name` as a
    /// dependency.
    pub open spec fn spec_is_dependency(&self, name: Seq<char>) -> bool {
        exists|i: int, j: int|
            0 <= i < self.packages@.len() && 0 <= j < self.packages@[i].dependencies@.len()
                && self.packages@[i].name@ != name
                && (#[trigger] self.packages@[i].dependencies@[j]).name@ == name
    }

    /// An empty repository (a fresh cache), or the ledger's three bootstrap
    /// packages: the base system, the package manager, and the build tool,
    /// the latter two depending on the base system.
    pub fn new(empty: bool) -> (r: Repository)
        ensures
            r.wf(),
            empty ==> r.packages@.len() == 0,
            !empty ==> r.packages@.len() == 3,
            !empty ==> (r.spec_get("system"@) matches Option::Some(p) && is_bootstrap_base(p)),
            !empty ==> (r.spec_get("comet"@) matches Option::Some(p) && is_bootstrap_manager(p)),
            !empty ==> (r.spec_get("startools"@) matches Option::Some(p)
                && is_bootstrap_build_tool(p)),
    {
        if empty {
            Repository { packages: Vec::new() }
        } else {
            let base = Package::new(
                String::from_str("system"),
                String::from_str("The base system for Wombat Linux"),
                String::from_str("1.0.0"),
                Vec::new(),
                String::from_str("MIT"),
                bootstrap_authors(),
            );
            let manager = Package::new(
                String::from_str("comet"),
                String::from_str("The package manager for Wombat Linux"),
                String::from_str("1.0.0"),
                bootstrap_dependencies(),
                String::from_str("MIT"),
                bootstrap_authors(),
            );
            let build_tool = Package::new(
                String::from_str("startools"),
                String::from_str("A utility for managing stars"),
                String::from_str("1.0.0"),
                bootstrap_dependencies(),
                String::from_str("MIT"),
                bootstrap_authors(),
            );
            let mut packages: Vec<Package> = Vec::new();
            packages.push(base);
            packages.push(manager);
            packages.push(build_tool);
            let r = Repository { packages };
            proof {
                reveal_strlit("system");
                reveal_strlit("comet");
                reveal_strlit("startools");
                assert(("system"@).len() != ("comet"@).len());
                assert(("system"@).len() != ("startools"@).len());
                assert(("comet"@).len() != ("startools"@).len());
                assert(r.packages@[0].name@ != r.packages@[1].name@);
                assert(r.packages@[0].name@ != r.packages@[2].name@);
                assert(r.packages@[1].name@ != r.packages@[2].name@);
                lemma_find_present(r.packages@, 0);
                lemma_find_present(r.packages@, 1);
                lemma_find_present(r.packages@, 2);
            }
            r
        }
    }

    /// The position of the entry named `name`, scanning front to back.
    fn find_index(&self, name: &String) -> (r: Option<usize>)
        ensures
            match r {
                Option::Some(i) => i < self.packages@.len() && self.packages@[i as int].name@
                    == name@ && (forall|j: int| 0 <= j < i ==> self.packages@[j].name@ != name@),
                Option::None => forall|j: int|
                    0 <= j < self.packages@.len() ==> self.packages@[j].name@ != name@,
            },
    {
        let n = self.packages.len();
        let mut i: usize = 0;
        while i < n
            invariant
                i <= n,
                n == self.packages@.len(),
                forall|j: int| 0 <= j < i ==> self.packages@[j].name@ != name@,
            decreases n - i,
        {
            if self.packages[i].name == *name {
                return Option::Some(i);
            }
            i = i + 1;
        }
        Option::None
    }

    /// Upsert: the new package takes `package.name`'s slot, every other
    /// entry is untouched.
    pub fn add_package(&mut self, package: Package)
        requires
            old(self).wf(),
        ensures
            final(self).wf(),
            final(self).spec_get(package.name@) == Option::Some(package),
            forall|n: Seq<char>|
                n != package.name@ ==> final(self).spec_get(n) == old(self).spec_get(n),
            final(self).packages@.len() == if old(self).spec_contains(package.name@) {
                old(self).packages@.len()
            } else {
                old(self).packages@.len() + 1
            },
    {
        let ghost ps0 = self.packages@;
        let ghost nm = package.name@;
        let found = self.find_index(&package.name);
        proof {
            match found {
                Option::Some(i) => lemma_find_at(ps0, nm, i as int),
                Option::None => lemma_find_absent(ps0, nm),
            }
        }
        if let Option::Some(i) = found {
            self.packages.remove(i);
            proof {
                assert forall|j: int|
                    0 <= j < self.packages@.len() implies #[trigger] self.packages@[j].name@
                    != nm by {
                    if j < i {
                        assert(self.packages@[j] == ps0[j]);
                    } else {
                        assert(self.packages@[j] == ps0[j + 1]);
                    }
                }
                assert(unique_names(self.packages@)) by {
                    assert forall|x: int, y: int|
                        0 <= x < y < self.packages@.len() implies self.packages@[x].name@
                        != self.packages@[y].name@ by {
                        let x0 = if x < i { x } else { x + 1 };
                        let y0 = if y < i { y } else { y + 1 };
                        assert(self.packages@[x] == ps0[x0]);
                        assert(self.packages@[y] == ps0[y0]);
                    }
                }
            }
        }
        let ghost ps1 = self.packages@;
        self.packages.push(package);
        proof {
            let ps2 = self.packages@;
            let len2 = ps2.len() as int;
            assert(ps2[len2 - 1] == package);
            assert forall|j: int| 0 <= j < len2 - 1 implies #[trigger] ps2[j].name@ != nm by {
                assert(ps2[j] == ps1[j]);
            }
            lemma_find_at(ps2, nm, len2 - 1);
            assert(unique_names(ps2));
            assert forall|n2: Seq<char>| n2 != nm implies pkgs_find(ps2, n2) == pkgs_find(
                ps0,
                n2,
            ) by {
                if pkgs_find(ps0, n2) is Some {
                    let k = lemma_find_witness(ps0, n2);
                    if found is Some && k > found->Some_0 {
                        assert(ps1[k - 1] == ps0[k]);
                        assert(ps2[k - 1] == ps0[k]);
                        lemma_find_present(ps2, k - 1);
                    } else {
                        assert(ps1[k] == ps0[k]);
                        assert(ps2[k] == ps0[k]);
                        lemma_find_present(ps2, k);
                    }
                } else {
                    lemma_find_none(ps0, n2);
                    assert forall|j: int| 0 <= j < ps2.len() implies #[trigger] ps2[j].name@
                        != n2 by {
                        if j < ps2.len() - 1 {
                            if found is Some && j >= found->Some_0 {
                                assert(ps2[j] == ps0[j + 1]);
                            } else {
                                assert(ps2[j] == ps0[j]);
                            }
                        }
                    }
                    lemma_find_absent(ps2, n2);
                }
            }
        }
    }

    /// Removes the entry named `package`; a no-op when it is absent.
    pub fn remove_package(&mut self, package: String)
        requires
            old(self).wf(),
        ensures
            final(self).wf(),
            final(self).spec_get(package@) is None,
            forall|n: Seq<char>|
                n != package@ ==> final(self).spec_get(n) == old(self).spec_get(n),
    {
        let ghost ps0 = self.packages@;
        let ghost nm = package@;
        let found = self.find_index(&package);
        if let Option::Some(i) = found {
            self.packages.remove(i);
            proof {
                let ps2 = self.packages@;
                assert forall|j: int| 0 <= j < ps2.len() implies #[trigger] ps2[j].name@ != nm by {
                    if j < i {
                        assert(ps2[j] == ps0[j]);
                    } else {
                        assert(ps2[j] == ps0[j + 1]);
                    }
                }
                lemma_find_absent(ps2, nm);
                assert(unique_names(ps2)) by {
                    assert forall|x: int, y: int|
                        0 <= x < y < ps2.len() implies ps2[x].name@ != ps2[y].name@ by {
                        let x0 = if x < i { x } else { x + 1 };
                        let y0 = if y < i { y } else { y + 1 };
                        assert(ps2[x] == ps0[x0]);
                        assert(ps2[y] == ps0[y0]);
                    }
                }
                assert forall|n2: Seq<char>| n2 != nm implies pkgs_find(ps2, n2) == pkgs_find(
                    ps0,
                    n2,
                ) by {
                    if pkgs_find(ps0, n2) is Some {
                        let k = lemma_find_witness(ps0, n2);
                        if k > i {
                            assert(ps2[k - 1] == ps0[k]);
                            lemma_find_present(ps2, k - 1);
                        } else {
                            assert(ps2[k] == ps0[k]);
                            lemma_find_present(ps2, k);
                        }
                    } else {
                        lemma_find_none(ps0, n2);
                        assert forall|j: int| 0 <= j < ps2.len() implies #[trigger] ps2[j].name@
                            != n2 by {
                            if j >= i {
                                assert(ps2[j] == ps0[j + 1]);
                            } else {
                                assert(ps2[j] == ps0[j]);
                            }
                        }
                        lemma_find_absent(ps2, n2);
                    }
                }
            }
        } else {
            proof {
                lemma_find_absent(ps0, nm);
            }
        }
    }

    /// The stored package named `package`, if any.
    pub fn get_package(&self, package: String) -> (r: Option<&Package>)
        ensures
            match r {
                Option::Some(p) => self.spec_get(package@) == Option::Some(*p),
                Option::None => self.spec_get(package@) is None,
            },
    {
        let mut i: usize = 0;
        let n = self.packages.len();
        loop
            invariant
                0 <= i <= n,
                n == self.packages@.len(),
                forall|j: int| 0 <= j < i ==> self.packages@[j].name@ != package@,
            decreases n - i,
        {
            if i == n {
                proof {
                    lemma_find_absent(self.packages@, package@);
                }
                return Option::None;
            }
            if self.packages[i].name == package {
                proof {
                    lemma_find_at(self.packages@, package@, i as int);
                }
                return Option::Some(&self.packages[i]);
            }
            i = i + 1;
        }
    }

    /// True exactly when some other package lists `package` among its
    /// dependency names; used to block removal of a package in use.
    pub fn is_dependency(&self, package: String) -> (r: bool)
        ensures
            r == self.spec_is_dependency(package@),
    {
        let n = self.packages.len();
        let mut i: usize = 0;
        while i < n
            invariant
                i <= n,
                n == self.packages@.len(),
                forall|i0: int, j0: int|
                    0 <= i0 < i && 0 <= j0 < self.packages@[i0].dependencies@.len()
                        && self.packages@[i0].name@ != package@ ==> (
                    #[trigger] self.packages@[i0].dependencies@[j0]).name@ != package@,
            decreases n - i,
        {
            if !(self.packages[i].name == package) {
                let m = self.packages[i].dependencies.len();
                let mut j: usize = 0;
                while j < m
                    invariant
                        j <= m,
                        i < n,
                        n == self.packages@.len(),
                        m == self.packages@[i as int].dependencies@.len(),
                        !(self.packages@[i as int].name@ == package@),
                        forall|j0: int|
                            0 <= j0 < j ==> (
                            #[trigger] self.packages@[i as int].dependencies@[j0]).name@
                                != package@,
                    decreases m - j,
                {
                    if self.packages[i].dependencies[j].name == package {
                        return true;
                    }
                    j = j + 1;
                }
            }
            i = i + 1;
        }
        return false;
    }

    /// Folds another repository's packages into this one, keeping for each
    /// name whichever entry carries the strictly greater version: an equal
    /// or older incoming version never displaces a present one.
    pub fn merge_latest(&mut self, incoming: Repository) -> (r: Result<(), Error>)
        requires
            old(self).wf(),
            incoming.wf(),
        ensures
            match r {
                Result::Ok(u) => final(self).wf() && merge_compatible(
                    *old(self),
                    incoming.packages@,
                ) && forall|n: Seq<char>|
                    #![trigger final(self).spec_get(n)]
                    final(self).spec_get(n) == merge_entry(
                        old(self).spec_get(n),
                        incoming.spec_get(n),
                    ),
                Result::Err(e) => e == Error::FormatError && *final(self) == *old(self)
                    && !merge_compatible(*old(self), incoming.packages@),
            },
    {
        let ghost inc0 = incoming.packages@;
        let n = incoming.packages.len();
        let mut i: usize = 0;
        while i < n
            invariant
                i <= n,
                n == incoming.packages@.len(),
                incoming.packages@ == inc0,
                *self == *old(self),
                self.wf(),
                forall|i0: int|
                    0 <= i0 < i ==> match self.spec_get(#[trigger] inc0[i0].name@) {
                        Option::Some(c) => spec_parse(c.version@) is Some && spec_parse(
                            inc0[i0].version@,
                        ) is Some,
                        Option::None => true,
                    },
            decreases n - i,
        {
            match self.get_package(incoming.packages[i].name.clone()) {
                Option::Some(cur) => {
                    let cur_ok = SemVer::from_string(cur.version.clone()).is_ok();
                    let inc_ok = SemVer::from_string(
                        incoming.packages[i].version.clone(),
                    ).is_ok();
                    if !cur_ok || !inc_ok {
                        return Result::Err(Error::FormatError);
                    }
                },
                Option::None => {},
            }
            i = i + 1;
        }
        let mut rest = incoming;
        let ghost mut k: int = 0;
        while rest.packages.len() > 0
            invariant
                0 <= k <= inc0.len(),
                rest.packages@ == inc0.skip(k),
                unique_names(inc0),
                self.wf(),
                merge_compatible(*old(self), inc0),
                forall|n2: Seq<char>|
                    #![trigger self.spec_get(n2)]
                    pkgs_find(inc0.skip(k), n2) is Some ==> self.spec_get(n2) == old(
                        self,
                    ).spec_get(n2),
                forall|n2: Seq<char>|
                    #![trigger self.spec_get(n2)]
                    pkgs_find(inc0.skip(k), n2) is None ==> self.spec_get(n2) == merge_entry(
                        old(self).spec_get(n2),
                        pkgs_find(inc0, n2),
                    ),
            decreases inc0.len() - k,
        {
            let p = rest.packages.remove(0);
            proof {
                assert(p == inc0[k]);
                assert(rest.packages@ =~= inc0.skip(k + 1));
                lemma_find_present(inc0, k);
                assert(pkgs_find(inc0.skip(k), p.name@) is Some) by {
                    assert(inc0.skip(k)[0] == p);
                    assert(inc0.skip(k)[0].name@ == p.name@);
                }
            }
            let ghost nm = p.name@;
            let take_it: bool;
            match self.get_package(p.name.clone()) {
                Option::None => {
                    take_it = true;
                    proof {
                        assert(old(self).spec_get(nm) is None);
                    }
                },
                Option::Some(cur) => {
                    let cur_v = match SemVer::from_string(cur.version.clone()) {
                        Result::Ok(v) => v,
                        Result::Err(unused) => {
                            proof {
                                assert(false);
                            }
                            return Result::Err(Error::FormatError);
                        },
                    };
                    let inc_v = match SemVer::from_string(p.version.clone()) {
                        Result::Ok(v) => v,
                        Result::Err(unused) => {
                            proof {
                                assert(false);
                            }
                            return Result::Err(Error::FormatError);
                        },
                    };
                    match inc_v.compare(&cur_v) {
                        VersionOrder::Newer => {
                            take_it = true;
                        },
                        VersionOrder::Older => {
                            take_it = false;
                        },
                        VersionOrder::Equal => {
                            take_it = false;
                        },
                    }
                },
            }
            let ghost pre = *self;
            if take_it {
                self.add_package(p);
            }
            proof {
                assert(self.spec_get(nm) == merge_entry(old(self).spec_get(nm), pkgs_find(inc0, nm)));
                assert forall|n2: Seq<char>|
                    pkgs_find(inc0.skip(k + 1), n2) is Some implies #[trigger] self.spec_get(n2)
                    == old(self).spec_get(n2) by {
                    let w = lemma_find_witness(inc0.skip(k + 1), n2);
                    assert(inc0.skip(k + 1)[w] == inc0[k + 1 + w]);
                    assert(n2 != nm);
                    assert(pkgs_find(inc0.skip(k), n2) is Some) by {
                        lemma_find_present(inc0, k + 1 + w);
                        assert(inc0.skip(k)[w + 1] == inc0[k + 1 + w]);
                        lemma_find_at(inc0.skip(k), n2, w + 1);
                    }
                }
                assert forall|n2: Seq<char>|
                    pkgs_find(inc0.skip(k + 1), n2) is None implies #[trigger] self.spec_get(n2)
                    == merge_entry(old(self).spec_get(n2), pkgs_find(inc0, n2)) by {
                    if n2 == nm {
                    } else {
                        assert(pkgs_find(inc0.skip(k), n2) is None) by {
                            if pkgs_find(inc0.skip(k), n2) is Some {
                                let w = lemma_find_witness(inc0.skip(k), n2);
                                assert(w > 0);
                                assert(inc0.skip(k)[w] == inc0.skip(k + 1)[w - 1]);
                                lemma_find_at(inc0.skip(k + 1), n2, w - 1);
                            }
                        }
                        assert(self.spec_get(n2) == pre.spec_get(n2));
                    }
                }
                k = k + 1;
            }
        }
        proof {
            assert(inc0.skip(k).len() == 0);
            assert(inc0.skip(k) =~= Seq::<Package>::empty());
            assert forall|n2: Seq<char>| #![trigger self.spec_get(n2)] true implies self.spec_get(
                n2,
            ) == merge_entry(old(self).spec_get(n2), pkgs_find(inc0, n2)) by {
                assert(pkgs_find(inc0.skip(k), n2) is None);
            }
        }
        Result::Ok(())
    }
}

/// Law: when two sources both offer a package and one version is strictly
/// newer, the newer entry ends up in the merged cache whichever source is
/// folded in first.
pub proof fn lemma_merge_order_independent(pa: Package, pb: Package)
    requires
        pa.name@ == pb.name@,
        spec_parse(pa.version@) is Some,
        spec_parse(pb.version@) is Some,
        spec_cmp(spec_parse(pb.version@)->Some_0, spec_parse(pa.version@)->Some_0) is Newer,
    ensures
        merge_entry(merge_entry(Option::None, Option::Some(pa)), Option::Some(pb))
            == Option::Some(pb),
        merge_entry(merge_entry(Option::None, Option::Some(pb)), Option::Some(pa))
            == Option::Some(pb),
{
    crate::semver::lemma_order_trichotomy(
        spec_parse(pb.version@)->Some_0,
        spec_parse(pa.version@)->Some_0,
    );
}

} // verus!
