//! A package manifest: identity, version, dependencies, authorship, and an
//! optional content checksum.

use vstd::prelude::*;

verus! {

use crate::Error;
use crate::semver::{SemVer, VersionOrder, spec_cmp, spec_parse};

/// One dependency declaration: a package name and the minimum version of it
/// that satisfies the declaring package.
pub struct Dependency {
    pub name: String,
    pub min_version: String,
}

/// A package manifest. `name` is the unique key within a repository;
/// `version` is a version string; `checksum`, when present, is the lowercase
/// hex digest of the package archive.
pub struct Package {
    pub name: String,
    pub description: String,
    pub version: String,
    pub dependencies: Vec<Dependency>,
    pub authors: Vec<String>,
    pub license: String,
    pub checksum: Option<String>,
}

impl Package {
    /// A freshly authored manifest; the checksum is set only once an
    /// archive has been built and hashed.
    pub fn new(
        name: String,
        description: String,
        version: String,
        stars: Vec<Dependency>,
        license: String,
        authors: Vec<String>,
    ) -> (p: Package)
        ensures
            p.name == name,
            p.description == description,
            p.version == version,
            p.dependencies == stars,
            p.authors == authors,
            p.license == license,
            p.checksum is None,
    {
        Package { name, description, version, dependencies: stars, authors, license, checksum: Option::None }
    }

    /// Packages order only within one name, by their parsed versions;
    /// packages of different names are unordered.
    pub fn compare(&self, other: &Package) -> (r: Result<Option<VersionOrder>, Error>)
        ensures
            self.name@ != other.name@ ==> r == Result::<Option<VersionOrder>, Error>::Ok(
                Option::None,
            ),
            self.name@ == other.name@ ==> (match (
                spec_parse(self.version@),
                spec_parse(other.version@),
            ) {
                (Option::Some(a), Option::Some(b)) => r == Result::<
                    Option<VersionOrder>,
                    Error,
                >::Ok(Option::Some(spec_cmp(a, b))),
                _ => r == Result::<Option<VersionOrder>, Error>::Err(Error::FormatError),
            }),
    {
        if !(self.name == other.name) {
            return Result::Ok(Option::None);
        }
        let mine = match SemVer::from_string(self.version.clone()) {
            Result::Ok(v) => v,
            Result::Err(unused) => {
                return Result::Err(Error::FormatError);
            },
        };
        let theirs = match SemVer::from_string(other.version.clone()) {
            Result::Ok(v) => v,
            Result::Err(unused) => {
                return Result::Err(Error::FormatError);
            },
        };
        Result::Ok(Option::Some(mine.compare(&theirs)))
    }
}

} // verus!
