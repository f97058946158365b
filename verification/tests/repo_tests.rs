use comet::package::{Dependency, Package};
use comet::repo::Repository;
use comet::semver::VersionOrder;
use comet::Error;

fn pkg(name: &str, version: &str, deps: Vec<(&str, &str)>) -> Package {
    let dependencies = deps
        .into_iter()
        .map(|(n, v)| Dependency { name: String::from(n), min_version: String::from(v) })
        .collect();
    Package::new(
        String::from(name),
        format!("{name} description"),
        String::from(version),
        dependencies,
        String::from("MIT"),
        vec![String::from("someone")],
    )
}

#[test]
fn seeded_ledger_holds_the_three_bootstrap_packages() {
    let ledger = Repository::new(false);
    assert_eq!(ledger.packages.len(), 3);
    let system = ledger.get_package(String::from("system")).expect("system");
    assert_eq!(system.version, "1.0.0");
    assert!(system.dependencies.is_empty());
    let manager = ledger.get_package(String::from("comet")).expect("comet");
    assert_eq!(manager.dependencies.len(), 1);
    assert_eq!(manager.dependencies[0].name, "system");
    let tool = ledger.get_package(String::from("startools")).expect("startools");
    assert_eq!(tool.dependencies[0].min_version, "1.0.0");
}

#[test]
fn fresh_cache_is_empty() {
    let cache = Repository::new(true);
    assert_eq!(cache.packages.len(), 0);
    assert!(cache.get_package(String::from("system")).is_none());
}

#[test]
fn add_then_get_returns_the_added_package() {
    let mut repo = Repository::new(true);
    repo.add_package(pkg("foo", "1.0.0-", vec![]));
    let got = repo.get_package(String::from("foo")).expect("foo");
    assert_eq!(got.version, "1.0.0-");
}

#[test]
fn add_overwrites_a_prior_entry_of_the_same_name() {
    let mut repo = Repository::new(true);
    repo.add_package(pkg("foo", "1.0.0-", vec![]));
    repo.add_package(pkg("foo", "2.0.0-", vec![]));
    assert_eq!(repo.packages.len(), 1);
    let got = repo.get_package(String::from("foo")).expect("foo");
    assert_eq!(got.version, "2.0.0-");
}

#[test]
fn remove_package_drops_the_entry_and_ignores_absent_names() {
    let mut repo = Repository::new(true);
    repo.add_package(pkg("foo", "1.0.0-", vec![]));
    repo.remove_package(String::from("missing"));
    assert_eq!(repo.packages.len(), 1);
    repo.remove_package(String::from("foo"));
    assert!(repo.get_package(String::from("foo")).is_none());
    assert_eq!(repo.packages.len(), 0);
}

#[test]
fn is_dependency_sees_other_packages_dependency_keys() {
    let mut repo = Repository::new(true);
    assert!(!repo.is_dependency(String::from("lib")));
    repo.add_package(pkg("app", "1.0.0-", vec![("lib", "1.0.0-")]));
    repo.add_package(pkg("lib", "1.0.0-", vec![]));
    assert!(repo.is_dependency(String::from("lib")));
    assert!(!repo.is_dependency(String::from("app")));
    assert!(!repo.is_dependency(String::from("unrelated")));
}

#[test]
fn merge_keeps_the_strictly_newer_version_in_either_order() {
    let source_a = || {
        let mut r = Repository::new(true);
        r.add_package(pkg("foo", "1.0.0-", vec![]));
        r
    };
    let source_b = || {
        let mut r = Repository::new(true);
        r.add_package(pkg("foo", "2.0.0-", vec![]));
        r
    };

    let mut cache = Repository::new(true);
    cache.merge_latest(source_a()).expect("merge a");
    cache.merge_latest(source_b()).expect("merge b");
    assert_eq!(cache.get_package(String::from("foo")).expect("foo").version, "2.0.0-");

    let mut cache2 = Repository::new(true);
    cache2.merge_latest(source_b()).expect("merge b");
    cache2.merge_latest(source_a()).expect("merge a");
    assert_eq!(cache2.get_package(String::from("foo")).expect("foo").version, "2.0.0-");
}

#[test]
fn merge_keeps_the_present_entry_on_an_equal_version() {
    let mut cache = Repository::new(true);
    let mut first = pkg("foo", "1.0.0-", vec![]);
    first.description = String::from("from the first source");
    let mut cachecopy = Repository::new(true);
    cachecopy.add_package(first);
    cache.merge_latest(cachecopy).expect("merge");

    let mut second = pkg("foo", "1.0.0-", vec![]);
    second.description = String::from("from the second source");
    let mut later = Repository::new(true);
    later.add_package(second);
    cache.merge_latest(later).expect("merge");

    let got = cache.get_package(String::from("foo")).expect("foo");
    assert_eq!(got.description, "from the first source");
}

#[test]
fn merge_fills_holes_without_touching_others() {
    let mut cache = Repository::new(true);
    let mut incoming = Repository::new(true);
    incoming.add_package(pkg("foo", "1.0.0-", vec![]));
    incoming.add_package(pkg("bar", "3.0.0-", vec![]));
    cache.merge_latest(incoming).expect("merge");
    assert_eq!(cache.packages.len(), 2);
    assert_eq!(cache.get_package(String::from("bar")).expect("bar").version, "3.0.0-");
}

#[test]
fn merge_rejects_an_unparseable_version_on_a_collision() {
    let mut cache = Repository::new(true);
    cache.add_package(pkg("foo", "not-a-version", vec![]));
    let mut incoming = Repository::new(true);
    incoming.add_package(pkg("foo", "2.0.0-", vec![]));
    assert_eq!(cache.merge_latest(incoming), Err(Error::FormatError));
    // the accumulator is untouched on failure
    assert_eq!(cache.get_package(String::from("foo")).expect("foo").version, "not-a-version");
}

#[test]
fn packages_compare_by_version_within_one_name() {
    let a = pkg("foo", "1.0.0-", vec![]);
    let b = pkg("foo", "2.0.0-", vec![]);
    let c = pkg("bar", "9.9.9-", vec![]);
    assert_eq!(a.compare(&b), Ok(Some(VersionOrder::Older)));
    assert_eq!(b.compare(&a), Ok(Some(VersionOrder::Newer)));
    assert_eq!(a.compare(&a), Ok(Some(VersionOrder::Equal)));
    assert_eq!(a.compare(&c), Ok(None));
    let broken = pkg("foo", "one.two", vec![]);
    assert_eq!(a.compare(&broken), Err(Error::FormatError));
}
