use comet::acquire::{checksum_matches, sha256_hex, verify_download};
use comet::config::Config;
use comet::engine::{
    check_dependency, get_package_details, list_available_packages, list_packages,
    package_is_cached, update_all_packages, Action, DepDecision, Engine,
};
use comet::package::{Dependency, Package};
use comet::repo::Repository;
use comet::Error;

fn pkg(name: &str, version: &str, deps: Vec<(&str, &str)>) -> Package {
    let dependencies = deps
        .into_iter()
        .map(|(n, v)| Dependency { name: String::from(n), min_version: String::from(v) })
        .collect();
    Package::new(
        String::from(name),
        format!("{name} description"),
        String::from(version),
        dependencies,
        String::from("MIT"),
        vec![String::from("someone")],
    )
}

fn repo_of(packages: Vec<Package>) -> Repository {
    let mut r = Repository::new(true);
    for p in packages {
        r.add_package(p);
    }
    r
}

fn engine(ledger: Repository, cache: Repository, sources: Vec<&str>) -> Engine {
    let config = Config::new(
        sources.into_iter().map(String::from).collect(),
        false,
        String::from("/var/lib/pm"),
        String::from("/tmp/pm"),
    );
    Engine::new(ledger, cache, config)
}

const ABC_SHA256: &str = "ba7816bf8f01cfea414140de5dae2223b00361a396177a9cb410ff61f20015ad";

#[test]
fn sha256_hex_matches_a_known_digest() {
    assert_eq!(sha256_hex(&b"abc".to_vec()), ABC_SHA256);
    assert!(checksum_matches(&String::from(ABC_SHA256), &b"abc".to_vec()));
    assert!(!checksum_matches(&String::from(ABC_SHA256), &b"abd".to_vec()));
}

#[test]
fn verification_rejects_a_diverging_digest_and_skips_absent_ones() {
    let bytes = b"archive contents".to_vec();
    let wrong = Some(String::from(ABC_SHA256));
    assert_eq!(verify_download(&wrong, &bytes), Err(Error::ChecksumMismatch));
    let right = Some(sha256_hex(&bytes));
    assert_eq!(verify_download(&right, &bytes), Ok(()));
    assert_eq!(verify_download(&None, &bytes), Ok(()));
}

#[test]
fn installing_an_installed_package_needs_force() {
    let ledger = repo_of(vec![pkg("foo", "1.0.0-", vec![])]);
    let cache = repo_of(vec![pkg("foo", "2.0.0-", vec![])]);
    let mut eng = engine(ledger, cache, vec!["http://source"]);
    assert_eq!(
        eng.install_package(String::from("foo"), false, false),
        Err(Error::AlreadyInstalled)
    );
    let act = eng.install_package(String::from("foo"), false, true).expect("forced");
    assert_eq!(act, Action::FetchListing { url: String::from("http://source") });
}

#[test]
fn installing_an_uncached_package_is_not_found() {
    let mut eng = engine(Repository::new(true), Repository::new(true), vec!["http://source"]);
    assert_eq!(eng.install_package(String::from("ghost"), false, false), Err(Error::NotFound));
}

#[test]
fn a_failed_listing_fetch_is_a_network_error() {
    let cache = repo_of(vec![pkg("bar", "1.0.0-", vec![])]);
    let mut eng = engine(Repository::new(true), cache, vec!["http://source"]);
    eng.install_package(String::from("bar"), false, false).expect("start");
    assert_eq!(eng.on_listing(None), Err(Error::NetworkError));
}

#[test]
fn sources_are_scanned_in_order_and_the_first_match_wins() {
    let cache = repo_of(vec![pkg("bar", "1.0.0-", vec![])]);
    let mut eng = engine(Repository::new(true), cache, vec!["http://a", "http://b"]);
    let act = eng.install_package(String::from("bar"), false, false).expect("start");
    assert_eq!(act, Action::FetchListing { url: String::from("http://a") });
    // the first source does not list bar: move to the second
    let act = eng.on_listing(Some(Repository::new(true))).expect("next source");
    assert_eq!(act, Action::FetchListing { url: String::from("http://b") });
    // the second does: download from it
    let listing = repo_of(vec![pkg("bar", "1.0.0-", vec![])]);
    let act = eng.on_listing(Some(listing)).expect("found");
    assert_eq!(
        act,
        Action::DownloadArchive { url: String::from("http://b"), name: String::from("bar") }
    );
}

#[test]
fn no_source_listing_the_package_is_not_found() {
    let cache = repo_of(vec![pkg("bar", "1.0.0-", vec![])]);
    let mut eng = engine(Repository::new(true), cache, vec!["http://a"]);
    eng.install_package(String::from("bar"), false, false).expect("start");
    assert_eq!(eng.on_listing(Some(Repository::new(true))), Err(Error::NotFound));
}

#[test]
fn a_checksum_mismatch_rejects_the_download() {
    let entry = || {
        let mut p = pkg("bar", "1.0.0-", vec![]);
        p.checksum = Some(String::from(ABC_SHA256));
        p
    };
    let cache = repo_of(vec![entry()]);
    let mut eng = engine(Repository::new(true), cache, vec!["http://a"]);
    eng.install_package(String::from("bar"), false, false).expect("start");
    eng.on_listing(Some(repo_of(vec![entry()]))).expect("listed");
    assert_eq!(eng.on_archive(Some(b"tampered".to_vec())), Err(Error::ChecksumMismatch));
}

#[test]
fn a_matching_checksum_is_accepted() {
    let mut with_sum = pkg("bar", "1.0.0-", vec![]);
    with_sum.checksum = Some(sha256_hex(&b"good bytes".to_vec()));
    let listing = repo_of(vec![with_sum]);
    let mut with_sum2 = pkg("bar", "1.0.0-", vec![]);
    with_sum2.checksum = Some(sha256_hex(&b"good bytes".to_vec()));
    let cache = repo_of(vec![with_sum2]);
    let mut eng = engine(Repository::new(true), cache, vec!["http://a"]);
    eng.install_package(String::from("bar"), false, false).expect("start");
    eng.on_listing(Some(listing)).expect("listed");
    let act = eng.on_archive(Some(b"good bytes".to_vec())).expect("verified");
    assert_eq!(
        act,
        Action::Extract { dir_name: String::from("bar"), archive: String::from("bar.star") }
    );
}

#[test]
fn install_runs_end_to_end_and_cleans_the_temp_entries() {
    // ledger empty; cache has bar without a checksum
    let cache = repo_of(vec![pkg("bar", "1.0.0-", vec![])]);
    let mut eng = engine(Repository::new(true), cache, vec!["http://src"]);

    let act = eng.install_package(String::from("bar"), false, false).expect("start");
    assert_eq!(act, Action::FetchListing { url: String::from("http://src") });
    let listing = repo_of(vec![pkg("bar", "1.0.0-", vec![])]);
    let act = eng.on_listing(Some(listing)).expect("listed");
    assert_eq!(
        act,
        Action::DownloadArchive { url: String::from("http://src"), name: String::from("bar") }
    );
    let act = eng.on_archive(Some(b"bar archive".to_vec())).expect("no checksum to check");
    assert_eq!(
        act,
        Action::Extract { dir_name: String::from("bar"), archive: String::from("bar.star") }
    );
    assert_eq!(eng.tmp_archives, vec![String::from("bar.star")]);
    let act = eng.on_extracted(true).expect("extracted");
    assert_eq!(act, Action::ReadManifest { dir_name: String::from("bar") });
    assert_eq!(eng.tmp_dirs, vec![String::from("bar")]);
    let act = eng.on_manifest(Some(pkg("bar", "1.0.0-", vec![]))).expect("no dependencies");
    assert_eq!(act, Action::RunInstallScript { dir_name: String::from("bar") });
    let act = eng.on_script_ran();
    assert_eq!(act, Action::SaveRemoveScript { dir_name: String::from("bar") });
    let act = eng.on_script_saved(true).expect("saved");
    assert_eq!(
        act,
        Action::Cleanup { dir_name: String::from("bar"), archive: String::from("bar.star") }
    );
    let act = eng.on_cleanup_done(true).expect("cleaned");
    assert_eq!(act, Action::SaveLedger);
    let act = eng.on_ledger_saved(true).expect("persisted");
    assert_eq!(act, Action::Done);

    // ledger became {bar: 1.0.0-}; temp archive and extraction directory gone
    assert_eq!(eng.ledger.packages.len(), 1);
    assert_eq!(eng.ledger.get_package(String::from("bar")).expect("bar").version, "1.0.0-");
    assert!(eng.tmp_archives.is_empty());
    assert!(eng.tmp_dirs.is_empty());
}

#[test]
fn a_missing_dependency_aborts_the_install() {
    let cache = repo_of(vec![pkg("app", "1.0.0-", vec![])]);
    let mut eng = engine(Repository::new(true), cache, vec!["http://src"]);
    eng.install_package(String::from("app"), false, false).expect("start");
    eng.on_listing(Some(repo_of(vec![pkg("app", "1.0.0-", vec![])]))).expect("listed");
    eng.on_archive(Some(b"app".to_vec())).expect("fetched");
    eng.on_extracted(true).expect("extracted");
    let manifest = pkg("app", "1.0.0-", vec![("lib", "1.0.0-")]);
    assert_eq!(eng.on_manifest(Some(manifest)), Err(Error::DependencyUnresolved));
}

#[test]
fn a_cached_dependency_is_installed_recursively() {
    let cache = repo_of(vec![
        pkg("app", "1.0.0-", vec![]),
        pkg("lib", "1.5.0-", vec![]),
    ]);
    let listing = || repo_of(vec![pkg("app", "1.0.0-", vec![]), pkg("lib", "1.5.0-", vec![])]);
    let mut eng = engine(Repository::new(true), cache, vec!["http://src"]);

    eng.install_package(String::from("app"), false, false).expect("start");
    eng.on_listing(Some(listing())).expect("listed");
    eng.on_archive(Some(b"app".to_vec())).expect("fetched");
    eng.on_extracted(true).expect("extracted");
    // the manifest wants lib >= 1.0.0-, which only the cache has: a nested
    // install begins
    let act = eng
        .on_manifest(Some(pkg("app", "1.0.0-", vec![("lib", "1.0.0-")])))
        .expect("dependency installable");
    assert_eq!(act, Action::FetchListing { url: String::from("http://src") });
    eng.on_listing(Some(listing())).expect("lib listed");
    eng.on_archive(Some(b"lib".to_vec())).expect("lib fetched");
    eng.on_extracted(true).expect("lib extracted");
    let act = eng.on_manifest(Some(pkg("lib", "1.5.0-", vec![]))).expect("lib has no deps");
    assert_eq!(act, Action::RunInstallScript { dir_name: String::from("lib") });
    eng.on_script_ran();
    eng.on_script_saved(true).expect("lib script saved");
    eng.on_cleanup_done(true).expect("lib cleaned");
    // lib is committed; persisting it resumes the outer install
    let act = eng.on_ledger_saved(true).expect("lib persisted");
    assert_eq!(act, Action::RunInstallScript { dir_name: String::from("app") });
    eng.on_script_ran();
    eng.on_script_saved(true).expect("app script saved");
    eng.on_cleanup_done(true).expect("app cleaned");
    let act = eng.on_ledger_saved(true).expect("app persisted");
    assert_eq!(act, Action::Done);

    assert_eq!(eng.ledger.packages.len(), 2);
    assert!(eng.ledger.get_package(String::from("lib")).is_some());
    assert!(eng.ledger.get_package(String::from("app")).is_some());
    assert!(eng.tmp_archives.is_empty());
    assert!(eng.tmp_dirs.is_empty());
}

#[test]
fn a_local_install_works_from_the_archive_file_name() {
    let mut eng = engine(Repository::new(true), Repository::new(true), vec![]);
    let act = eng
        .install_package(String::from("/downloads/widget.star"), true, false)
        .expect("local start");
    assert_eq!(act, Action::PrepareLocal { path: String::from("/downloads/widget.star") });
    let act = eng.on_local_prepared(Some(String::from("widget.star"))).expect("staged");
    assert_eq!(
        act,
        Action::Extract { dir_name: String::from("widget"), archive: String::from("widget.star") }
    );
    assert_eq!(eng.tmp_archives, vec![String::from("widget.star")]);
}

#[test]
fn a_missing_local_archive_is_not_found() {
    let mut eng = engine(Repository::new(true), Repository::new(true), vec![]);
    eng.install_package(String::from("/nope.star"), true, false).expect("local start");
    assert_eq!(eng.on_local_prepared(None), Err(Error::NotFound));
}

#[test]
fn an_extraction_failure_is_an_io_error() {
    let cache = repo_of(vec![pkg("bar", "1.0.0-", vec![])]);
    let mut eng = engine(Repository::new(true), cache, vec!["http://src"]);
    eng.install_package(String::from("bar"), false, false).expect("start");
    eng.on_listing(Some(repo_of(vec![pkg("bar", "1.0.0-", vec![])]))).expect("listed");
    eng.on_archive(Some(b"bar".to_vec())).expect("fetched");
    assert_eq!(eng.on_extracted(false), Err(Error::IoError));
}

#[test]
fn an_unreadable_manifest_is_a_format_error() {
    let cache = repo_of(vec![pkg("bar", "1.0.0-", vec![])]);
    let mut eng = engine(Repository::new(true), cache, vec!["http://src"]);
    eng.install_package(String::from("bar"), false, false).expect("start");
    eng.on_listing(Some(repo_of(vec![pkg("bar", "1.0.0-", vec![])]))).expect("listed");
    eng.on_archive(Some(b"bar".to_vec())).expect("fetched");
    eng.on_extracted(true).expect("extracted");
    assert_eq!(eng.on_manifest(None), Err(Error::FormatError));
}

#[test]
fn removing_an_absent_package_is_not_found() {
    let mut eng = engine(Repository::new(true), Repository::new(true), vec![]);
    assert_eq!(eng.remove_package(String::from("ghost"), false), Err(Error::NotFound));
}

#[test]
fn removing_a_depended_on_package_needs_force() {
    let ledger = repo_of(vec![
        pkg("lib", "1.0.0-", vec![]),
        pkg("app", "1.0.0-", vec![("lib", "1.0.0-")]),
    ]);
    let mut eng = engine(ledger, Repository::new(true), vec![]);
    assert_eq!(eng.remove_package(String::from("lib"), false), Err(Error::InUse));
    let act = eng.remove_package(String::from("lib"), true).expect("forced");
    assert_eq!(act, Action::RunRemoveScript { name: String::from("lib") });
}

#[test]
fn remove_runs_end_to_end() {
    // ledger = {foo}; nothing depends on it
    let ledger = repo_of(vec![pkg("foo", "1.0.0-", vec![])]);
    let mut eng = engine(ledger, Repository::new(true), vec![]);
    let act = eng.remove_package(String::from("foo"), false).expect("start");
    assert_eq!(act, Action::RunRemoveScript { name: String::from("foo") });
    let act = eng.on_remove_script_ran();
    assert_eq!(act, Action::SaveLedger);
    let act = eng.on_ledger_saved(true).expect("persisted");
    assert_eq!(act, Action::Done);
    assert_eq!(eng.ledger.packages.len(), 0);
}

#[test]
fn update_requires_a_strictly_newer_cached_version() {
    let ledger = repo_of(vec![pkg("foo", "1.0.0-", vec![])]);
    let same_cache = repo_of(vec![pkg("foo", "1.0.0-", vec![])]);
    let mut eng = engine(ledger, same_cache, vec!["http://src"]);
    assert_eq!(eng.update_package(String::from("foo")), Err(Error::UpToDate));

    let ledger = repo_of(vec![pkg("foo", "1.0.0-", vec![])]);
    let newer_cache = repo_of(vec![pkg("foo", "1.1.0-", vec![])]);
    let mut eng = engine(ledger, newer_cache, vec!["http://src"]);
    let act = eng.update_package(String::from("foo")).expect("newer in cache");
    assert_eq!(act, Action::FetchListing { url: String::from("http://src") });
}

#[test]
fn update_reports_missing_and_uncached_packages() {
    let mut eng = engine(Repository::new(true), Repository::new(true), vec![]);
    assert_eq!(eng.update_package(String::from("foo")), Err(Error::NotFound));
    let ledger = repo_of(vec![pkg("foo", "1.0.0-", vec![])]);
    let mut eng = engine(ledger, Repository::new(true), vec![]);
    assert_eq!(eng.update_package(String::from("foo")), Err(Error::NotCached));
}

#[test]
fn dependency_check_consults_ledger_then_cache() {
    let ledger = repo_of(vec![pkg("lib", "2.0.0-", vec![])]);
    let cache = repo_of(vec![pkg("other", "9.0.0-", vec![])]);
    let dep = |n: &str, v: &str| Dependency {
        name: String::from(n),
        min_version: String::from(v),
    };
    assert_eq!(check_dependency(&ledger, &cache, &dep("lib", "1.0.0-")), DepDecision::Satisfied);
    assert_eq!(check_dependency(&ledger, &cache, &dep("lib", "3.0.0-")), DepDecision::Unresolved);
    assert_eq!(
        check_dependency(&ledger, &cache, &dep("other", "1.0.0-")),
        DepDecision::Installable
    );
    assert_eq!(check_dependency(&ledger, &cache, &dep("none", "1.0.0-")), DepDecision::Unresolved);
    assert_eq!(check_dependency(&ledger, &cache, &dep("lib", "oops")), DepDecision::BadVersion);
}

#[test]
fn listing_functions_report_names_and_versions() {
    let ledger = repo_of(vec![pkg("a", "1.0.0-", vec![]), pkg("b", "2.0.0-", vec![])]);
    let mut pairs = list_packages(&ledger);
    pairs.sort();
    assert_eq!(
        pairs,
        vec![
            (String::from("a"), String::from("1.0.0-")),
            (String::from("b"), String::from("2.0.0-"))
        ]
    );
    let available = list_available_packages(&ledger);
    assert_eq!(available.len(), 2);
    let mut names = update_all_packages(&ledger);
    names.sort();
    assert_eq!(names, vec![String::from("a"), String::from("b")]);
    assert!(package_is_cached(&ledger, String::from("a")));
    assert!(!package_is_cached(&ledger, String::from("zzz")));
}

#[test]
fn package_details_are_formatted_from_the_cache_entry() {
    let mut p = pkg("foo", "1.2.3-", vec![]);
    p.description = String::from("A thing");
    p.license = String::from("MIT");
    let cache = repo_of(vec![p]);
    let details = get_package_details(&cache, String::from("foo")).expect("cached");
    assert_eq!(details, "foo - 1.2.3-\n\nA thing\nMIT");
    assert!(get_package_details(&cache, String::from("bar")).is_none());
}
