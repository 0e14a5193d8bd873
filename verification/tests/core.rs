use crate2nix::cache::{cache_bytes_if_changed, load_cache, CacheMap, PackageId};
use crate2nix::errors::Error;
use crate2nix::nix_build::{build_outcome, escape_nix_string, features_literal, nix_build_args, numbered_lines};
use crate2nix::prefetch::{
    fetch_plan, git_hash_from_json, interpret_command_output, prefetch_command, progress_total,
    reassemble, results_cover, source_eq, CrateDerivation, ResolvedSource,
};

fn registry(name: &str, version: &str, sha256: Option<&str>) -> ResolvedSource {
    ResolvedSource::CratesIo {
        name: String::from(name),
        version: String::from(version),
        sha256: sha256.map(String::from),
    }
}

fn git(url: &str, rev: &str, git_ref: Option<&str>) -> ResolvedSource {
    ResolvedSource::Git {
        url: String::from(url),
        rev: String::from(rev),
        git_ref: git_ref.map(String::from),
        sha256: None,
    }
}

fn pkg(id: &str, source: ResolvedSource) -> CrateDerivation {
    CrateDerivation { package_id: PackageId::new(String::from(id)), source }
}

fn get_hash(m: &CacheMap, id: &str) -> Option<String> {
    m.get(&PackageId::new(String::from(id))).cloned()
}

#[test]
fn load_cache_empty_object() {
    let m = load_cache("{}").unwrap();
    assert_eq!(m.len(), 0);
}

#[test]
fn load_cache_corrupt() {
    let r = load_cache("not json at all");
    assert_eq!(r.unwrap_err(), Error::CacheCorrupt);
    let r = load_cache("[1, 2, 3]");
    assert_eq!(r.unwrap_err(), Error::CacheCorrupt);
}

#[test]
fn load_cache_entries() {
    let m = load_cache("{\"a 1.0.0\":\"hash-a\",\"b 2.0.0\":\"hash-b\"}").unwrap();
    assert_eq!(m.len(), 2);
    assert_eq!(get_hash(&m, "a 1.0.0").unwrap(), "hash-a");
    assert_eq!(get_hash(&m, "b 2.0.0").unwrap(), "hash-b");
    assert!(get_hash(&m, "c 3.0.0").is_none());
}

#[test]
fn cache_write_avoidance_on_equal_mappings() {
    let mut a = CacheMap::new();
    a.insert(PackageId::new(String::from("x")), String::from("h1"));
    a.insert(PackageId::new(String::from("y")), String::from("h2"));
    let mut b = CacheMap::new();
    b.insert(PackageId::new(String::from("y")), String::from("h2"));
    b.insert(PackageId::new(String::from("x")), String::from("h1"));
    assert!(cache_bytes_if_changed(&a, &b).is_none());
    assert!(cache_bytes_if_changed(&a, &a).is_none());
}

#[test]
fn cache_bytes_round_trip() {
    let mut a = CacheMap::new();
    a.insert(PackageId::new(String::from("x 1.0")), String::from("h1"));
    a.insert(PackageId::new(String::from("y 2.0")), String::from("h2"));
    let empty = CacheMap::new();
    let bytes = cache_bytes_if_changed(&a, &empty).unwrap();
    let text = String::from_utf8(bytes).unwrap();
    let back = load_cache(&text).unwrap();
    assert_eq!(back.len(), 2);
    assert_eq!(get_hash(&back, "x 1.0").unwrap(), "h1");
    assert_eq!(get_hash(&back, "y 2.0").unwrap(), "h2");
}

#[test]
fn plan_selects_only_unhashed_external_sources() {
    let packages = vec![
        pkg("a", registry("foo", "1.0.0", None)),
        pkg("b", git("https://example.com/r.git", "abcdef", Some("main"))),
        pkg("c", ResolvedSource::Other),
        pkg("d", registry("bar", "2.0.0", Some("already"))),
    ];
    let cache = CacheMap::new();
    let plan = fetch_plan(&packages, &cache);
    assert_eq!(plan.len(), 2);
    assert_eq!(plan[0].package_id.repr, "a");
    assert_eq!(plan[0].command.program, "nix-prefetch-url");
    assert_eq!(
        plan[0].command.args,
        vec![
            String::from("https://crates.io/api/v1/crates/foo/1.0.0/download"),
            String::from("--name"),
            String::from("foo-1.0.0"),
        ]
    );
    assert_eq!(plan[1].package_id.repr, "b");
    assert_eq!(plan[1].command.program, "nix-prefetch-git");
    assert_eq!(
        plan[1].command.args,
        vec![
            String::from("--url"),
            String::from("https://example.com/r.git"),
            String::from("--fetch-submodules"),
            String::from("--rev"),
            String::from("abcdef"),
            String::from("--branch-name"),
            String::from("main"),
        ]
    );
}

#[test]
fn plan_skips_cached_identities() {
    let packages = vec![pkg("a", registry("foo", "1.0.0", None))];
    let cache = load_cache("{\"a\":\"cached-hash\"}").unwrap();
    let plan = fetch_plan(&packages, &cache);
    assert_eq!(plan.len(), 0);
}

#[test]
fn git_command_without_branch_hint() {
    let source = git("https://example.com/r.git", "abcdef", None);
    let cmd = prefetch_command(&source).unwrap();
    assert_eq!(
        cmd.args,
        vec![
            String::from("--url"),
            String::from("https://example.com/r.git"),
            String::from("--fetch-submodules"),
            String::from("--rev"),
            String::from("abcdef"),
        ]
    );
}

#[test]
fn prefetch_command_rejects_other_sources() {
    let r = prefetch_command(&ResolvedSource::Other);
    assert_eq!(r.unwrap_err(), Error::UnexpectedSourceKind);
}

#[test]
fn progress_counts_unique_sources_once() {
    let shared = git("https://example.com/r.git", "abcdef", None);
    let packages = vec![
        pkg("a", shared.with_sha256(String::from("s"))),
        pkg("b", git("https://example.com/r.git", "abcdef", None)),
        pkg("c", git("https://example.com/r.git", "abcdef", None)),
        pkg("d", registry("foo", "1.0.0", None)),
        pkg("e", ResolvedSource::Other),
    ];
    let cache = CacheMap::new();
    // b and c share one source; a's differs (it carries a hash), d is its own.
    assert!(source_eq(&packages[1].source, &packages[2].source));
    assert!(!source_eq(&packages[0].source, &packages[1].source));
    assert_eq!(progress_total(&packages, &cache), 3);
}

#[test]
fn progress_skips_cached_identities() {
    let packages = vec![
        pkg("a", registry("foo", "1.0.0", None)),
        pkg("b", registry("bar", "2.0.0", None)),
    ];
    let cache = load_cache("{\"a\":\"cached\"}").unwrap();
    assert_eq!(progress_total(&packages, &cache), 1);
}

#[test]
fn interpret_output_trims_and_decodes() {
    let r = interpret_command_output(true, Some(0), b"  abc123\n".to_vec());
    assert_eq!(r.unwrap(), "abc123");
}

#[test]
fn interpret_output_reports_exit_code() {
    let r = interpret_command_output(false, Some(2), b"whatever".to_vec());
    assert_eq!(r.unwrap_err(), Error::ProcessExitedNonzero(2));
    let r = interpret_command_output(false, None, Vec::new());
    assert_eq!(r.unwrap_err(), Error::ProcessExitedNonzero(-1));
}

#[test]
fn interpret_output_rejects_invalid_text() {
    let r = interpret_command_output(true, Some(0), vec![0xff, 0xfe, 0xfd]);
    assert_eq!(r.unwrap_err(), Error::OutputNotDecodable);
}

#[test]
fn git_payload_hash_extraction() {
    let r = git_hash_from_json("{\"url\":\"u\",\"sha256\":\"def456\",\"fetchSubmodules\":true}");
    assert_eq!(r.unwrap(), "def456");
    let r = git_hash_from_json("{\"url\":\"u\"}");
    assert_eq!(r.unwrap_err(), Error::OutputNotDecodable);
    let r = git_hash_from_json("garbage");
    assert_eq!(r.unwrap_err(), Error::OutputNotDecodable);
    let r = git_hash_from_json("{\"sha256\":17}");
    assert_eq!(r.unwrap_err(), Error::OutputNotDecodable);
}

#[test]
fn end_to_end_two_packages() {
    let mut packages = vec![
        pkg("A", registry("foo", "1.0.0", None)),
        pkg("B", git("https://example.com/r.git", "abcdef", None)),
    ];
    let old = load_cache("{}").unwrap();
    let plan = fetch_plan(&packages, &old);
    assert_eq!(plan.len(), 2);
    assert_eq!(progress_total(&packages, &old), 2);

    // Fake fetcher outputs, interpreted exactly as real command output is.
    let hash_a = interpret_command_output(true, Some(0), b"abc123\n".to_vec()).unwrap();
    let payload_b = interpret_command_output(
        true,
        Some(0),
        b"{\"sha256\":\"def456\"}\n".to_vec(),
    ).unwrap();
    let hash_b = git_hash_from_json(&payload_b).unwrap();

    let fetched = vec![
        (PackageId::new(String::from("A")), hash_a),
        (PackageId::new(String::from("B")), hash_b),
    ];
    assert!(results_cover(&packages, &old, &fetched));
    let m = reassemble(&mut packages, &old, &fetched);
    assert_eq!(m.len(), 2);
    assert_eq!(get_hash(&m, "A").unwrap(), "abc123");
    assert_eq!(get_hash(&m, "B").unwrap(), "def456");
    match &packages[0].source {
        ResolvedSource::CratesIo { sha256, .. } => assert_eq!(sha256.as_deref(), Some("abc123")),
        _ => panic!("source kind changed"),
    }
    match &packages[1].source {
        ResolvedSource::Git { sha256, .. } => assert_eq!(sha256.as_deref(), Some("def456")),
        _ => panic!("source kind changed"),
    }

    // Persist exactly that mapping.
    let bytes = cache_bytes_if_changed(&m, &old).unwrap();
    let text = String::from_utf8(bytes).unwrap();
    let persisted = load_cache(&text).unwrap();
    assert_eq!(persisted.len(), 2);
    assert_eq!(get_hash(&persisted, "A").unwrap(), "abc123");
    assert_eq!(get_hash(&persisted, "B").unwrap(), "def456");
}

#[test]
fn correlation_by_identity_not_order() {
    // Two packages share an identical source and both require a fetch;
    // results arrive in reversed completion order.
    let mut packages = vec![
        pkg("A", git("https://example.com/r.git", "abcdef", None)),
        pkg("B", git("https://example.com/r.git", "abcdef", None)),
    ];
    let old = CacheMap::new();
    let fetched = vec![
        (PackageId::new(String::from("B")), String::from("hash-of-B")),
        (PackageId::new(String::from("A")), String::from("hash-of-A")),
    ];
    assert!(results_cover(&packages, &old, &fetched));
    let m = reassemble(&mut packages, &old, &fetched);
    assert_eq!(get_hash(&m, "A").unwrap(), "hash-of-A");
    assert_eq!(get_hash(&m, "B").unwrap(), "hash-of-B");

    // The same results in the other order reconcile to the same mapping.
    let mut packages2 = vec![
        pkg("A", git("https://example.com/r.git", "abcdef", None)),
        pkg("B", git("https://example.com/r.git", "abcdef", None)),
    ];
    let fetched2 = vec![
        (PackageId::new(String::from("A")), String::from("hash-of-A")),
        (PackageId::new(String::from("B")), String::from("hash-of-B")),
    ];
    let m2 = reassemble(&mut packages2, &old, &fetched2);
    assert!(cache_bytes_if_changed(&m, &m2).is_none());
}

#[test]
fn second_run_fetches_nothing() {
    let mut packages = vec![
        pkg("A", registry("foo", "1.0.0", None)),
        pkg("B", git("https://example.com/r.git", "abcdef", None)),
    ];
    let old = load_cache("{}").unwrap();
    let fetched = vec![
        (PackageId::new(String::from("A")), String::from("abc123")),
        (PackageId::new(String::from("B")), String::from("def456")),
    ];
    let m = reassemble(&mut packages, &old, &fetched);

    // A rerun over the same package list, loading the persisted mapping.
    let rerun = vec![
        pkg("A", registry("foo", "1.0.0", None)),
        pkg("B", git("https://example.com/r.git", "abcdef", None)),
    ];
    assert_eq!(fetch_plan(&rerun, &m).len(), 0);
    assert_eq!(progress_total(&rerun, &m), 0);
    let mut rerun2 = rerun;
    let m2 = reassemble(&mut rerun2, &m, &Vec::new());
    assert!(cache_bytes_if_changed(&m2, &m).is_none());
}

#[test]
fn stale_cache_entries_are_pruned() {
    let old = load_cache("{\"gone\":\"old-hash\",\"A\":\"kept-hash\"}").unwrap();
    let mut packages = vec![pkg("A", registry("foo", "1.0.0", None))];
    let fetched: Vec<(PackageId, String)> = Vec::new();
    assert!(results_cover(&packages, &old, &fetched));
    let m = reassemble(&mut packages, &old, &fetched);
    assert_eq!(m.len(), 1);
    assert_eq!(get_hash(&m, "A").unwrap(), "kept-hash");
    assert!(get_hash(&m, "gone").is_none());
}

#[test]
fn cached_hashes_are_trimmed_on_use() {
    let old = load_cache("{\"A\":\" padded-hash\\n\"}").unwrap();
    let mut packages = vec![pkg("A", registry("foo", "1.0.0", None))];
    let m = reassemble(&mut packages, &old, &Vec::new());
    assert_eq!(get_hash(&m, "A").unwrap(), "padded-hash");
}

#[test]
fn escape_plain_and_special_characters() {
    assert_eq!(escape_nix_string("default"), "\"default\"");
    assert_eq!(escape_nix_string(""), "\"\"");
    assert_eq!(escape_nix_string("a\"b\\c$d"), "\"a\\\"b\\\\c\\$d\"");
}

#[test]
fn features_literal_rendering() {
    let features = vec![String::from("default"), String::from("extra-feature")];
    assert_eq!(features_literal(&features), "[ \"default\" \"extra-feature\" ]");
    let empty: Vec<String> = Vec::new();
    assert_eq!(features_literal(&empty), "[  ]");
}

#[test]
fn build_argument_list() {
    let features = vec![String::from("default")];
    let args = nix_build_args("rootCrate.build", &features);
    assert_eq!(
        args,
        vec![
            String::from("--show-trace"),
            String::from("build"),
            String::from("-f"),
            String::from("default.nix"),
            String::from("rootCrate.build"),
            String::from("--arg"),
            String::from("rootFeatures"),
            String::from("[ \"default\" ]"),
        ]
    );
}

#[test]
fn build_failure_reports_exit_code() {
    assert!(build_outcome(true, Some(0)).is_ok());
    assert_eq!(build_outcome(false, Some(101)).unwrap_err(), Error::BuildFailed(101));
    assert_eq!(build_outcome(false, None).unwrap_err(), Error::BuildFailed(-1));
}

#[test]
fn failure_dump_is_line_numbered() {
    let lines = vec![String::from("first line"), String::from("second line")];
    let dump = numbered_lines(&lines);
    assert_eq!(dump, vec![String::from("    1: first line"), String::from("    2: second line")]);
}

#[test]
fn failure_dump_aligns_wide_line_numbers() {
    let mut lines: Vec<String> = Vec::new();
    for i in 0..12 {
        lines.push(format!("line {}", i + 1));
    }
    let dump = numbered_lines(&lines);
    assert_eq!(dump[8], "    9: line 9");
    assert_eq!(dump[9], "   10: line 10");
    assert_eq!(dump[11], "   12: line 12");
}
