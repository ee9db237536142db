//! Which files are tracked, the scan of a repository, and watched changes.

use rewind::config::Config;
use rewind::error::RewindError;
use rewind::paths::{join, parent, rel_string};
use rewind::restore::validate_rel_path;
use rewind::tracking::watcher::{filtered_rel, Debouncer, DEFAULT_DEBOUNCE_MS, IDLE_WAIT_MS};
use rewind::tracking::{
    candidate, decide, enters, file_mode, is_below, is_binary, IgnoreReason, IgnoreRules, Matches,
    Scan, BINARY_SNIFF_LEN,
};

const ROOT: &str = "/work/repo";

fn rules_for(cfg: Config) -> IgnoreRules {
    IgnoreRules::new(ROOT, &cfg, &Vec::new(), &Vec::new()).unwrap()
}

fn strings(v: &[&str]) -> Vec<String> {
    v.iter().map(|s| s.to_string()).collect()
}

/// Walks a list of files with their contents, as a walk of a directory would.
fn scan(rules: &IgnoreRules, files: &[(&str, Vec<u8>)]) -> Vec<String> {
    let mut scan = Scan::new(rules);
    for (rel, bytes) in files {
        let mut reached = true;
        let parts: Vec<&str> = rel.split('/').collect();
        for n in 1..=parts.len() {
            let at = parts[..n].join("/");
            reached = reached && enters(rules, Some(&at), n < parts.len());
        }
        if !reached {
            continue;
        }
        let abs = join(ROOT, rel);
        let head = &bytes[..bytes.len().min(BINARY_SNIFF_LEN)];
        scan.enter(&abs, bytes.len() as u64, 0o100644, head);
    }
    let found = scan.finish();
    (0..found.len()).map(|i| found.key_at(i).clone()).collect()
}

#[test]
fn ignores_default_dirs_and_secrets() {
    let rules = rules_for(Config::default());
    assert!(rules.is_custom_ignored("node_modules", true));
    assert!(rules.is_custom_ignored("target", true));
    assert!(rules.is_custom_ignored(".git", true));
    assert!(rules.matches_secret(".env"));
    assert!(rules.matches_secret("server.pem"));
    assert!(rules.matches_secret("config/.env.production"));
    assert!(!rules.should_track(".env"));
    assert!(rules.should_track("src/main.rs"));
}

#[test]
fn secrets_can_be_opted_in() {
    let cfg = Config { track_secrets: true, ..Config::default() };
    assert!(cfg.warning().is_some());
    let rules = rules_for(cfg);
    assert!(rules.should_track(".env"));
    // still reported as a secret for warning purposes
    assert!(rules.matches_secret(".env"));
}

#[test]
fn extra_patterns_apply() {
    let cfg = Config {
        ignore: vec!["coverage/".to_string(), "*.generated.rs".to_string()],
        ..Config::default()
    };
    let rules = rules_for(cfg);
    assert!(rules.is_custom_ignored("coverage", true));
    assert!(!rules.should_track("x.generated.rs"));
    assert!(rules.should_track("x.rs"));
}

#[test]
fn scan_respects_rules_and_size() {
    let cfg = Config { max_file_size: 1024, ..Config::default() };
    let rules = rules_for(cfg);
    let found = scan(
        &rules,
        &[
            ("src/main.rs", b"fn main() {}".to_vec()),
            ("node_modules/pkg/index.js", b"x".to_vec()),
            (".env", b"SECRET=1".to_vec()),
            ("big.txt", vec![b'a'; 2048]),
            ("bin.dat", vec![0u8, 1, 2, 0]),
        ],
    );
    assert_eq!(found, strings(&["src/main.rs"]));
}

#[test]
fn secrets_are_excluded_from_snapshots() {
    let rules = rules_for(Config::default());
    let files = [
        ("src.rs", b"fn main() {}\n".to_vec()),
        (".env", b"API_KEY=supersecret\n".to_vec()),
        ("certs/server.pem", b"-----BEGIN-----\n".to_vec()),
    ];
    assert_eq!(scan(&rules, &files), strings(&["src.rs"]));
    let open = rules_for(Config { track_secrets: true, ..Config::default() });
    assert_eq!(scan(&open, &files).len(), 3);
}

#[test]
fn first_reason_counts() {
    let none = Matches { default_dir: false, secret: false, extra: false, gitignored: false };
    assert_eq!(decide(none, false, 4, None), IgnoreReason::Included);
    assert_eq!(decide(none, false, 4, Some(4)), IgnoreReason::Included);
    assert_eq!(decide(none, false, 4, Some(5)), IgnoreReason::TooLarge);
    let git = Matches { gitignored: true, ..none };
    assert_eq!(decide(git, false, 4, Some(5)), IgnoreReason::GitIgnored);
    let extra = Matches { extra: true, ..git };
    assert_eq!(decide(extra, false, 4, None), IgnoreReason::Extra);
    let secret = Matches { secret: true, ..extra };
    assert_eq!(decide(secret, false, 4, None), IgnoreReason::Secret);
    assert_eq!(decide(secret, true, 4, None), IgnoreReason::Extra);
    let all = Matches { default_dir: true, ..secret };
    assert_eq!(decide(all, false, 4, None), IgnoreReason::DefaultDir);
}

#[test]
fn scanned_paths_are_safe() {
    let rules = rules_for(Config::default());
    let found = scan(
        &rules,
        &[
            ("a/b.txt", b"x".to_vec()),
            (".git/config", b"x".to_vec()),
            ("sub/.git/HEAD", b"x".to_vec()),
            ("sub/.git", b"gitdir: elsewhere".to_vec()),
            ("..a/.gitx", b"x".to_vec()),
        ],
    );
    assert_eq!(found, strings(&["..a/.gitx", "a/b.txt", "sub/.git"]));
    let safe: Vec<bool> = found.iter().map(|p| validate_rel_path(ROOT, p).is_ok()).collect();
    assert_eq!(safe, vec![true, true, false]);
}

#[test]
fn scan_does_not_rely_on_the_walk() {
    let rules = rules_for(Config { max_file_size: 4, ..Config::default() });
    let mut scan = Scan::new(&rules);
    assert_eq!(scan.enter("/work/repo/.env", 1, 0o644, b"x"), None);
    assert_eq!(scan.enter("/work/repo/node_modules/a.js", 1, 0o644, b"x"), None);
    assert_eq!(scan.enter("/elsewhere/a", 1, 0o644, b"x"), None);
    assert_eq!(scan.enter("/work/repo/big", 5, 0o644, b"x"), None);
    assert_eq!(scan.enter("/work/repo/bin", 1, 0o644, b"\0"), None);
    assert_eq!(scan.enter("/work/repo/a", 4, 0o100755, b"x"), Some("a".to_string()));
    let found = scan.finish();
    assert_eq!(found.len(), 1);
    let a = found.get("a").unwrap();
    assert_eq!((a.abs_path.as_str(), a.size, a.mode), ("/work/repo/a", 4, 0o755));
    assert_eq!(candidate(&rules, "/work/repo/a", 5), None);
    assert_eq!(candidate(&rules, "/work/repo/a", 4), Some("a".to_string()));
}

#[test]
fn rules_of_the_repository_apply_to_events() {
    let gitignore = strings(&["ignored.txt", "logs/"]);
    let exclude = strings(&["private.txt"]);
    let rules = IgnoreRules::new(ROOT, &Config::default(), &gitignore, &exclude).unwrap();
    assert!(rules.should_track_event("kept.txt"));
    assert!(rules.should_track_event(".gitignore"));
    assert!(!rules.should_track_event("ignored.txt"));
    assert!(!rules.should_track_event("logs/a.log"));
    assert!(!rules.should_track_event("private.txt"));
}

#[test]
fn reasons_for_not_tracking() {
    let cfg = Config { ignore: strings(&["*.tmp"]), max_file_size: 10, ..Config::default() };
    let rules = rules_for(cfg);
    assert_eq!(rules.classify("a.rs", false, Some(10)), IgnoreReason::Included);
    assert_eq!(rules.classify("a.rs", false, Some(11)), IgnoreReason::TooLarge);
    assert_eq!(rules.classify("a.rs", false, None), IgnoreReason::Included);
    assert_eq!(rules.classify("x.tmp", false, None), IgnoreReason::Extra);
    assert_eq!(rules.classify("id_rsa", false, None), IgnoreReason::Secret);
    assert_eq!(rules.classify("target", true, None), IgnoreReason::DefaultDir);
    assert_eq!(rules.max_file_size(), 10);
    assert_eq!(rules.root(), ROOT);
}

#[test]
fn faulty_pattern_is_refused() {
    let cfg = Config { ignore: strings(&["a{b"]), ..Config::default() };
    let err = match IgnoreRules::new(ROOT, &cfg, &Vec::new(), &Vec::new()) {
        Ok(_) => panic!("not refused"),
        Err(e) => e,
    };
    assert!(matches!(err, RewindError::Other(_)));
    assert!(err.message().starts_with("invalid ignore pattern \"a{b\": "));
    let odd = Config { ignore: strings(&["a\t{b"]), ..Config::default() };
    let err = match IgnoreRules::new(ROOT, &odd, &Vec::new(), &Vec::new()) {
        Ok(_) => panic!("not refused"),
        Err(e) => e,
    };
    assert!(err.message().starts_with("invalid ignore pattern \"a\\t{b\": "));
}

#[test]
fn binary_content_is_told_by_a_zero_byte() {
    assert!(is_binary(&[b'a', 0]));
    assert!(!is_binary(b"plain"));
    assert!(!is_binary(b""));
}

#[test]
fn permission_bits_are_kept() {
    assert_eq!(file_mode(0o100755), 0o755);
    assert_eq!(file_mode(0o100644), 0o644);
}

#[test]
fn paths_below_a_root() {
    assert!(is_below("/work/repo", "a/b"));
    assert!(is_below("/work/repo", "/work/repo/a"));
    assert!(!is_below("/work/repo", "/elsewhere/a"));
    assert_eq!(rel_string("/work/repo", "/work/repo/a/b"), Some("a/b".to_string()));
    assert_eq!(rel_string("/work/repo", "/work/other"), None);
    assert_eq!(join("/a", "b/c"), "/a/b/c");
    assert_eq!(join("/a", "/b"), "/b");
    assert_eq!(parent("/a/b"), Some("/a".to_string()));
    assert_eq!(parent("/"), None);
}

#[test]
fn emits_batch_for_tracked_change() {
    let rules = rules_for(Config::default());
    let mut d = Debouncer::new();
    d.events(&rules, &strings(&["/work/repo/hello.txt"]), 1000);
    assert_eq!(d.wait_ms(80), 80);
    // Too soon, then the batch, then nothing more.
    assert_eq!(d.timeout(1079, 80), None);
    assert_eq!(d.timeout(1080, 80), Some(strings(&["hello.txt"])));
    assert_eq!(d.timeout(2000, 80), None);
    assert_eq!(d.wait_ms(80), IDLE_WAIT_MS);
    assert_eq!(DEFAULT_DEBOUNCE_MS, 300);
}

#[test]
fn ignores_untracked_change() {
    let rules = rules_for(Config::default());
    let mut d = Debouncer::new();
    d.events(&rules, &strings(&["/work/repo/node_modules/x.js", "/elsewhere/y"]), 0);
    assert_eq!(d.timeout(400, 80), None);
    assert_eq!(filtered_rel(&rules, "/work/repo/.git/HEAD"), None);
    assert_eq!(filtered_rel(&rules, "/work/repo/a.rs"), Some("a.rs".to_string()));
}

#[test]
fn pending_changes_are_told_at_the_end() {
    let rules = rules_for(Config::default());
    let mut d = Debouncer::new();
    d.events(&rules, &strings(&["/work/repo/b", "/work/repo/a", "/work/repo/b"]), 0);
    assert_eq!(d.closed(), Some(strings(&["a", "b"])));
    assert_eq!(Debouncer::new().closed(), None);
}
