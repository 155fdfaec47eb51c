use rammingen::archive_path::{ArchivePath, PathError};
use rammingen::config::{Config, EncryptionKey, MountPoint};
use rammingen::local_path::SanitizedLocalPath;
use rammingen::metadata::{unix_mode, FileMetadata};
use rammingen::rules::{Rule, RuleError, Rules};

const KEY_TEXT: &str = "AAECAwQFBgcICQoLDA0ODxAREhMUFRYXGBkaGxwdHh8gISIjJCUmJygpKissLS4vMDEyMzQ1Njc4OTo7PD0-Pw";

fn local(s: &str) -> SanitizedLocalPath {
    SanitizedLocalPath::new(s).unwrap()
}

fn sample_config(db: Option<String>) -> Config {
    Config {
        always_exclude: vec![
            Rule::NameEquals("target".to_string()),
            Rule::NameMatches("^build_".to_string()),
        ],
        mount_points: vec![MountPoint {
            local_path: local("/home/u/docs"),
            archive_path: ArchivePath::parse("ar:/my_files").unwrap(),
            exclude: vec![Rule::PathEquals("/home/u/docs/private".to_string())],
        }],
        encryption_key: EncryptionKey::from_base64(KEY_TEXT).unwrap(),
        server_url: "http://127.0.0.1:8000/".to_string(),
        token: "token0".to_string(),
        salt: "salt1".to_string(),
        local_db_path: db,
    }
}

#[test]
fn rule_exclusion_scenario() {
    let rules = Rules::new(
        &vec![vec![
            Rule::NameEquals("target".to_string()),
            Rule::NameMatches("^build_".to_string()),
        ]],
        local("/m"),
    )
    .unwrap();
    assert!(!rules.is_excluded(&local("/m/a.txt")));
    assert!(rules.is_excluded(&local("/m/target")));
    assert!(rules.is_excluded(&local("/m/build_out")));
    assert!(!rules.is_excluded(&local("/m/my_build_out")));
    assert!(!rules.is_excluded(&local("/m/targets")));
    assert_eq!(rules.root().as_str(), "/m");
}

#[test]
fn exclusion_is_repeatable() {
    let rules = Rules::new(&vec![vec![Rule::NameMatches("^build_".to_string())]], local("/m")).unwrap();
    let p = local("/m/build_x");
    assert_eq!(rules.is_excluded(&p), rules.is_excluded(&p));
    assert_eq!(rules.is_excluded(&p), rules.is_excluded(&local("/m/build_x")));
}

#[test]
fn path_rules() {
    let rules = Rules::new(
        &vec![
            vec![Rule::PathEquals("/m/secret".to_string())],
            vec![Rule::PathMatches("\\.tmp$".to_string())],
        ],
        local("/m"),
    )
    .unwrap();
    assert!(rules.is_excluded(&local("/m/secret")));
    assert!(!rules.is_excluded(&local("/m/secret2")));
    assert!(rules.is_excluded(&local("/m/a/b.tmp")));
}

#[test]
fn invalid_pattern_is_refused() {
    let r = Rules::new(
        &vec![vec![Rule::NameEquals("x".to_string())], vec![Rule::NameMatches("(".to_string())]],
        local("/m"),
    );
    assert_eq!(r.unwrap_err(), RuleError::InvalidPattern(1));
}

#[test]
fn mount_rules_combine_global_and_own() {
    let config = sample_config(None);
    let rules = config.rules_for_mount(0).unwrap();
    assert!(rules.is_excluded(&local("/home/u/docs/target")));
    assert!(rules.is_excluded(&local("/home/u/docs/private")));
    assert!(!rules.is_excluded(&local("/home/u/docs/public")));
}

#[test]
fn mount_maps_local_to_archive() {
    let config = sample_config(None);
    let mount = &config.mount_points[0];
    let p = mount.archive_path_for(&local("/home/u/docs/a/report.pdf")).unwrap();
    assert_eq!(p.to_text(), "ar:/my_files/a/report.pdf");
    assert_eq!(mount.archive_path_for(&local("/home/u")).unwrap_err(), PathError::NotDescendant);
    assert_eq!(mount.archive_path_for(&local("/home/u/docs/a/..")).unwrap_err(), PathError::InvalidSegment);
}

#[test]
fn db_path_defaults_to_data_dir() {
    let config = sample_config(None);
    assert_eq!(config.db_path(Some("/data".to_string())).unwrap(), "/data/rammingen.db");
    assert!(config.db_path(None).is_none());
    let config = sample_config(Some("/x/db".to_string()));
    assert_eq!(config.db_path(Some("/data".to_string())).unwrap(), "/x/db");
}

#[test]
fn unix_mode_reads_metadata() {
    let m = FileMetadata { is_dir: false, size: 3, modified_at: 7, mode: Some(0o100644) };
    assert_eq!(unix_mode(&m), Some(0o100644));
    let m = FileMetadata { mode: None, ..m };
    assert_eq!(unix_mode(&m), None);
}
