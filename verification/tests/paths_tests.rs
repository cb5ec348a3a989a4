use zsh_history_backup::config::AppConfig;
use zsh_history_backup::paths::{config_location, join, AppPaths, PathsError};

fn config(history_file: Option<&str>, backup_dir: Option<&str>) -> AppConfig {
    AppConfig {
        history_file: history_file.map(|s| s.to_string()),
        backup_dir: backup_dir.map(|s| s.to_string()),
    }
}

#[test]
fn join_follows_pathbuf_push() {
    assert_eq!(join("/home/u", "a"), "/home/u/a");
    assert_eq!(join("/home/u/", "a"), "/home/u/a");
    assert_eq!(join("", "a"), "a");
    assert_eq!(join("/home/u", "/etc"), "/etc");
    for (base, part) in [("/x", "y/z"), ("/x/", "y"), ("rel", "y"), ("/x", "/abs")] {
        assert_eq!(
            join(base, part),
            std::path::Path::new(base).join(part).to_string_lossy()
        );
    }
}

#[test]
fn default_paths() {
    let paths = AppPaths::discover(Some("/home/u"), None, &AppConfig::default()).unwrap();
    assert_eq!(paths.history_file, "/home/u/.zsh_history");
    assert_eq!(paths.state_dir, "/home/u/.local/state/zsh-history-backup");
    assert_eq!(paths.backups_dir, "/home/u/.local/state/zsh-history-backup/backups");
    assert_eq!(paths.exports_dir, "/home/u/.local/state/zsh-history-backup/exports");
    assert_eq!(paths.log_file, "/home/u/.local/state/zsh-history-backup/logs/backup.log");
}

#[test]
fn absolute_xdg_state_home_is_used() {
    let paths = AppPaths::discover(Some("/home/u"), Some("/var/state"), &AppConfig::default()).unwrap();
    assert_eq!(paths.state_dir, "/var/state/zsh-history-backup");
    let paths = AppPaths::discover(Some("/home/u"), Some("state"), &AppConfig::default()).unwrap();
    assert_eq!(paths.state_dir, "/home/u/.local/state/zsh-history-backup");
    let paths = AppPaths::discover(Some("/home/u"), Some(""), &AppConfig::default()).unwrap();
    assert_eq!(paths.state_dir, "/home/u/.local/state/zsh-history-backup");
}

#[test]
fn home_must_be_set_and_absolute() {
    let c = AppConfig::default();
    assert_eq!(AppPaths::discover(None, None, &c).unwrap_err(), PathsError::HomeNotSet);
    assert_eq!(AppPaths::discover(Some(""), None, &c).unwrap_err(), PathsError::HomeNotSet);
    assert_eq!(
        AppPaths::discover(Some("home/u"), None, &c).unwrap_err(),
        PathsError::HomeNotAbsolute
    );
    assert_eq!(PathsError::HomeNotSet.message(), "HOME is not set");
    assert_eq!(PathsError::HomeNotAbsolute.message(), "HOME must be an absolute path");
}

#[test]
fn configured_history_file() {
    let p = AppPaths::discover(Some("/home/u"), None, &config(Some("~/.zsh_history_alt"), None)).unwrap();
    assert_eq!(p.history_file, "/home/u/.zsh_history_alt");
    let p = AppPaths::discover(Some("/home/u"), None, &config(Some("/data/hist"), None)).unwrap();
    assert_eq!(p.history_file, "/data/hist");
    let e = AppPaths::discover(Some("/home/u"), None, &config(Some("hist"), None)).unwrap_err();
    assert_eq!(e, PathsError::HistoryFileNotAllowed);
    assert_eq!(e.message(), "history_file must be an absolute path or start with ~/");
    let e = AppPaths::discover(Some("/home/u"), None, &config(Some("~hist"), None)).unwrap_err();
    assert_eq!(e, PathsError::HistoryFileNotAllowed);
}

#[test]
fn configured_backup_dir_stays_inside_the_state_directory() {
    let p = AppPaths::discover(Some("/home/u"), None, &config(None, Some("daily/backups"))).unwrap();
    assert_eq!(p.backups_dir, "/home/u/.local/state/zsh-history-backup/daily/backups");
    for bad in ["/tmp/x", "", "../x", "a/../..", "a/..", "..", ".", "./", "a/../../b", "//x"] {
        let e = AppPaths::discover(Some("/home/u"), None, &config(None, Some(bad))).unwrap_err();
        assert_eq!(e, PathsError::BackupDirNotAllowed, "{bad}");
    }
    for (good, dir) in [("./backups", "./backups"), ("a/../b", "a/../b"), ("a/./b/", "a/./b/"), ("a//b", "a//b")] {
        let p = AppPaths::discover(Some("/home/u"), None, &config(None, Some(good))).unwrap();
        assert_eq!(p.backups_dir, format!("/home/u/.local/state/zsh-history-backup/{dir}"));
    }
    let p = AppPaths::discover(Some("/home/u"), None, &config(None, Some("..x/.y/..."))).unwrap();
    assert_eq!(p.backups_dir, "/home/u/.local/state/zsh-history-backup/..x/.y/...");
    assert_eq!(
        PathsError::BackupDirNotAllowed.message(),
        "backup_dir must be a relative path inside the state directory"
    );
}

#[test]
fn config_file_location() {
    let l = config_location(Some("/home/u"), None, None).unwrap();
    assert_eq!(l.path, "/home/u/.config/zsh-history-backup/config.toml");
    assert!(!l.required);
    let l = config_location(Some("/home/u"), Some("/cfg"), None).unwrap();
    assert_eq!(l.path, "/cfg/zsh-history-backup/config.toml");
    let l = config_location(Some("/home/u"), Some("cfg"), None).unwrap();
    assert_eq!(l.path, "/home/u/.config/zsh-history-backup/config.toml");
    let l = config_location(Some("/home/u"), None, Some("/etc/zhb.toml")).unwrap();
    assert_eq!(l.path, "/etc/zhb.toml");
    assert!(l.required);
    assert_eq!(config_location(None, None, None).unwrap_err(), PathsError::HomeNotSet);
}

#[test]
fn layout_lists_the_private_directories() {
    let paths = AppPaths::discover(Some("/home/u"), None, &AppConfig::default()).unwrap();
    let layout = paths.ensure_layout();
    assert_eq!(
        layout.directories,
        vec![
            "/home/u/.local/state/zsh-history-backup".to_string(),
            "/home/u/.local/state/zsh-history-backup/backups".to_string(),
            "/home/u/.local/state/zsh-history-backup/exports".to_string(),
            "/home/u/.local/state/zsh-history-backup/logs".to_string(),
        ]
    );
    assert_eq!(layout.outcome, Ok(()));
}

#[test]
fn layout_makes_the_first_directories_before_failing_on_the_log() {
    let paths = AppPaths {
        history_file: "/h".to_string(),
        state_dir: "/s".to_string(),
        backups_dir: "/s/b".to_string(),
        exports_dir: "/s/e".to_string(),
        log_file: "/".to_string(),
    };
    let layout = paths.ensure_layout();
    assert_eq!(
        layout.directories,
        vec!["/s".to_string(), "/s/b".to_string(), "/s/e".to_string()]
    );
    assert_eq!(layout.outcome, Err(PathsError::LogPathWithoutParent));
    assert_eq!(
        PathsError::LogPathWithoutParent.message(),
        "log path has no parent directory"
    );
    assert_eq!(
        paths.layout_directories(Some("/s/logs".to_string())).directories[3],
        "/s/logs"
    );
}
