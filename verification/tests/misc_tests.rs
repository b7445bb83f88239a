use waka::autoremove::run_autoremove;
use waka::constants::{
    cache_dir, clear_lockfile, config_paths, db_path, gpg_dir, lock_file, pacman_conf, pacman_log,
    set_lockfile, trans_init, Config, WakaConfig,
};
use waka::dbsync::{db_bar_width, db_byte_table, db_row, db_table, on_db_download, repo_of_db_file, DbEvent};
use waka::handle::{AlpmHandle, SyncDb};
use waka::keyed::{get_copy, put, take};
use waka::packages::{Package, PackageReason};
use waka::pkginfo::{
    add_deps, build_date_text, dep_lines, deps_to_strings, detail_from_prep_err, format_maintainer,
    info_box, info_lines, install_date_text, validation_str, Dep, DepMod, PackageDetails, PrepareDetail,
};
use waka::sort::{key1, key2, sort_indices};

fn pkg(name: &str, version: &str, reason: PackageReason, required_by: &[&str]) -> Package {
    Package {
        name: name.to_string(),
        version: version.to_string(),
        desc: None,
        db: None,
        size: 0,
        isize: 0,
        download_size: 0,
        reason,
        depends: vec![],
        required_by: required_by.iter().map(|s| s.to_string()).collect(),
    }
}

#[test]
fn paths_of_pacman() {
    assert_eq!(pacman_conf(), "/etc/pacman.conf");
    assert_eq!(pacman_log(), "/var/log/pacman.log");
    assert_eq!(cache_dir(), "/var/cache/pacman/pkg");
    assert_eq!(db_path(), "/var/lib/pacman");
    assert_eq!(lock_file(), "/var/lib/pacman/db.lck");
    assert_eq!(gpg_dir(), "/etc/pacman.d/gnupg");
}

#[test]
fn lock_file_slot() {
    let mut slot: Option<String> = None;
    trans_init(&mut slot);
    assert_eq!(slot.as_deref(), Some("/var/lib/pacman/db.lck"));
    clear_lockfile(&mut slot);
    assert!(slot.is_none());
    set_lockfile(&mut slot, "/tmp/x.lck");
    assert_eq!(slot.as_deref(), Some("/tmp/x.lck"));
}

#[test]
fn config_search_order() {
    assert_eq!(
        config_paths(Some("/x"), Some("/home/u")),
        vec![
            "/x/waka/waka.conf",
            "/home/u/.config/waka/waka.conf",
            "/home/u/.waka.conf",
            "/etc/waka/waka.conf",
            "/usr/etc/waka/waka.conf",
        ]
    );
    assert_eq!(config_paths(None, None), vec!["/etc/waka/waka.conf", "/usr/etc/waka/waka.conf"]);
    let c = Config { waka: WakaConfig { assume_yes: true } };
    assert!(c.waka.assume_yes);
}

#[test]
fn handle_finds_packages() {
    let h = AlpmHandle {
        local: vec![pkg("vim", "9.1-1", PackageReason::Explicit, &[])],
        sync: vec![
            SyncDb { name: "core".to_string(), pkgs: vec![pkg("bash", "5.2-1", PackageReason::Explicit, &[])] },
            SyncDb {
                name: "extra".to_string(),
                pkgs: vec![
                    pkg("vim", "9.1-2", PackageReason::Explicit, &[]),
                    pkg("bash", "9.9-9", PackageReason::Explicit, &[]),
                ],
            },
        ],
    };
    assert_eq!(h.find_local_pkg("vim").map(|p| p.version.clone()), Some("9.1-1".to_string()));
    assert!(h.find_local_pkg("bash").is_none());
    assert_eq!(h.find_sync_pkg("bash").map(|p| p.version.clone()), Some("5.2-1".to_string()));
    assert_eq!(h.find_sync_pkg("vim").map(|p| p.version.clone()), Some("9.1-2".to_string()));
    assert!(h.find_sync_pkg("zsh").is_none());
}

#[test]
fn keyed_put_take() {
    let mut v: Vec<(String, i64)> = Vec::new();
    put(&mut v, "a", 1);
    put(&mut v, "b", 2);
    put(&mut v, "a", 3);
    assert_eq!(v.len(), 2);
    assert_eq!(get_copy(&v, "a"), Some(3));
    assert_eq!(take(&mut v, "a"), Some(3));
    assert_eq!(take(&mut v, "a"), None);
    assert_eq!(get_copy(&v, "b"), Some(2));
}

#[test]
fn database_files_map_to_repositories() {
    assert_eq!(repo_of_db_file("/var/lib/pacman/sync/core.db"), "core");
    // a partial download keeps its whole name, and matches no repository
    assert_eq!(repo_of_db_file("extra.db.part"), "extra.db.part");
    assert_eq!(repo_of_db_file("core.files"), "core.files");
    let names = vec!["core".to_string(), "extra".to_string()];
    let mut t = db_byte_table(&names);
    on_db_download(&mut t, "/sync/core.db", DbEvent::Progress { downloaded: 10, total: 100 });
    on_db_download(&mut t, "/sync/extra.db", DbEvent::Completed { total: 2048 });
    on_db_download(&mut t, "/sync/extra.db.part", DbEvent::Progress { downloaded: 1, total: 1 });
    on_db_download(&mut t, "/sync/other.db", DbEvent::Progress { downloaded: 1, total: 1 });
    assert_eq!(get_copy(&t, "core"), Some((10, 100)));
    assert_eq!(get_copy(&t, "extra"), Some((2048, 2048)));
    assert_eq!(get_copy(&t, "other"), None);
}

#[test]
fn database_table_rows() {
    let names = vec!["extra".to_string(), "core".to_string(), "multilib".to_string()];
    let mut t = db_byte_table(&names);
    on_db_download(&mut t, "extra.db", DbEvent::Completed { total: 8 * 1024 * 1024 });
    let table = db_table(&names, &t);
    assert_eq!(table.names, vec!["core", "extra", "multilib"]);
    assert_eq!(table.sizes, vec!["0 B", "8.0 MiB", "0 B"]);
    assert_eq!(table.name_width, 8);
    assert_eq!(table.size_width, 7);
    let w = 80;
    let bw = db_bar_width("core", 8, 7, w);
    // min(80 - (10 + 3 + 7 + 2), 80 / 4) = 20
    assert_eq!(bw, 20);
    let row = db_row("core", "0 B", 8, 7, w, 20);
    let want_block = format!("[{}]     0 B ", "━".repeat(20));
    let want = format!(" core     {}{}", " ".repeat(80 - 10 - 31), want_block);
    assert_eq!(row, want);
    assert_eq!(row.chars().count(), 80);
    assert_eq!(db_bar_width("core", 8, 7, 20), 10);
    let empty = db_table(&vec![], &t);
    assert_eq!(empty.size_width, 3);
    assert_eq!(empty.name_width, 1);
}

#[test]
fn orphan_removal_plan() {
    let local = vec![
        pkg("vim", "9.1-1", PackageReason::Explicit, &[]),
        pkg("libfoo", "1.0-1", PackageReason::Depend, &[]),
        pkg("libbar", "2.0-1", PackageReason::Depend, &["vim"]),
    ];
    let plan = run_autoremove(&local, true);
    assert_eq!(plan.orphans, vec![("libfoo".to_string(), "1.0-1".to_string())]);
    assert_eq!(plan.messages.len(), 3);
    assert!(plan.messages[0].to_err);
    assert_eq!(plan.messages[0].text, " warn 1 orphaned package");
    assert!(!plan.messages[1].to_err);
    assert_eq!(plan.messages[1].text, "  libfoo (1.0-1)");
    assert!(plan.messages[2].to_err);
    assert!(plan.messages[2].text.starts_with(" WARNING PROCEED WITH CAUTION This will remove orphaned packages."));
    let none = run_autoremove(&vec![], true);
    assert!(none.orphans.is_empty());
    assert_eq!(none.messages.len(), 1);
    assert_eq!(none.messages[0].text, " ✓ no orphaned packages found");
}

#[test]
fn sorting_indices_is_stable() {
    let keys = vec![key2("b", "x"), key2("a", "z"), key2("b", "a"), key2("a", "z")];
    assert_eq!(sort_indices(&keys), vec![1, 3, 2, 0]);
    let single = vec![key1("pear"), key1("apple"), key1("Zebra")];
    assert_eq!(sort_indices(&single), vec![2, 1, 0]);
}

fn dep(name: &str, version: Option<&str>, depmod: DepMod) -> Dep {
    Dep { name: name.to_string(), version: version.map(|v| v.to_string()), depmod }
}

#[test]
fn dependency_texts() {
    let deps = vec![
        dep("zlib", None, DepMod::Any),
        dep("glibc", Some("2.40"), DepMod::Ge),
        dep("acl", Some("1"), DepMod::Eq),
        dep("bash", Some("5"), DepMod::Lt),
    ];
    assert_eq!(deps_to_strings(&deps), vec!["acl=1", "bash<5", "glibc>=2.40", "zlib"]);
    let few = vec!["a".to_string(), "b".to_string()];
    assert_eq!(dep_lines(&few), vec!["a, b"]);
    let many: Vec<String> = (0..5).map(|i| format!("d{}", i)).collect();
    assert_eq!(dep_lines(&many), many);
    let mut lines = vec!["x".to_string()];
    add_deps(&mut lines, "Depends:", &many);
    assert_eq!(lines, vec!["x", "Depends: d0", "  d1", "  d2", "  d3", "  d4"]);
    add_deps(&mut lines, "None:", &vec![]);
    assert_eq!(lines.len(), 6);
}

#[test]
fn maintainers_and_validation() {
    assert_eq!(format_maintainer("John Doe <john@x.org>", true), "John Doe <john@x.org>");
    assert_eq!(format_maintainer("John Doe <john@x.org>", false), "John Doe <\x1b[1;34mjohn@x.org\x1b[0m>");
    assert_eq!(format_maintainer("  A  < a@b >", true), "A <a@b>");
    assert_eq!(format_maintainer("A <a@b", true), "A <a@b>");
    assert_eq!(format_maintainer("nobody", true), "nobody");
    assert_eq!(validation_str(0), "Unknown");
    assert_eq!(validation_str(8), "Unknown");
}

#[test]
fn dates_in_utc() {
    assert_eq!(install_date_text(0), "Thu 01 Jan 1970 00:00:00 UTC");
    assert_eq!(build_date_text(86400), "Fri 02 Jan 1970");
    assert_eq!(install_date_text(i64::MAX), "");
}

#[test]
fn preparation_details() {
    let u = PrepareDetail::UnsatisfiedDeps(vec![("vim".to_string(), "libfoo".to_string()), ("a".to_string(), "b".to_string())]);
    assert_eq!(detail_from_prep_err(&u), Some("vim (needs libfoo), a (needs b)".to_string()));
    let c = PrepareDetail::ConflictingDeps(vec![("x".to_string(), "y".to_string())]);
    assert_eq!(detail_from_prep_err(&c), Some("x conflicts y".to_string()));
    assert_eq!(detail_from_prep_err(&PrepareDetail::Other), None);
}

fn details() -> PackageDetails {
    PackageDetails {
        name: "vim".to_string(),
        version: "9.1-1".to_string(),
        desc: Some("Vi Improved".to_string()),
        url: Some("https://www.vim.org".to_string()),
        arch: Some("x86_64".to_string()),
        licenses: vec!["Vim".to_string()],
        install_date: None,
        build_date: 86400,
        db: Some("extra".to_string()),
        depends: vec![dep("gpm", None, DepMod::Any), dep("acl", None, DepMod::Any)],
        required_by: vec![],
        optional_for: vec![],
        conflicts: vec![],
        provides: vec![dep("xxd", None, DepMod::Any)],
        size: 2048,
        isize: 0,
        packager: Some("Jane <jane@x.org>".to_string()),
        validation: 8,
    }
}

#[test]
fn info_lines_of_a_package() {
    assert_eq!(
        info_lines(&details(), true),
        vec![
            "Package: vim",
            "Version: 9.1-1",
            "Architecture: x86_64",
            "URL: https://www.vim.org",
            "Licenses: Vim",
            "Depends: acl, gpm",
            "Provides: xxd",
            "Download Size: 2.0 KiB",
            "Packager: Jane <jane@x.org>",
            "Build Date: Fri 02 Jan 1970",
            "Validated By: Unknown",
            "Description: Vi Improved",
        ]
    );
    let b = info_box(&details(), 40, true);
    assert_eq!(b.len(), 14);
    assert_eq!(b[0], format!("┌─  vim  {}┐", "─".repeat(38 - 8)));
    assert_eq!(b[1], format!("│ Package: vim{}│", " ".repeat(38 - 12 - 1)));
}

#[test]
fn targets_are_filtered_with_warnings() {
    let h = AlpmHandle {
        local: vec![pkg("vim", "9.1-1", PackageReason::Explicit, &[])],
        sync: vec![SyncDb { name: "core".to_string(), pkgs: vec![pkg("bash", "5.2-1", PackageReason::Explicit, &[])] }],
    };
    let names = vec!["bash".to_string(), "zsh".to_string(), "vim".to_string()];
    let (t, w) = h.install_targets(&names, true);
    assert_eq!(t, vec!["bash"]);
    assert_eq!(w, vec!["  warn: package 'zsh' not found", "  warn: package 'vim' not found"]);
    let (t, w) = h.remove_targets(&names, true);
    assert_eq!(t, vec!["vim"]);
    assert_eq!(w, vec!["  warn: 'bash' not installed", "  warn: 'zsh' not installed"]);
}
