use waka::packages::{
    cache_file_removed, clean_message, count_upgradable, eq_ignore_case, found, installed_key,
    is_affirmative, list_lines, matches_patterns, orphans, search_entry, search_output,
    search_results, Package, PackageReason,
};
use waka::pkginfo::pkg_name_from_filename;

fn pkg(name: &str, version: &str, desc: Option<&str>, db: Option<&str>, reason: PackageReason) -> Package {
    Package {
        name: name.to_string(),
        version: version.to_string(),
        desc: desc.map(|d| d.to_string()),
        db: db.map(|d| d.to_string()),
        size: 2048,
        isize: 4096,
        download_size: 1024,
        reason,
        depends: vec![],
        required_by: vec![],
    }
}

fn sample() -> Vec<Package> {
    vec![
        pkg("vim", "9.1-1", Some("Vi Improved, a text editor"), Some("extra"), PackageReason::Explicit),
        pkg("Neovim", "0.10-1", Some("Fork of Vim"), Some("extra"), PackageReason::Explicit),
        pkg("bash", "5.2-1", Some("The GNU Bourne Again shell"), Some("core"), PackageReason::Depend),
        pkg("gvim", "9.1-1", None, Some("extra"), PackageReason::Explicit),
    ]
}

#[test]
fn search_is_case_insensitive_and_sorted() {
    let pkgs = sample();
    let r = search_results(&pkgs, "VIM").expect("query");
    // "Neovim" sorts before "gvim" and "vim": upper case comes first.
    assert_eq!(r, vec![1, 3, 0]);
    let none = search_results(&pkgs, "zsh").expect("query");
    assert!(none.is_empty());
    assert_eq!(search_results(&pkgs, "").unwrap_err(), "no search terms specified");
    let by_desc = search_results(&pkgs, "bourne").expect("query");
    assert_eq!(by_desc, vec![2]);
}

#[test]
fn search_entry_lines() {
    let p = pkg("vim", "9.1-1", Some("Vi Improved"), Some("extra"), PackageReason::Explicit);
    assert_eq!(search_entry(&p, true, true), vec!["extra/vim 9.1-1 [installed]", "  Vi Improved", "  2.0 KiB"]);
    let q = pkg("gvim", "9.1-1", Some(""), None, PackageReason::Explicit);
    assert_eq!(search_entry(&q, false, true), vec!["any/gvim 9.1-1", "  2.0 KiB"]);
    assert_eq!(
        search_entry(&q, false, false)[0],
        "\x1b[1many\x1b[0m/\x1b[1;32mgvim\x1b[0m \x1b[1;34m9.1-1\x1b[0m"
    );
}

#[test]
fn search_output_counts_or_warns() {
    let pkgs = sample();
    let (out, err) = search_output(&pkgs, &vec![3, 0], &vec![false, true], "vim", true);
    assert!(err.is_empty());
    assert_eq!(
        out,
        vec![
            "extra/gvim 9.1-1",
            "  2.0 KiB",
            "extra/vim 9.1-1 [installed]",
            "  Vi Improved, a text editor",
            "  2.0 KiB",
            "✓ 2 packages found.",
        ]
    );
    let (out, err) = search_output(&pkgs, &vec![], &vec![], "zsh", true);
    assert!(out.is_empty());
    assert_eq!(err, vec![" warn: no packages found matching 'zsh'"]);
    assert_eq!(found(1, true), "✓ 1 package found.");
}

#[test]
fn list_explicit_by_repository_then_name() {
    let pkgs = sample();
    let repos = vec![Some("extra".to_string()), None, Some("core".to_string()), Some("extra".to_string())];
    let (out, err) = list_lines(&pkgs, &repos, false, false, &vec![], true);
    assert!(err.is_empty());
    assert_eq!(out, vec![" aur/Neovim 0.10-1", " extra/gvim 9.1-1", " extra/vim 9.1-1", " ✓ 3 packages found."]);
    let (out, _) = list_lines(&pkgs, &repos, true, false, &vec!["BA".to_string()], true);
    assert_eq!(out, vec![" core/bash 5.2-1", " ✓ 1 package found."]);
    let (out, err) = list_lines(&pkgs, &repos, false, false, &vec!["zsh".to_string()], true);
    assert!(out.is_empty());
    assert_eq!(err, vec![" warn: no packages found"]);
}

#[test]
fn list_upgradable() {
    let pkgs = sample();
    let repos = vec![Some("extra".to_string()), None, Some("core".to_string()), None];
    let (out, _) = list_lines(&pkgs, &repos, false, true, &vec![], true);
    assert_eq!(out, vec![" core/bash 5.2-1", " extra/vim 9.1-1", " ✓ 2 packages found."]);
    let (out, err) = list_lines(&pkgs, &vec![None, None, None, None], false, true, &vec![], true);
    assert_eq!(out, vec![" ✓ all packages are up to date"]);
    assert!(err.is_empty());
}

#[test]
fn patterns_match_names() {
    assert!(matches_patterns("Firefox", &vec![]));
    assert!(matches_patterns("Firefox", &vec!["fox".to_string()]));
    assert!(matches_patterns("firefox", &vec!["zz".to_string(), "FIRE".to_string()]));
    assert!(!matches_patterns("firefox", &vec!["chrome".to_string()]));
    assert!(matches_patterns("Àpple", &vec!["àp".to_string()]));
    assert!(matches_patterns("àpple", &vec!["ÀP".to_string()]));
}

#[test]
fn orphans_are_unneeded_dependencies() {
    let mut pkgs = sample();
    pkgs[2].required_by = vec!["base".to_string()];
    pkgs.push(pkg("libfoo", "1-1", None, None, PackageReason::Depend));
    assert_eq!(orphans(&pkgs), vec![4]);
    pkgs[2].required_by.clear();
    assert_eq!(orphans(&pkgs), vec![2, 4]);
}

#[test]
fn cache_cleaning_keeps_installed() {
    let installed = vec!["vim-9.1-1".to_string()];
    assert!(!cache_file_removed("vim-9.1-1-x86_64.pkg.tar.zst", &installed, false));
    assert!(cache_file_removed("vim-9.0-1-x86_64.pkg.tar.zst", &installed, false));
    assert!(!cache_file_removed("vim-9.0-1-x86_64.pkg.tar.zst.sig", &installed, true));
    assert!(!cache_file_removed("core.db", &installed, false));
    assert!(cache_file_removed("core.db", &installed, true));
    assert!(cache_file_removed("core.db.sig", &installed, true));
    assert_eq!(installed_key(&pkg("vim", "9.1-1", None, None, PackageReason::Explicit)), "vim-9.1-1");
    assert_eq!(clean_message(0, true), " ✓ cache is already clean");
    assert_eq!(clean_message(1, true), " ✓ removed 1 file from cache");
    assert_eq!(clean_message(3, true), " ✓ removed 3 files from cache");
}

#[test]
fn upgradable_names_are_counted_once() {
    let names = vec!["a".to_string(), "b".to_string(), "a".to_string(), "c".to_string()];
    assert_eq!(count_upgradable(&names, &vec![true, false, true, true]), 2);
    assert_eq!(count_upgradable(&names, &vec![false, false, false, false]), 0);
}

#[test]
fn confirmation_answers() {
    assert!(is_affirmative(""));
    assert!(is_affirmative("y"));
    assert!(is_affirmative(" YES \n"));
    assert!(is_affirmative("Y"));
    assert!(!is_affirmative("n"));
    assert!(!is_affirmative("yep"));
    assert!(eq_ignore_case("YeS", "yes"));
    assert!(!eq_ignore_case("yes", "ye"));
}

#[test]
fn package_names_from_file_names() {
    assert_eq!(pkg_name_from_filename("vim-9.1.0-1-x86_64.pkg.tar.zst"), "vim");
    assert_eq!(pkg_name_from_filename("lib32-glibc-2.40-1-x86_64.pkg.tar.zst"), "lib32-glibc");
    assert_eq!(pkg_name_from_filename("a-b"), "a");
    assert_eq!(pkg_name_from_filename("plain"), "plain");
    assert_eq!(pkg_name_from_filename("core.db"), "core.db");
}
