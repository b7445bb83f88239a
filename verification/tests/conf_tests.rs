use waka::pacman_conf::{
    expand_server, glob_match, handle_option, handle_repo_line, include_entries, include_target,
    repo_servers, ConfAction, ConfParser, IncludeEntry, RepoSection,
};
use waka::siglevel::{bits_of_word, parse_siglevel};

#[test]
fn siglevel_words() {
    assert_eq!(parse_siglevel("Required DatabaseOptional"), 1 | 4 | 1024 | 2048 | 4096 | 8192);
    assert_eq!(parse_siglevel("Optional"), 1 | 2 | 4 | 8 | 1024 | 2048 | 4096 | 8192);
    assert_eq!(parse_siglevel("Never"), 0);
    assert_eq!(parse_siglevel("Required Never"), 0);
    assert_eq!(parse_siglevel("Never Required"), 0);
    assert_eq!(parse_siglevel("TrustedAll"), 8 | 8192);
    assert_eq!(parse_siglevel("PackageTrustedAll"), 1 | 8);
    assert_eq!(parse_siglevel("  Package   Database  "), 1 | 1024);
    assert_eq!(parse_siglevel("TrustedOnly"), 0);
    assert_eq!(parse_siglevel(""), 0);
    assert_eq!(parse_siglevel("Bogus"), 0);
    assert_eq!(bits_of_word("DatabaseRequired"), 1024 | 4096);
    assert_eq!(bits_of_word("PackageRequired"), 1 | 4);
}

#[test]
fn siglevel_order_does_not_matter() {
    assert_eq!(parse_siglevel("Package DatabaseTrustedAll"), parse_siglevel("DatabaseTrustedAll Package"));
}

fn sample_conf() -> Vec<&'static str> {
    vec![
        "# pacman.conf",
        "[options]",
        "SigLevel = Required DatabaseOptional",
        "LocalFileSigLevel = Optional",
        "Architecture = auto",
        "CacheDir = /var/cache/pacman/pkg/ ",
        "ParallelDownloads = 5",
        "DownloadUser = alpm",
        "DisableSandbox",
        "Include = /etc/pacman.d/extra-opts.conf",
        "",
        "[core]",
        "Include = /etc/pacman.d/mirrorlist",
        "",
        "[custom]",
        "SigLevel = Never",
        "Server = file:///home/$repo/$arch",
    ]
}

#[test]
fn conf_parser_reads_sample() {
    let mut p = ConfParser::new("x86_64");
    let mut actions = Vec::new();
    for l in sample_conf() {
        actions.push(p.feed_line(l));
    }
    assert!(matches!(actions[0], ConfAction::Nothing));
    assert!(matches!(actions[1], ConfAction::Nothing));
    assert!(matches!(actions[6], ConfAction::ParallelDownloads(5)));
    match &actions[7] {
        ConfAction::DownloadUser(u) => assert_eq!(u, "alpm"),
        _ => panic!("expected DownloadUser"),
    }
    assert!(matches!(actions[8], ConfAction::DisableSandbox));
    match &actions[9] {
        ConfAction::IncludeOptions(f) => assert_eq!(f, "/etc/pacman.d/extra-opts.conf"),
        _ => panic!("expected IncludeOptions"),
    }
    assert!(matches!(actions[11], ConfAction::Nothing));
    match &actions[14] {
        ConfAction::RegisterRepo(r) => {
            assert_eq!(r.name, "core");
            assert!(r.servers.is_empty());
            assert_eq!(r.includes, vec!["/etc/pacman.d/mirrorlist".to_string()]);
            assert_eq!(r.sig, 1 | 4 | 1024 | 2048 | 4096 | 8192);
        },
        _ => panic!("expected RegisterRepo"),
    }
    assert_eq!(p.local_sig, 1 | 2 | 4 | 8 | 1024 | 2048 | 4096 | 8192);
    assert_eq!(p.remote_sig, 0);
    assert_eq!(p.cache_dirs, vec!["/var/cache/pacman/pkg/".to_string()]);
    assert_eq!(p.architecture_list(), vec!["x86_64".to_string(), "any".to_string()]);
    let last = p.finish().expect("custom section");
    assert_eq!(last.name, "custom");
    assert_eq!(last.servers, vec!["file:///home/$repo/$arch".to_string()]);
    assert_eq!(last.sig, 0);
}

#[test]
fn repo_without_siglevel_gets_default() {
    let mut p = ConfParser::new("aarch64");
    for l in ["[options]", "SigLevel = PackageRequired", "[extra]", "Server = a"] {
        p.feed_line(l);
    }
    let r = p.finish().expect("extra");
    assert_eq!(r.sig, 1 | 4);
}

#[test]
fn later_siglevel_of_a_repo_wins() {
    let mut p = ConfParser::new("x86_64");
    for l in ["[extra]", "SigLevel = Package", "SigLevel = Database"] {
        p.feed_line(l);
    }
    assert_eq!(p.finish().expect("extra").sig, 1024);
}

#[test]
fn explicit_architectures_come_before_any() {
    let mut p = ConfParser::new("x86_64");
    for l in ["[options]", "Architecture = x86_64_v3", "Architecture = auto"] {
        p.feed_line(l);
    }
    assert_eq!(
        p.architecture_list(),
        vec!["x86_64_v3".to_string(), "x86_64".to_string(), "any".to_string()]
    );
    assert!(p.finish().is_none());
}

#[test]
fn options_include_sets_levels() {
    let mut p = ConfParser::new("x86_64");
    p.feed_line("[options]");
    let lines = vec![
        "SigLevel = Never".to_string(),
        "RemoteFileSigLevel = Required".to_string(),
        "  SigLevel = Optional".to_string(),
    ];
    p.apply_options_include(&lines);
    assert_eq!(p.default_sig, 0);
    assert_eq!(p.remote_sig, 1 | 4 | 1024 | 4096);
}

#[test]
fn option_lines() {
    assert!(matches!(handle_option("ParallelDownloads = 7"), ConfAction::ParallelDownloads(7)));
    assert!(matches!(handle_option("ParallelDownloads = x"), ConfAction::Nothing));
    assert!(matches!(handle_option("DisableSandboxFoo"), ConfAction::Nothing));
    assert!(matches!(handle_option("DisableSandbox = yes"), ConfAction::DisableSandbox));
    assert!(matches!(handle_option("Color"), ConfAction::Nothing));
    match handle_option("DownloadUser =  nobody ") {
        ConfAction::DownloadUser(u) => assert_eq!(u, "nobody"),
        _ => panic!("expected DownloadUser"),
    }
}

#[test]
fn repo_lines_collect_servers() {
    let mut v = Vec::new();
    handle_repo_line("Server = https://a/ ", &mut v);
    handle_repo_line("Usage = All", &mut v);
    assert_eq!(v, vec!["https://a/".to_string()]);
}

#[test]
fn servers_are_expanded() {
    assert_eq!(expand_server("https://m/$repo/os/$arch", "core", "x86_64"), "https://m/core/os/x86_64");
    assert_eq!(expand_server("https://plain/", "core", "x86_64"), "https://plain/");
    let r = RepoSection {
        name: "core".to_string(),
        servers: vec!["https://m/$repo/os/$arch".to_string()],
        includes: vec![],
        sig: 0,
    };
    let out = repo_servers(&r, &vec!["https://x/core/os/x86_64".to_string()], "x86_64");
    assert_eq!(out, vec!["https://m/core/os/x86_64".to_string(), "https://x/core/os/x86_64".to_string()]);
}

#[test]
fn included_files_give_servers_and_includes() {
    let content = "Server = https://a/$repo/$arch\n  Include = other.conf\n#c\nServer=nospace\n";
    let e = include_entries(content, "extra", "aarch64", true);
    assert_eq!(e.len(), 2);
    match &e[0] {
        IncludeEntry::Server(s) => assert_eq!(s, "https://a/extra/aarch64"),
        _ => panic!("expected Server"),
    }
    match &e[1] {
        IncludeEntry::Include(s) => assert_eq!(s, "other.conf"),
        _ => panic!("expected Include"),
    }
    let flat = include_entries(content, "extra", "aarch64", false);
    assert_eq!(flat.len(), 1);
}

#[test]
fn include_paths_and_globs() {
    assert_eq!(include_target("mirrorlist"), "/etc/pacman.d/mirrorlist");
    assert_eq!(include_target("/x/y"), "/x/y");
    assert!(glob_match("*", "anything"));
    assert!(glob_match("*.conf", "x.conf"));
    assert!(!glob_match("*.conf", "x.con"));
    assert!(glob_match("mirror*", "mirrorlist"));
    assert!(glob_match("abc", "abc"));
    assert!(!glob_match("abc", "abd"));
}

#[test]
fn siglevel_of_joined_values() {
    let a = "Required";
    let b = "DatabaseTrustedAll";
    assert_eq!(parse_siglevel(&format!("{} {}", a, b)), parse_siglevel(a) | parse_siglevel(b));
    assert_eq!(parse_siglevel(&format!("{} {}", a, b)), parse_siglevel(&format!("{} {}", b, a)));
    assert_eq!(parse_siglevel(&format!("{} Never {}", a, b)), 0);
    assert_eq!(parse_siglevel(&format!("{} Whatever", a)), parse_siglevel(a));
}
