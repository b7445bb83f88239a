use waka::packages::{Package, PackageReason};
use waka::summary::{install_summary, remove_summary, upgrade_summary};
use waka::table::{separator_line, write_summary_footer, summary_row};

fn pkg(name: &str, version: &str, isize: i64, dl: i64, reason: PackageReason, depends: &[&str]) -> Package {
    Package {
        name: name.to_string(),
        version: version.to_string(),
        desc: None,
        db: Some("extra".to_string()),
        size: dl,
        isize,
        download_size: dl,
        reason,
        depends: depends.iter().map(|d| d.to_string()).collect(),
        required_by: vec![],
    }
}

fn header(w: usize) -> String {
    summary_row("Package", "Old Ver", "New Ver", "Net Change", "Size", w)
}

fn footer(items: &[(&str, &str)]) -> Vec<String> {
    let v: Vec<(String, String)> = items.iter().map(|(a, b)| (a.to_string(), b.to_string())).collect();
    write_summary_footer(&v, true)
}

#[test]
fn removal_table() {
    let rm = vec![
        pkg("vim", "9.1-1", 4096, 0, PackageReason::Explicit, &[]),
        pkg("bash", "5.2-1", 4096, 0, PackageReason::Depend, &[]),
    ];
    let w = 80;
    let mut want = vec![
        String::new(),
        header(w),
        separator_line(w),
        summary_row("vim", "9.1-1", "", "-4.0 KiB", "0 B", w),
        summary_row("bash", "5.2-1", "", "-4.0 KiB", "0 B", w),
        separator_line(w),
        " 2 packages · 1 package as dependencies".to_string(),
        String::new(),
    ];
    want.extend(footer(&[
        ("Total Download Size", "0 B"),
        ("Total Removed Size", "8.0 KiB"),
        ("Net Upgrade Size", "-8.0 KiB"),
    ]));
    assert_eq!(remove_summary(&rm, w, true), Some(want));
}

#[test]
fn removal_table_overflow_is_refused() {
    let rm = vec![
        pkg("a", "1", i64::MAX, 0, PackageReason::Explicit, &[]),
        pkg("b", "1", 1, 0, PackageReason::Explicit, &[]),
    ];
    assert_eq!(remove_summary(&rm, 80, true), None);
}

#[test]
fn upgrade_table() {
    let add = vec![
        pkg("vim", "9.1-1", 6144, 2048, PackageReason::Explicit, &[]),
        pkg("libx", "2-1", 1024, 1024, PackageReason::Depend, &[]),
    ];
    let old = vec![Some(("9.0-1".to_string(), 4096)), None];
    let rm = vec![pkg("oldlib", "1-1", 1024, 0, PackageReason::Depend, &[])];
    let w = 100;
    let mut want = vec![
        String::new(),
        header(w),
        separator_line(w),
        summary_row("vim", "9.0-1", "9.1-1", "2.0 KiB", "2.0 KiB", w),
        summary_row("libx", "", "2-1", "1.0 KiB", "1.0 KiB", w),
        summary_row("oldlib", "1-1", "", "-1.0 KiB", "0 B", w),
        separator_line(w),
        " 2 upgrades · 1 package as dependencies".to_string(),
        String::new(),
    ];
    want.extend(footer(&[
        ("Total Download Size", "3.0 KiB"),
        ("Total Installed Size", "7.0 KiB"),
        ("Net Upgrade Size", "2.0 KiB"),
    ]));
    assert_eq!(upgrade_summary(&add, &old, &rm, w, true), Some(want));
}

#[test]
fn install_table_groups_dependencies() {
    let add = vec![
        pkg("zlib", "1.3-1", 1024, 512, PackageReason::Depend, &[]),
        pkg("vim", "9.1-1", 4096, 2048, PackageReason::Explicit, &["zlib", "acl", "gpm"]),
        pkg("gpm", "1.20-1", 1024, 512, PackageReason::Depend, &[]),
        pkg("htop", "3.3-1", 2048, 1024, PackageReason::Explicit, &["zlib", "ncurses"]),
        pkg("ncurses", "6.5-1", 1024, 512, PackageReason::Depend, &[]),
    ];
    let explicit = vec!["vim".to_string(), "htop".to_string()];
    let w = 90;
    let mut want = vec![
        String::new(),
        header(w),
        separator_line(w),
        summary_row("htop", "", "3.3-1", "2.0 KiB", "1.0 KiB", w),
        summary_row(" ncurses", "", "6.5-1", "1.0 KiB", "512 B", w),
        summary_row(" zlib", "", "1.3-1", "1.0 KiB", "512 B", w),
        summary_row("vim", "", "9.1-1", "4.0 KiB", "2.0 KiB", w),
        summary_row(" gpm", "", "1.20-1", "1.0 KiB", "512 B", w),
        separator_line(w),
        " 5 packages · 3 packages as dependencies".to_string(),
        String::new(),
    ];
    want.extend(footer(&[
        ("Total Download Size", "4.5 KiB"),
        ("Total Installed Size", "9.0 KiB"),
        ("Net Upgrade Size", "9.0 KiB"),
    ]));
    assert_eq!(install_summary(&add, &explicit, &vec![], w, true), Some(want));
}

#[test]
fn install_table_with_removals() {
    let add = vec![pkg("a", "1-1", 2048, 1024, PackageReason::Explicit, &[])];
    let rm = vec![pkg("b", "1-1", 1024, 0, PackageReason::Explicit, &[])];
    let w = 80;
    let mut want = vec![
        String::new(),
        header(w),
        separator_line(w),
        summary_row("a", "", "1-1", "2.0 KiB", "1.0 KiB", w),
        String::new(),
        header(w),
        separator_line(w),
        summary_row("b", "1-1", "", "-1.0 KiB", "0 B", w),
        separator_line(w),
        " 1 package · 0 packages as dependencies".to_string(),
        String::new(),
    ];
    want.extend(footer(&[
        ("Total Download Size", "1.0 KiB"),
        ("Total Installed Size", "2.0 KiB"),
        ("Net Upgrade Size", "1.0 KiB"),
    ]));
    assert_eq!(install_summary(&add, &vec!["a".to_string()], &rm, w, true), Some(want));
}
