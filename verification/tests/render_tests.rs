use waka::render::{
    answer_question, render_due, Answer, QuestionKind,
    callbacks, clock_text, commit_epilogue, file_base_name, op_text, DownloadState, PackageOp,
    TransEvent,
};

fn started(files: &[&str]) -> DownloadState {
    let mut s = callbacks("Install", true);
    for f in files {
        s.on_download_init(f);
    }
    s
}

#[test]
fn callbacks_start_empty() {
    let s = callbacks("Upgrade", false);
    assert_eq!(s.title, "\x1b[1mUpgrade\x1b[0m");
    assert!(!s.phase);
    assert_eq!(s.total_files, 0);
    assert!(s.currently_downloading.is_none());
    assert!(s.best_progress().is_none());
}

#[test]
fn init_records_files_and_packages() {
    let s = started(&["/var/cache/pacman/pkg/vim-9.1-1-x86_64.pkg.tar.zst", "bash-5.2-1-x86_64.pkg.tar.zst"]);
    assert_eq!(s.total_files, 2);
    assert_eq!(s.currently_downloading.as_deref(), Some("vim-9.1-1-x86_64.pkg.tar.zst"));
    assert_eq!(s.file_to_pkg.len(), 2);
    assert_eq!(s.file_to_pkg[0], ("vim-9.1-1-x86_64.pkg.tar.zst".to_string(), "vim".to_string()));
    assert_eq!(s.per_file.len(), 2);
    assert_eq!(s.per_file[1].1.total, 0);
}

#[test]
fn progress_counts_new_bytes_and_follows_furthest_file() {
    let mut s = started(&["a-1-1-any.pkg.tar.zst", "b-1-1-any.pkg.tar.zst"]);
    s.on_download_progress("a-1-1-any.pkg.tar.zst", 100, 1000);
    assert_eq!(s.completed_bytes, 100);
    assert_eq!(s.currently_downloading.as_deref(), Some("a-1-1-any.pkg.tar.zst"));
    s.on_download_progress("b-1-1-any.pkg.tar.zst", 50, 100);
    assert_eq!(s.completed_bytes, 150);
    assert_eq!(s.best_progress().as_deref(), Some("b-1-1-any.pkg.tar.zst"));
    assert_eq!(s.currently_downloading.as_deref(), Some("b-1-1-any.pkg.tar.zst"));
    // a report that goes back changes nothing
    s.on_download_progress("a-1-1-any.pkg.tar.zst", 40, 5000);
    assert_eq!(s.completed_bytes, 150);
    assert_eq!(s.per_file[0].1.downloaded, 100);
    assert_eq!(s.per_file[0].1.total, 1000);
}

#[test]
fn completion_gives_back_the_package() {
    let mut s = started(&["a-1-1-any.pkg.tar.zst", "b-1-1-any.pkg.tar.zst"]);
    s.on_download_progress("a-1-1-any.pkg.tar.zst", 300, 1000);
    s.on_download_progress("b-1-1-any.pkg.tar.zst", 10, 100);
    let name = s.on_download_completed("a-1-1-any.pkg.tar.zst", 1000);
    assert_eq!(name.as_deref(), Some("a"));
    assert_eq!(s.completed_bytes, 1010);
    assert_eq!(s.completed_files, 1);
    assert_eq!(s.currently_downloading.as_deref(), Some("a-1-1-any.pkg.tar.zst"));
    s.finish_completion(name);
    assert_eq!(s.completed_downloads, vec!["a".to_string()]);
    assert_eq!(s.currently_downloading.as_deref(), Some("b-1-1-any.pkg.tar.zst"));
    let again = s.on_download_completed("a-1-1-any.pkg.tar.zst", 1000);
    assert!(again.is_none());
    s.finish_completion(again);
    assert_eq!(s.completed_files, 2);
    assert_eq!(s.completed_downloads.len(), 1);
}

#[test]
fn completion_without_size_keeps_progress() {
    let mut s = started(&["c-1-1-any.pkg.tar.zst"]);
    let name = s.on_download_completed("c-1-1-any.pkg.tar.zst", 0);
    assert_eq!(name.as_deref(), Some("c"));
    assert_eq!(s.completed_bytes, 0);
    s.finish_completion(name);
    assert!(s.currently_downloading.is_none());
}

#[test]
fn events_fill_the_log() {
    let mut s = callbacks("Install", true);
    let e = s.on_event(&TransEvent::ResolveDepsStart, true);
    assert!(e.redraw && !e.next_phase);
    let e = s.on_event(&TransEvent::ResolveDepsDone, true);
    assert!(!e.redraw && !e.next_phase);
    let op = PackageOp::Install { name: "vim".to_string(), version: "9.1-1".to_string() };
    let e = s.on_event(&TransEvent::PackageOperationDone(op), true);
    assert!(e.redraw && e.next_phase);
    assert!(s.phase);
    let e = s.on_event(&TransEvent::ScriptletInfo("   ".to_string()), true);
    assert!(!e.redraw);
    s.on_event(&TransEvent::ScriptletInfo("  hello  ".to_string()), true);
    let e = s.on_event(&TransEvent::HookRunStart { name: "h".to_string(), desc: None }, true);
    assert!(e.redraw && !e.next_phase);
    s.on_event(&TransEvent::HookRunStart { name: "h".to_string(), desc: Some("Updating icons".to_string()) }, true);
    assert_eq!(
        s.log,
        vec![
            "Resolving dependencies",
            "Installing: vim (9.1-1)",
            "    hello",
            "Processing: h",
            "Processing: Updating icons",
        ]
    );
}

#[test]
fn operation_lines() {
    let up = PackageOp::Upgrade { name: "vim".into(), old_version: "9.0-1".into(), new_version: "9.1-1".into() };
    assert_eq!(op_text(&up, true), "Upgrading: vim 9.0-1 -> 9.1-1");
    let down = PackageOp::Downgrade { name: "vim".into(), old_version: "9.1-1".into(), new_version: "9.0-1".into() };
    assert_eq!(op_text(&down, true), "Downgrading: vim 9.1-1 -> 9.0-1");
    let re = PackageOp::Reinstall { name: "vim".into(), version: "9.1-1".into() };
    assert_eq!(op_text(&re, true), "Reinstalling: vim (9.1-1)");
    let rm = PackageOp::Remove { name: "vim".into(), version: "9.1-1".into() };
    assert_eq!(op_text(&rm, true), "Removing: vim (9.1-1)");
    assert_eq!(op_text(&rm, false), "\x1b[1;31mRemoving:\x1b[0m vim (\x1b[1;34m9.1-1\x1b[0m)");
}

#[test]
fn epilogue_filters_and_reports() {
    let mut s = callbacks("Remove", true);
    s.log = vec!["Downloading packages".to_string(), "Removing: x (1)".to_string()];
    commit_epilogue(&mut s, None, "Downloading packages", true);
    assert!(s.phase);
    assert_eq!(s.log, vec!["Removing: x (1)", "Transaction completed successfully"]);
    commit_epilogue(&mut s, Some("could not commit"), "Removing", true);
    assert_eq!(s.log, vec!["Transaction completed successfully", "Failed: could not commit"]);
}

#[test]
fn build_before_downloads() {
    let s = callbacks("Install", true);
    let lines = s.build(20, "0:00:00", "0 B/s", "   0.0%", "────", true);
    assert_eq!(lines, vec!["┌─ Install ────────┐", "│ Preparing...     │", "└──────────────────┘"]);
}

#[test]
fn build_shows_last_five_log_lines() {
    let mut s = callbacks("T", true);
    for i in 0..7 {
        s.log.push(format!("line {}", i));
    }
    let lines = s.build(12, "", "", "", "", true);
    assert_eq!(lines.len(), 7);
    assert_eq!(lines[1], "│ line 2   │");
    assert_eq!(lines[5], "│ line 6   │");
}

#[test]
fn build_download_box() {
    let mut s = started(&["a-1-1-any.pkg.tar.zst"]);
    s.total_bytes = 2048;
    s.on_download_progress("a-1-1-any.pkg.tar.zst", 1024, 2048);
    let w = 120;
    let bw = s.bar_width(w, "0:00:01", "1.0 KiB/s", "  50.0%", true);
    let prefix = "Time Remaining: 0:00:01 [";
    let suffix = "]   50.0% • 1.0/2.0 KiB • 1.0 KiB/s";
    assert_eq!(bw, w - 4 - prefix.chars().count() - suffix.chars().count());
    let bar = "━".repeat(bw / 2) + &"─".repeat(bw - bw / 2);
    let lines = s.build(w, "0:00:01", "1.0 KiB/s", "  50.0%", &bar, true);
    assert_eq!(lines.len(), 4);
    assert!(lines[0].starts_with("┌─ Download "));
    assert!(lines[1].starts_with("│ Downloading: a-1-1-any.pkg.tar.zst "));
    assert!(lines[2].starts_with(&format!("│ {}{}{}", prefix, bar, suffix)));
    assert_eq!(lines[2].chars().count(), w);
    assert_eq!(s.dl_status(), "1.0/2.0 KiB");
}

#[test]
fn clock_and_file_names() {
    assert_eq!(clock_text(0), "0:00:00");
    assert_eq!(clock_text(3725), "1:02:05");
    assert_eq!(clock_text(360000), "100:00:00");
    assert_eq!(file_base_name("/a/b/c.pkg"), "c.pkg");
    assert_eq!(file_base_name("c.pkg"), "c.pkg");
    assert_eq!(file_base_name("dir/"), "");
}

#[test]
fn completed_bytes_are_the_sum_of_the_files() {
    let mut s = started(&["a-1-1-any.pkg.tar.zst", "b-1-1-any.pkg.tar.zst"]);
    s.on_download_progress("a-1-1-any.pkg.tar.zst", 300, 1000);
    s.on_download_progress("b-1-1-any.pkg.tar.zst", 10, 100);
    s.on_download_progress("a-1-1-any.pkg.tar.zst", 200, 1000);
    s.on_download_progress("c-1-1-any.pkg.tar.zst", 7, 70);
    let name = s.on_download_completed("b-1-1-any.pkg.tar.zst", 100);
    s.finish_completion(name);
    let sum: i64 = s.per_file.iter().map(|e| e.1.downloaded).sum();
    assert_eq!(s.completed_bytes, sum);
    assert_eq!(sum, 300 + 100 + 7);
}

#[test]
fn questions_are_answered_to_go_on() {
    assert!(matches!(answer_question(QuestionKind::Replace), Answer::Flag(true)));
    assert!(matches!(answer_question(QuestionKind::RemovePkgs), Answer::Flag(false)));
    assert!(matches!(answer_question(QuestionKind::SelectProvider), Answer::Index(0)));
    assert!(matches!(answer_question(QuestionKind::ImportKey), Answer::Flag(true)));
    assert!(!render_due(49));
    assert!(render_due(50));
}

#[test]
fn ties_go_to_the_last_file_listed() {
    let mut s = started(&["a-1-1-any.pkg.tar.zst", "b-1-1-any.pkg.tar.zst", "c-1-1-any.pkg.tar.zst"]);
    s.on_download_progress("a-1-1-any.pkg.tar.zst", 50, 100);
    s.on_download_progress("b-1-1-any.pkg.tar.zst", 5, 10);
    s.on_download_progress("c-1-1-any.pkg.tar.zst", 1, 10);
    assert_eq!(s.best_progress().as_deref(), Some("b-1-1-any.pkg.tar.zst"));
    assert_eq!(s.currently_downloading.as_deref(), Some("b-1-1-any.pkg.tar.zst"));
    let name = s.on_download_completed("b-1-1-any.pkg.tar.zst", 10);
    s.finish_completion(name);
    assert_eq!(s.currently_downloading.as_deref(), Some("a-1-1-any.pkg.tar.zst"));
}
