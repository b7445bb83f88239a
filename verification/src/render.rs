//! The live download and transaction display.
//!
//! [`DownloadState`] holds what libalpm's callbacks have reported; its
//! methods are the decisions of those callbacks, and [`DownloadState::build`]
//! lays out the box that is drawn.  Timing and drawing are the caller's.
use vstd::prelude::*;
use crate::draw::{
    box_bottom_spec, box_bottom_width, box_row_spec, box_row_width, box_top_spec, box_top_width,
    display_width, display_width_spec, sat_sub,
};
use crate::format::{formatted_version, transfer_status, transfer_text};
use crate::keyed::{distinct_keys, get_copy, has_key, key_at, lookup, put, take};
use crate::packages::{last_index, last_index_of, lemma_last_index};
use crate::pkginfo::{pkg_name_from_filename, pkg_name_spec};
use crate::style::{bold, color, colored, cyan, dim, green, red, styled, yellow, Color};
use crate::text::{
    cat, dec, u64_to_dec, contains, contains_str, copy_str, lemma_strs_push, string_of_range, strs, to_chars, trim,
    trim_str,
};

verus! {

/// How much of one file has been downloaded.
#[derive(Debug, Clone, Copy)]
pub struct FileProgress {
    pub downloaded: i64,
    pub total: i64,
}

/// What the download callbacks have reported, and the log of the
/// transaction.
pub struct DownloadState {
    /// Lines drawn last time, to be cleared before the next drawing.
    pub rendered: usize,
    pub title: String,
    /// The downloads are over and the transaction is being applied.
    pub phase: bool,
    pub total_bytes: i64,
    pub completed_bytes: i64,
    pub total_files: usize,
    pub completed_files: usize,
    pub currently_downloading: Option<String>,
    pub completed_downloads: Vec<String>,
    /// Files being downloaded and the packages they hold.
    pub file_to_pkg: Vec<(String, String)>,
    pub log: Vec<String>,
    /// Progress of each file.
    pub per_file: Vec<(String, FileProgress)>,
}

/// The progress recorded for `f`, or nothing yet.
pub open spec fn progress_of(per_file: Seq<(String, FileProgress)>, f: Seq<char>) -> FileProgress {
    match lookup(per_file, f) {
        Some(p) => p,
        None => FileProgress { downloaded: 0, total: 0 },
    }
}

/// A file is under way: its size is known and not all of it has arrived.
pub open spec fn in_flight(p: FileProgress) -> bool {
    p.total > 0 && p.downloaded < p.total
}

/// `a` has come further than `b`, as fractions of their sizes.
pub open spec fn ahead_or_equal(a: FileProgress, b: FileProgress) -> bool {
    (a.downloaded as int) * (b.total as int) >= (b.downloaded as int) * (a.total as int)
}

/// What libalpm reports of a package that has been dealt with.
pub enum PackageOp {
    Install { name: String, version: String },
    /// `name` goes from `old_version` to `new_version`.
    Upgrade { name: String, old_version: String, new_version: String },
    Reinstall { name: String, version: String },
    Downgrade { name: String, old_version: String, new_version: String },
    Remove { name: String, version: String },
}

/// The transaction events that the display follows.
pub enum TransEvent {
    ResolveDepsStart,
    ResolveDepsDone,
    InterConflictsStart,
    InterConflictsDone,
    PackageOperationDone(PackageOp),
    /// A line of output of an install script.
    ScriptletInfo(String),
    HookRunStart { name: String, desc: Option<String> },
    HookRunDone,
    /// Any other event.
    Other,
}

/// What the caller does after an event: announce the install phase, and
/// redraw.
#[derive(Debug, Clone, Copy)]
pub struct EventEffect {
    pub next_phase: bool,
    pub redraw: bool,
}

/// The questions that libalpm asks during a transaction.
#[derive(Debug, Clone, Copy)]
pub enum QuestionKind {
    /// Install a package that is on the ignore list?
    InstallIgnorepkg,
    /// Replace a package with another?
    Replace,
    /// Remove a package that conflicts?
    Conflict,
    /// Delete a corrupted package file?
    Corrupted,
    /// Skip packages that cannot be upgraded?
    RemovePkgs,
    /// Which provider of a dependency?
    SelectProvider,
    /// Import a missing PGP key?
    ImportKey,
}

/// The answer given to a question: a yes or no, or the index of a provider.
#[derive(Debug, Clone, Copy)]
pub enum Answer {
    Flag(bool),
    Index(i32),
}

/// Every question is answered so that the transaction goes on: yes to
/// installing, replacing, removing and importing, no to skipping, and the
/// first provider.
pub fn answer_question(q: QuestionKind) -> (r: Answer)
    ensures
        r == match q {
            QuestionKind::RemovePkgs => Answer::Flag(false),
            QuestionKind::SelectProvider => Answer::Index(0),
            _ => Answer::Flag(true),
        },
{
    match q {
        QuestionKind::InstallIgnorepkg => Answer::Flag(true),
        QuestionKind::Replace => Answer::Flag(true),
        QuestionKind::Conflict => Answer::Flag(true),
        QuestionKind::Corrupted => Answer::Flag(true),
        QuestionKind::RemovePkgs => Answer::Flag(false),
        QuestionKind::SelectProvider => Answer::Index(0),
        QuestionKind::ImportKey => Answer::Flag(true),
    }
}

/// The display is redrawn at most every 50 ms: whether a redraw is due
/// `elapsed_ms` after the last one.
pub fn render_due(elapsed_ms: u128) -> (r: bool)
    ensures
        r == (elapsed_ms >= 50),
{
    elapsed_ms >= 50
}

/// The log line for a package that has been dealt with.
pub open spec fn op_line(op: PackageOp, plain: bool) -> Seq<char> {
    match op {
        PackageOp::Install { name, version } => colored("Installing:"@, Color::Green, plain) + " "@
            + name@ + " "@ + "("@ + colored(version@, Color::Blue, plain) + ")"@,
        PackageOp::Upgrade { name, old_version, new_version } => colored(
            "Upgrading:"@,
            Color::Green,
            plain,
        ) + " "@ + name@ + " "@ + old_version@ + " -> "@ + new_version@,
        PackageOp::Reinstall { name, version } => colored("Reinstalling:"@, Color::Green, plain)
            + " "@ + name@ + " "@ + "("@ + colored(version@, Color::Blue, plain) + ")"@,
        PackageOp::Downgrade { name, old_version, new_version } => colored(
            "Downgrading:"@,
            Color::Yellow,
            plain,
        ) + " "@ + name@ + " "@ + old_version@ + " -> "@ + new_version@,
        PackageOp::Remove { name, version } => colored("Removing:"@, Color::Red, plain) + " "@
            + name@ + " "@ + "("@ + colored(version@, Color::Blue, plain) + ")"@,
    }
}

/// The line that an event adds to the log, if any.
pub open spec fn event_line(ev: TransEvent, plain: bool) -> Option<Seq<char>> {
    match ev {
        TransEvent::ResolveDepsStart => Some(colored("Resolving dependencies"@, Color::Cyan, plain)),
        TransEvent::InterConflictsStart => Some(
            colored("Checking inter-conflicts"@, Color::Cyan, plain),
        ),
        TransEvent::PackageOperationDone(op) => Some(op_line(op, plain)),
        TransEvent::ScriptletInfo(line) => if trim(line@).len() == 0 {
            None
        } else {
            Some("    "@ + styled(trim(line@), "\x1b[2m"@, plain))
        },
        TransEvent::HookRunStart { name, desc } => Some(
            colored("Processing:"@, Color::Cyan, plain) + " "@ + match desc {
                Some(d) => d@,
                None => name@,
            },
        ),
        _ => None,
    }
}

/// The event means that the packages are being applied.
pub open spec fn starts_install_phase(ev: TransEvent) -> bool {
    ev is PackageOperationDone || ev is HookRunStart
}

/// The event changes what is drawn.
pub open spec fn redraws(ev: TransEvent) -> bool {
    match ev {
        TransEvent::ResolveDepsStart => true,
        TransEvent::InterConflictsStart => true,
        TransEvent::PackageOperationDone(_) => true,
        TransEvent::ScriptletInfo(line) => trim(line@).len() > 0,
        TransEvent::HookRunStart { .. } => true,
        TransEvent::HookRunDone => true,
        _ => false,
    }
}

/// The log with the lines that contain `p` left out.
pub open spec fn kept_lines(ls: Seq<Seq<char>>, p: Seq<char>) -> Seq<Seq<char>>
    decreases ls.len(),
{
    if ls.len() == 0 {
        Seq::empty()
    } else if contains(ls.last(), p) {
        kept_lines(ls.drop_last(), p)
    } else {
        kept_lines(ls.drop_last(), p).push(ls.last())
    }
}

/// The line that ends the log of a transaction.
pub open spec fn outcome_line(failure: Option<Seq<char>>, plain: bool) -> Seq<char> {
    match failure {
        None => colored("Transaction completed successfully"@, Color::Green, plain),
        Some(e) => colored("Failed"@, Color::Red, plain) + ": "@ + e,
    }
}

/// The log line for a package that has been dealt with.
pub fn op_text(op: &PackageOp, plain: bool) -> (r: String)
    ensures
        r@ == op_line(*op, plain),
{
    match op {
        PackageOp::Install { name, version } => {
            let mut r = green("Installing:", plain);
            r.append(" ");
            r.append(name.as_str());
            r.append(" ");
            r.append(formatted_version(version.as_str(), plain).as_str());
            r
        },
        PackageOp::Upgrade { name, old_version, new_version } => {
            let mut r = green("Upgrading:", plain);
            r.append(" ");
            r.append(name.as_str());
            r.append(" ");
            r.append(old_version.as_str());
            r.append(" -> ");
            r.append(new_version.as_str());
            r
        },
        PackageOp::Reinstall { name, version } => {
            let mut r = green("Reinstalling:", plain);
            r.append(" ");
            r.append(name.as_str());
            r.append(" ");
            r.append(formatted_version(version.as_str(), plain).as_str());
            r
        },
        PackageOp::Downgrade { name, old_version, new_version } => {
            let mut r = yellow("Downgrading:", plain);
            r.append(" ");
            r.append(name.as_str());
            r.append(" ");
            r.append(old_version.as_str());
            r.append(" -> ");
            r.append(new_version.as_str());
            r
        },
        PackageOp::Remove { name, version } => {
            let mut r = red("Removing:", plain);
            r.append(" ");
            r.append(name.as_str());
            r.append(" ");
            r.append(formatted_version(version.as_str(), plain).as_str());
            r
        },
    }
}

/// The state of the display for a transaction with the given title: the
/// title in bold, nothing downloaded and nothing logged yet.
pub fn callbacks(title: &str, plain: bool) -> (s: DownloadState)
    ensures
        s.wf(),
        s.title@ == styled(title@, "\x1b[1m"@, plain),
        s.accounted(),
        s.rendered == 0,
        !s.phase,
        s.total_bytes == 0,
        s.completed_bytes == 0,
        s.total_files == 0,
        s.completed_files == 0,
        s.currently_downloading is None,
        s.completed_downloads@.len() == 0,
        s.file_to_pkg@.len() == 0,
        s.log@.len() == 0,
        s.per_file@.len() == 0,
{
    DownloadState {
        rendered: 0,
        title: bold(title, plain),
        phase: false,
        total_bytes: 0,
        completed_bytes: 0,
        total_files: 0,
        completed_files: 0,
        currently_downloading: None,
        completed_downloads: Vec::new(),
        file_to_pkg: Vec::new(),
        log: Vec::new(),
        per_file: Vec::new(),
    }
}

/// The end of a transaction in the display: the install phase is on, the
/// log lines that contain `filter` are dropped, and the outcome (success, or
/// `Failed:` and the error) is logged.  The caller redraws.
pub fn commit_epilogue(state: &mut DownloadState, failure: Option<&str>, filter: &str, plain: bool)
    ensures
        final(state).phase,
        strs(final(state).log@) == kept_lines(strs(old(state).log@), filter@).push(
            outcome_line(
                match failure {
                    Some(e) => Some(e@),
                    None => None,
                },
                plain,
            ),
        ),
        accounting_kept(*old(state), *final(state)),
        final(state).per_file@ == old(state).per_file@,
        final(state).file_to_pkg@ == old(state).file_to_pkg@,
        final(state).rendered == old(state).rendered,
        final(state).title@ == old(state).title@,
        final(state).total_bytes == old(state).total_bytes,
        final(state).completed_bytes == old(state).completed_bytes,
        final(state).total_files == old(state).total_files,
        final(state).completed_files == old(state).completed_files,
        final(state).completed_downloads@ == old(state).completed_downloads@,
        opt_view(final(state).currently_downloading) == opt_view(old(state).currently_downloading),
{
    state.phase = true;
    let ghost ls = strs(state.log@);
    let mut kept: Vec<String> = Vec::new();
    let mut i: usize = 0;
    while i < state.log.len()
        invariant
            ls == strs(state.log@),
            i <= state.log@.len(),
            strs(kept@) == kept_lines(ls.take(i as int), filter@),
        decreases state.log@.len() - i,
    {
        let line = &state.log[i];
        assert(ls.take(i + 1).drop_last() =~= ls.take(i as int));
        assert(ls.take(i + 1).last() == line@);
        if !contains_str(line.as_str(), filter) {
            proof {
                lemma_strs_push(kept@, *line);
            }
            kept.push(copy_str(line.as_str()));
            assert(strs(kept@) =~= kept_lines(ls.take(i as int), filter@).push(line@));
        }
        i = i + 1;
    }
    assert(ls.take(state.log@.len() as int) =~= ls);
    let outcome = match failure {
        None => green("Transaction completed successfully", plain),
        Some(e) => {
            let mut r = red("Failed", plain);
            r.append(": ");
            r.append(e);
            r
        },
    };
    proof {
        lemma_strs_push(kept@, outcome);
    }
    kept.push(outcome);
    state.log = kept;
}

/// The text before the progress bar.
pub open spec fn download_prefix(eta: Seq<char>, plain: bool) -> Seq<char> {
    colored("Time Remaining:"@, Color::Cyan, plain) + " "@ + eta + " ["@
}

/// The text after the progress bar.
pub open spec fn download_suffix(
    pct: Seq<char>,
    status: Seq<char>,
    speed: Seq<char>,
    plain: bool,
) -> Seq<char> {
    "] "@ + colored(pct, Color::Blue, plain) + " "@ + styled("\u{2022}"@, "\x1b[1m"@, plain) + " "@
        + colored(status, Color::Green, plain) + " "@ + styled("\u{2022}"@, "\x1b[1m"@, plain)
        + " "@ + colored(speed, Color::Blue, plain)
}

/// The columns left for the progress bar in a box `w` columns wide, at
/// least four.
pub open spec fn bar_columns(w: nat, prefix: Seq<char>, suffix: Seq<char>) -> nat {
    let b = sat_sub(
        sat_sub(w as int, 4) as int,
        (display_width_spec(prefix) + display_width_spec(suffix)) as int,
    );
    if b > 4 {
        b
    } else {
        4
    }
}

/// Rows for the last five of `ls`.
pub open spec fn last_rows(ls: Seq<Seq<char>>, w: nat) -> Seq<Seq<char>> {
    let start = sat_sub(ls.len() as int, 5) as int;
    Seq::new((ls.len() - start) as nat, |i: int| box_row_spec(ls[start + i], w))
}

/// Each of `ls` after `label`.
pub open spec fn labelled(label: Seq<char>, ls: Seq<Seq<char>>) -> Seq<Seq<char>> {
    Seq::new(ls.len(), |i: int| label + ls[i])
}

/// The total that the transfer status counts against: at least one byte.
pub open spec fn status_total(total: i64) -> i64 {
    if total >= 1 {
        total
    } else {
        1
    }
}

/// The box drawn while packages are downloaded, without its bottom edge.
pub open spec fn download_box(
    s: DownloadState,
    w: nat,
    eta: Seq<char>,
    speed: Seq<char>,
    pct: Seq<char>,
    bar: Seq<char>,
    plain: bool,
) -> Seq<Seq<char>> {
    let prefix = download_prefix(eta, plain);
    let suffix = download_suffix(
        pct,
        transfer_text(s.completed_bytes, status_total(s.total_bytes)),
        speed,
        plain,
    );
    let current = match s.currently_downloading {
        Some(f) => seq![box_row_spec(colored("Downloading:"@, Color::Cyan, plain) + " "@ + f@, w)],
        None => if s.completed_downloads@.len() == 0 {
            seq![box_row_spec(colored("Starting Downloads..."@, Color::Cyan, plain), w)]
        } else {
            Seq::empty()
        },
    };
    seq![box_top_spec(styled("Download"@, "\x1b[1m"@, plain), w)] + last_rows(
        labelled(colored("Completed:"@, Color::Green, plain) + " "@, strs(s.completed_downloads@)),
        w,
    ) + current + seq![box_row_spec(prefix + bar + suffix, w)]
}

/// The lines drawn for a state: the download box while packages are
/// downloaded, else the last five log lines under the title, else a
/// placeholder; then the bottom edge.
pub open spec fn build_spec(
    s: DownloadState,
    w: nat,
    eta: Seq<char>,
    speed: Seq<char>,
    pct: Seq<char>,
    bar: Seq<char>,
    plain: bool,
) -> Seq<Seq<char>> {
    let body = if s.total_files > 0 && !s.phase {
        download_box(s, w, eta, speed, pct, bar, plain)
    } else if s.log@.len() > 0 {
        seq![box_top_spec(s.title@, w)] + last_rows(strs(s.log@), w)
    } else {
        seq![
            box_top_spec(s.title@, w),
            box_row_spec(styled("Preparing"@, "\x1b[2m"@, plain) + "..."@, w),
        ]
    };
    body.push(box_bottom_spec(w))
}

/// Appends rows for the last five of `ls`, each after `label` where given.
fn push_last_rows(out: &mut Vec<String>, ls: &Vec<String>, label: Option<&str>, w: usize)
    ensures
        strs(final(out)@) == strs(old(out)@) + last_rows(
            match label {
                Some(l) => labelled(l@, strs(ls@)),
                None => strs(ls@),
            },
            w as nat,
        ),
{
    let ghost lsv = match label {
        Some(l) => labelled(l@, strs(ls@)),
        None => strs(ls@),
    };
    let ghost o = strs(out@);
    let n = ls.len();
    let start = if n > 5 { n - 5 } else { 0 };
    let ghost rows = last_rows(lsv, w as nat);
    assert(rows.len() == n - start);
    let mut i = start;
    assert(rows.take(0) =~= Seq::<Seq<char>>::empty());
    assert(o + rows.take(0) =~= o);
    while i < n
        invariant
            n == ls@.len(),
            lsv.len() == n,
            start <= i <= n,
            rows.len() == n - start,
            rows == last_rows(lsv, w as nat),
            lsv == match label {
                Some(l) => labelled(l@, strs(ls@)),
                None => strs(ls@),
            },
            start == sat_sub(n as int, 5),
            strs(out@) == o + rows.take(i - start),
        decreases n - i,
    {
        let content = match label {
            Some(l) => cat(l, ls[i].as_str()),
            None => copy_str(ls[i].as_str()),
        };
        assert(content@ == lsv[i as int]);
        let row = box_row_width(content.as_str(), w);
        assert(rows[i - start] == row@);
        proof {
            lemma_strs_push(out@, row);
        }
        out.push(row);
        assert(rows.take(i + 1 - start) =~= rows.take(i - start).push(row@));
        i = i + 1;
    }
    assert(rows.take(n - start) =~= rows);
}

/// `n` in at least two digits (`{:02}`).
pub open spec fn two_digits(n: nat) -> Seq<char> {
    if n < 10 {
        "0"@ + dec(n)
    } else {
        dec(n)
    }
}

/// A number of seconds as hours, minutes and seconds (`h:mm:ss`).
pub open spec fn clock_spec(secs: nat) -> Seq<char> {
    dec(secs / 3600) + ":"@ + two_digits((secs % 3600) / 60) + ":"@ + two_digits(secs % 60)
}

/// `n` in at least two digits.
fn two_digit_text(n: u64) -> (r: String)
    ensures
        r@ == two_digits(n as nat),
{
    if n < 10 {
        cat("0", u64_to_dec(n).as_str())
    } else {
        u64_to_dec(n)
    }
}

/// A number of seconds as hours, minutes and seconds, as the time remaining
/// of a download is shown.
pub fn clock_text(secs: u64) -> (r: String)
    ensures
        r@ == clock_spec(secs as nat),
{
    let mut r = u64_to_dec(secs / 3600);
    r.append(":");
    r.append(two_digit_text((secs % 3600) / 60).as_str());
    r.append(":");
    r.append(two_digit_text(secs % 60).as_str());
    r
}

/// A file's count of bytes never goes back, and once its size is known it
/// stays, whatever is reported.
pub proof fn lemma_progress_only_forward(e: FileProgress, downloaded: i64, total: i64)
    ensures
        progress_step(e, downloaded, total).downloaded >= e.downloaded,
        e.total != 0 ==> progress_step(e, downloaded, total).total == e.total,
        completion_step(e, total).downloaded >= e.downloaded,
        e.total != 0 ==> completion_step(e, total).total == e.total,
{
}

/// The package recorded for a file when its download starts is the one
/// given back when the download completes: `after_start` is the files'
/// packages as [`DownloadState::on_download_init`] leaves them for the file
/// `f`, and `returned` what [`DownloadState::on_download_completed`] gives
/// back for it.
pub proof fn lemma_completion_returns_recorded_package(
    before: Seq<(String, String)>,
    after_start: Seq<(String, String)>,
    f: Seq<char>,
    returned: Option<Seq<char>>,
)
    requires
        forall|g: Seq<char>| #[trigger] pkg_lookup(after_start, g) == if g == f {
            Some(pkg_name_spec(f))
        } else {
            pkg_lookup(before, g)
        },
        returned == pkg_lookup(after_start, f),
    ensures
        returned == Some(pkg_name_spec(f)),
{
}

/// The name of a file without its directories (`rsplit('/').next()`).
pub open spec fn file_base(s: Seq<char>) -> Seq<char> {
    if last_index_of(s, '/') >= 0 {
        s.skip(last_index_of(s, '/') + 1)
    } else {
        s
    }
}

/// The name of a file without its directories.
pub fn file_base_name(s: &str) -> (r: String)
    ensures
        r@ == file_base(s@),
{
    let v = to_chars(s);
    let n = v.len();
    proof {
        lemma_last_index(v@, '/');
    }
    match last_index(&v, '/') {
        Some(i) => {
            assert(v@.skip(i + 1) =~= v@.subrange(i + 1, v@.len() as int));
            string_of_range(&v, i + 1, n)
        },
        None => {
            assert(v@.subrange(0, v@.len() as int) =~= v@);
            string_of_range(&v, 0, v.len())
        },
    }
}

/// The view of an optional string.
pub open spec fn opt_view(o: Option<String>) -> Option<Seq<char>> {
    match o {
        Some(s) => Some(s@),
        None => None,
    }
}

/// The package recorded for file `f`, as text.
pub open spec fn pkg_lookup(fp: Seq<(String, String)>, f: Seq<char>) -> Option<Seq<char>> {
    opt_view(lookup(fp, f))
}

/// The bytes counted for all files together.
pub open spec fn downloaded_sum(pf: Seq<(String, FileProgress)>) -> int
    decreases pf.len(),
{
    if pf.len() == 0 {
        0
    } else {
        downloaded_sum(pf.drop_last()) + pf.last().1.downloaded
    }
}

/// Replacing one file's progress changes the sum by the difference.
proof fn lemma_sum_update(pf: Seq<(String, FileProgress)>, i: int, e: (String, FileProgress))
    requires
        0 <= i < pf.len(),
    ensures
        downloaded_sum(pf.update(i, e)) == downloaded_sum(pf) - pf[i].1.downloaded + e.1.downloaded,
    decreases pf.len(),
{
    let u = pf.update(i, e);
    if i == pf.len() - 1 {
        assert(u.drop_last() =~= pf.drop_last());
    } else {
        assert(u.drop_last() =~= pf.drop_last().update(i, e));
        lemma_sum_update(pf.drop_last(), i, e);
    }
}

/// Storing progress `p` for `f` changes the sum by the difference from what
/// was recorded for `f` (nothing where it had none).
proof fn lemma_sum_put(
    old: Seq<(String, FileProgress)>,
    new: Seq<(String, FileProgress)>,
    f: Seq<char>,
    p: FileProgress,
)
    requires
        distinct_keys(old),
        has_key(old, f) ==> exists|i: int|
            #[trigger] key_at(old, i, f) && new == old.update(i, new[i]) && new[i].1 == p,
        !has_key(old, f) ==> new.len() == old.len() + 1 && new.drop_last() == old && new.last().1 == p,
    ensures
        downloaded_sum(new) == downloaded_sum(old) - progress_of(old, f).downloaded + p.downloaded,
{
    if has_key(old, f) {
        let i = choose|i: int| #[trigger] key_at(old, i, f) && new == old.update(i, new[i]) && new[i].1 == p;
        crate::keyed::lemma_lookup_at(old, i);
        lemma_sum_update(old, i, new[i]);
    }
}

/// What one call of the display's steps keeps: the difference between the
/// files' counts and the completed bytes, and every file's count, which
/// never falls.
pub open spec fn accounting_kept(a: DownloadState, b: DownloadState) -> bool {
    &&& downloaded_sum(b.per_file@) - b.completed_bytes == downloaded_sum(a.per_file@) - a.completed_bytes
    &&& forall|g: Seq<char>|
        #[trigger] progress_of(b.per_file@, g).downloaded >= progress_of(a.per_file@, g).downloaded
}

/// Over any run of the display's steps from a fresh display (each state
/// follows the one before as a step leaves it), the completed bytes stay
/// the sum of the files' counts, and no file's count ever falls.
pub proof fn lemma_accounting_over_events(states: Seq<DownloadState>)
    requires
        states.len() > 0,
        states[0].accounted(),
        forall|i: int| 0 <= i < states.len() - 1 ==> accounting_kept(#[trigger] states[i], states[i + 1]),
    ensures
        forall|i: int| 0 <= i < states.len() ==> #[trigger] states[i].accounted(),
        forall|i: int, j: int, g: Seq<char>|
            0 <= i <= j < states.len() ==> #[trigger] progress_of(states[j].per_file@, g).downloaded
                >= #[trigger] progress_of(states[i].per_file@, g).downloaded,
    decreases states.len(),
{
    if states.len() > 1 {
        let init = states.drop_last();
        let n = states.len() - 1;
        assert forall|i: int| 0 <= i < init.len() - 1 implies accounting_kept(#[trigger] init[i], init[i + 1]) by {
            assert(init[i] == states[i]);
            assert(init[i + 1] == states[i + 1]);
            assert(accounting_kept(states[i], states[i + 1]));
        }
        assert(init[0] == states[0]);
        lemma_accounting_over_events(init);
        assert(accounting_kept(states[n - 1], states[n]));
        assert(init[n - 1] == states[n - 1]);
        assert(init[n - 1].accounted());
        assert forall|i: int| 0 <= i < states.len() implies #[trigger] states[i].accounted() by {
            if i < n {
                assert(init[i] == states[i]);
                assert(init[i].accounted());
            }
        }
        assert forall|i: int, j: int, g: Seq<char>|
            0 <= i <= j < states.len() implies #[trigger] progress_of(states[j].per_file@, g).downloaded
                >= #[trigger] progress_of(states[i].per_file@, g).downloaded by {
            if j < n {
                assert(init[i] == states[i]);
                assert(init[j] == states[j]);
                assert(progress_of(init[j].per_file@, g).downloaded >= progress_of(init[i].per_file@, g).downloaded);
            } else if i < n {
                assert(init[i] == states[i]);
                assert(progress_of(init[n - 1].per_file@, g).downloaded >= progress_of(init[i].per_file@, g).downloaded);
                assert(progress_of(states[n].per_file@, g).downloaded >= progress_of(states[n - 1].per_file@, g).downloaded);
            }
        }
    }
}

/// No progress yet.
pub open spec fn no_progress() -> FileProgress {
    FileProgress { downloaded: 0, total: 0 }
}

/// A file's progress after a report of `downloaded` of `total` bytes: the
/// size is taken from the first report that gives one, and the count only
/// moves forward.
pub open spec fn progress_step(e: FileProgress, downloaded: i64, total: i64) -> FileProgress {
    FileProgress {
        downloaded: if downloaded - e.downloaded > 0 { downloaded } else { e.downloaded },
        total: if e.total == 0 && total > 0 { total } else { e.total },
    }
}

/// A file's progress once it is complete at `total` bytes.
pub open spec fn completion_step(e: FileProgress, total: i64) -> FileProgress {
    FileProgress {
        downloaded: if total - e.downloaded > 0 { total } else { e.downloaded },
        total: if e.total == 0 { total } else { e.total },
    }
}

/// `f` is being downloaded and has come at least as far, as a fraction of
/// its size, as every other file being downloaded.
pub open spec fn is_best(
    fp: Seq<(String, String)>,
    pf: Seq<(String, FileProgress)>,
    f: Seq<char>,
) -> bool {
    &&& has_key(fp, f)
    &&& in_flight(progress_of(pf, f))
    &&& forall|i: int|
        0 <= i < fp.len() && in_flight(progress_of(pf, #[trigger] fp[i].0@)) ==> ahead_or_equal(
            progress_of(pf, f),
            progress_of(pf, fp[i].0@),
        )
}

/// Among the first `n` files (in the order they are listed), the index of the
/// last one under way that has come at least as far as every earlier one
/// under way, as a fraction of its size; -1 where none is under way.
pub open spec fn best_index(fp: Seq<(String, String)>, pf: Seq<(String, FileProgress)>, n: nat) -> int
    decreases n,
{
    if n == 0 {
        -1
    } else {
        let b = best_index(fp, pf, (n - 1) as nat);
        let p = progress_of(pf, fp[n - 1].0@);
        if in_flight(p) && (b < 0 || ahead_or_equal(p, progress_of(pf, fp[b].0@))) {
            n - 1
        } else {
            b
        }
    }
}

/// The file that the best-progress query gives: the one of [`best_index`]
/// over all files, if any.
pub open spec fn best_file(fp: Seq<(String, String)>, pf: Seq<(String, FileProgress)>) -> Option<Seq<char>> {
    let b = best_index(fp, pf, fp.len());
    if b < 0 {
        None
    } else {
        Some(fp[b].0@)
    }
}

/// The file shown is one under way that has come furthest.
pub open spec fn shows_best(
    fp: Seq<(String, String)>,
    pf: Seq<(String, FileProgress)>,
    cur: Option<String>,
) -> bool {
    match cur {
        Some(c) => is_best(fp, pf, c@),
        None => false,
    }
}

/// No file is being downloaded.
pub open spec fn none_in_flight(fp: Seq<(String, String)>, pf: Seq<(String, FileProgress)>) -> bool {
    forall|i: int| 0 <= i < fp.len() ==> !in_flight(progress_of(pf, #[trigger] fp[i].0@))
}

/// Compares two files' progress as fractions, without overflow.
fn is_ahead_or_equal(a: FileProgress, b: FileProgress) -> (r: bool)
    ensures
        r == ahead_or_equal(a, b),
{
    let ad = a.downloaded as i128;
    let at = a.total as i128;
    let bd = b.downloaded as i128;
    let bt = b.total as i128;
    proof {
        lemma_product_fits(a.downloaded, b.total);
        lemma_product_fits(b.downloaded, a.total);
    }
    ad * bt >= bd * at
}

proof fn lemma_product_fits(x: i64, y: i64)
    ensures
        -0x4000_0000_0000_0000_0000_0000_0000_0000 <= (x as int) * (y as int) <= 0x4000_0000_0000_0000_0000_0000_0000_0000,
{
    let xi = x as int;
    let yi = y as int;
    assert(-0x8000_0000_0000_0000 <= xi <= 0x8000_0000_0000_0000);
    assert(-0x8000_0000_0000_0000 <= yi <= 0x8000_0000_0000_0000);
    assert(-0x4000_0000_0000_0000_0000_0000_0000_0000 <= xi * yi <= 0x4000_0000_0000_0000_0000_0000_0000_0000)
        by (nonlinear_arith)
        requires
            -0x8000_0000_0000_0000 <= xi <= 0x8000_0000_0000_0000,
            -0x8000_0000_0000_0000 <= yi <= 0x8000_0000_0000_0000;
}

impl DownloadState {
    /// The completed bytes are the sum of what each file has counted.
    pub open spec fn accounted(&self) -> bool {
        self.completed_bytes == downloaded_sum(self.per_file@)
    }

    /// The state is well formed: no file is recorded twice.
    pub open spec fn wf(&self) -> bool {
        &&& distinct_keys(self.per_file@)
        &&& distinct_keys(self.file_to_pkg@)
    }

    /// The recorded progress of a file.
    fn progress(&self, f: &str) -> (p: FileProgress)
        requires
            self.wf(),
        ensures
            p == progress_of(self.per_file@, f@),
    {
        match get_copy(&self.per_file, f) {
            Some(p) => p,
            None => FileProgress { downloaded: 0, total: 0 },
        }
    }

    /// The file under way that has come furthest, as a fraction of its size;
    /// `None` where no file is under way.  Which of several files that have
    /// come equally far is not fixed.
    pub fn best_progress(&self) -> (r: Option<String>)
        requires
            self.wf(),
        ensures
            match r {
                Some(f) => is_best(self.file_to_pkg@, self.per_file@, f@),
                None => none_in_flight(self.file_to_pkg@, self.per_file@),
            },
            opt_view(r) == best_file(self.file_to_pkg@, self.per_file@),
    {
        let ghost pf = self.per_file@;
        let ghost fp = self.file_to_pkg@;
        let mut best: Option<usize> = None;
        let mut best_p = FileProgress { downloaded: 0, total: 0 };
        let mut i: usize = 0;
        while i < self.file_to_pkg.len()
            invariant
                pf == self.per_file@,
                fp == self.file_to_pkg@,
                self.wf(),
                i <= fp.len(),
                match best {
                    Some(b) => best_index(fp, pf, i as nat) == b as int,
                    None => best_index(fp, pf, i as nat) == -1,
                },
                match best {
                    Some(b) => b < i && best_p == progress_of(pf, fp[b as int].0@) && in_flight(best_p)
                        && forall|k: int| 0 <= k < i && in_flight(progress_of(pf, #[trigger] fp[k].0@))
                            ==> ahead_or_equal(best_p, progress_of(pf, fp[k].0@)),
                    None => forall|k: int| 0 <= k < i ==> !in_flight(progress_of(pf, #[trigger] fp[k].0@)),
                },
            decreases fp.len() - i,
        {
            let p = self.progress(self.file_to_pkg[i].0.as_str());
            if p.total > 0 && p.downloaded < p.total {
                let better = match best {
                    None => true,
                    Some(_) => is_ahead_or_equal(p, best_p),
                };
                if better {
                    proof {
                        assert forall|k: int| 0 <= k < i + 1 && in_flight(progress_of(pf, #[trigger] fp[k].0@))
                            implies ahead_or_equal(p, progress_of(pf, fp[k].0@)) by {
                            if k < i && best is Some {
                                let q = progress_of(pf, fp[k].0@);
                                // p >= best_p >= q, as fractions with positive sizes
                                assert((p.downloaded as int) * (q.total as int) >= (q.downloaded as int) * (p.total as int))
                                    by (nonlinear_arith)
                                    requires
                                        (p.downloaded as int) * (best_p.total as int) >= (best_p.downloaded as int) * (p.total as int),
                                        (best_p.downloaded as int) * (q.total as int) >= (q.downloaded as int) * (best_p.total as int),
                                        p.total > 0, q.total > 0, best_p.total > 0;
                            }
                        }
                    }
                    best = Some(i);
                    best_p = p;
                } else {
                    proof {
                        assert((best_p.downloaded as int) * (p.total as int) >= (p.downloaded as int) * (best_p.total as int));
                    }
                }
            }
            i = i + 1;
        }
        match best {
            Some(b) => {
                assert(key_at(fp, b as int, fp[b as int].0@));
                Some(self.file_to_pkg[b].0.clone())
            },
            None => None,
        }
    }

    /// The file to show after the progress changed: the one under way that
    /// has come furthest, or `fallback` where none is under way.
    fn refresh_current(&mut self, fallback: Option<String>)
        requires
            old(self).wf(),
        ensures
            final(self).wf(),
            opt_view(final(self).currently_downloading) == match best_file(
                final(self).file_to_pkg@,
                final(self).per_file@,
            ) {
                Some(f) => Some(f),
                None => opt_view(fallback),
            },
            none_in_flight(final(self).file_to_pkg@, final(self).per_file@)
                ==> opt_view(final(self).currently_downloading) == opt_view(fallback),
            !none_in_flight(final(self).file_to_pkg@, final(self).per_file@)
                ==> shows_best(final(self).file_to_pkg@, final(self).per_file@, final(self).currently_downloading),
            final(self).per_file@ == old(self).per_file@,
            final(self).file_to_pkg@ == old(self).file_to_pkg@,
            final(self).rendered == old(self).rendered,
            final(self).title@ == old(self).title@,
            final(self).phase == old(self).phase,
            final(self).total_bytes == old(self).total_bytes,
            final(self).completed_bytes == old(self).completed_bytes,
            final(self).total_files == old(self).total_files,
            final(self).completed_files == old(self).completed_files,
            final(self).completed_downloads@ == old(self).completed_downloads@,
            final(self).log@ == old(self).log@,
    {
        let best = self.best_progress();
        proof {
            if best is Some {
                let f = best->0;
                let j = choose|j: int| #[trigger] key_at(self.file_to_pkg@, j, f@);
                assert(self.file_to_pkg@[j].0@ == f@);
            }
        }
        self.currently_downloading = match best {
            Some(f) => Some(f),
            None => fallback,
        };
    }

    /// A download has started: the file is recorded, with no progress where
    /// it had none, together with the package it holds, and it is shown
    /// where no file was.  The caller redraws.
    pub fn on_download_init(&mut self, filename: &str)
        requires
            old(self).wf(),
            old(self).total_files < usize::MAX,
        ensures
            final(self).wf(),
            downloaded_sum(final(self).per_file@) - final(self).completed_bytes == downloaded_sum(
                old(self).per_file@,
            ) - old(self).completed_bytes,
            old(self).accounted() ==> final(self).accounted(),
            accounting_kept(*old(self), *final(self)),
            forall|g: Seq<char>|
                #[trigger] progress_of(final(self).per_file@, g).downloaded >= progress_of(
                    old(self).per_file@,
                    g,
                ).downloaded,
            forall|g: Seq<char>| #[trigger] lookup(final(self).per_file@, g) == if g == file_base(filename@)
                && lookup(old(self).per_file@, g) is None {
                Some(no_progress())
            } else {
                lookup(old(self).per_file@, g)
            },
            forall|g: Seq<char>| #[trigger] pkg_lookup(final(self).file_to_pkg@, g) == if g == file_base(filename@) {
                Some(pkg_name_spec(file_base(filename@)))
            } else {
                pkg_lookup(old(self).file_to_pkg@, g)
            },
            final(self).total_files == old(self).total_files + 1,
            opt_view(final(self).currently_downloading) == if old(self).currently_downloading is None {
                Some(file_base(filename@))
            } else {
                opt_view(old(self).currently_downloading)
            },
            final(self).rendered == old(self).rendered,
            final(self).title@ == old(self).title@,
            final(self).phase == old(self).phase,
            final(self).total_bytes == old(self).total_bytes,
            final(self).completed_bytes == old(self).completed_bytes,
            final(self).completed_files == old(self).completed_files,
            final(self).completed_downloads@ == old(self).completed_downloads@,
            final(self).log@ == old(self).log@,
    {
        let f = file_base_name(filename);
        let ghost pf0 = self.per_file@;
        if get_copy(&self.per_file, f.as_str()).is_none() {
            put(&mut self.per_file, f.as_str(), FileProgress { downloaded: 0, total: 0 });
            proof {
                lemma_sum_put(pf0, self.per_file@, f@, FileProgress { downloaded: 0, total: 0 });
            }
        }
        self.total_files = self.total_files + 1;
        let name = pkg_name_from_filename(f.as_str());
        put(&mut self.file_to_pkg, f.as_str(), name);
        if self.currently_downloading.is_none() {
            self.currently_downloading = Some(f);
        }
    }

    /// `downloaded` of `total` bytes of a file have arrived: its progress
    /// moves forward, what is new counts towards the completed bytes, and the
    /// file shown becomes the one that has come furthest, if any is under
    /// way.  The caller redraws.
    pub fn on_download_progress(&mut self, filename: &str, downloaded: i64, total: i64)
        requires
            old(self).wf(),
            i64::MIN <= downloaded - progress_of(old(self).per_file@, file_base(filename@)).downloaded
                <= i64::MAX,
            downloaded - progress_of(old(self).per_file@, file_base(filename@)).downloaded > 0
                ==> old(self).completed_bytes + (downloaded - progress_of(
                old(self).per_file@,
                file_base(filename@),
            ).downloaded) <= i64::MAX,
        ensures
            final(self).wf(),
            downloaded_sum(final(self).per_file@) - final(self).completed_bytes == downloaded_sum(
                old(self).per_file@,
            ) - old(self).completed_bytes,
            old(self).accounted() ==> final(self).accounted(),
            accounting_kept(*old(self), *final(self)),
            forall|g: Seq<char>|
                #[trigger] progress_of(final(self).per_file@, g).downloaded >= progress_of(
                    old(self).per_file@,
                    g,
                ).downloaded,
            forall|g: Seq<char>| #[trigger] lookup(final(self).per_file@, g) == if g == file_base(filename@) {
                Some(progress_step(progress_of(old(self).per_file@, g), downloaded, total))
            } else {
                lookup(old(self).per_file@, g)
            },
            final(self).completed_bytes == old(self).completed_bytes + if downloaded - progress_of(
                old(self).per_file@,
                file_base(filename@),
            ).downloaded > 0 {
                downloaded - progress_of(old(self).per_file@, file_base(filename@)).downloaded
            } else {
                0
            },
            opt_view(final(self).currently_downloading) == match best_file(
                final(self).file_to_pkg@,
                final(self).per_file@,
            ) {
                Some(f) => Some(f),
                None => opt_view(old(self).currently_downloading),
            },
            none_in_flight(final(self).file_to_pkg@, final(self).per_file@)
                ==> opt_view(final(self).currently_downloading) == opt_view(old(self).currently_downloading),
            !none_in_flight(final(self).file_to_pkg@, final(self).per_file@)
                ==> shows_best(final(self).file_to_pkg@, final(self).per_file@, final(self).currently_downloading),
            final(self).file_to_pkg@ == old(self).file_to_pkg@,
            final(self).rendered == old(self).rendered,
            final(self).title@ == old(self).title@,
            final(self).phase == old(self).phase,
            final(self).total_bytes == old(self).total_bytes,
            final(self).total_files == old(self).total_files,
            final(self).completed_files == old(self).completed_files,
            final(self).completed_downloads@ == old(self).completed_downloads@,
            final(self).log@ == old(self).log@,
    {
        let f = file_base_name(filename);
        let e = self.progress(f.as_str());
        let new_total = if e.total == 0 && total > 0 { total } else { e.total };
        let d = downloaded - e.downloaded;
        let new_done = if d > 0 { downloaded } else { e.downloaded };
        let ghost pf0 = self.per_file@;
        put(&mut self.per_file, f.as_str(), FileProgress { downloaded: new_done, total: new_total });
        proof {
            lemma_sum_put(pf0, self.per_file@, f@, FileProgress { downloaded: new_done, total: new_total });
        }
        if d > 0 {
            self.completed_bytes = self.completed_bytes + d;
        }
        let fallback = self.currently_downloading.clone();
        self.refresh_current(fallback);
    }

    /// A download has finished at `total` bytes: where the size is known the
    /// file is complete and what was missing counts towards the completed
    /// bytes; one more file is done; the file's package is taken off the
    /// files under way and returned, and the file is then the one shown.
    /// Where a package is returned the caller redraws, then passes it to
    /// [`DownloadState::finish_completion`].
    pub fn on_download_completed(&mut self, filename: &str, total: i64) -> (name: Option<String>)
        requires
            old(self).wf(),
            old(self).completed_files < usize::MAX,
            total > 0 ==> total - progress_of(old(self).per_file@, file_base(filename@)).downloaded <= i64::MAX,
            total > 0 && total - progress_of(old(self).per_file@, file_base(filename@)).downloaded > 0
                ==> old(self).completed_bytes + (total - progress_of(
                old(self).per_file@,
                file_base(filename@),
            ).downloaded) <= i64::MAX,
        ensures
            final(self).wf(),
            downloaded_sum(final(self).per_file@) - final(self).completed_bytes == downloaded_sum(
                old(self).per_file@,
            ) - old(self).completed_bytes,
            old(self).accounted() ==> final(self).accounted(),
            accounting_kept(*old(self), *final(self)),
            forall|g: Seq<char>|
                #[trigger] progress_of(final(self).per_file@, g).downloaded >= progress_of(
                    old(self).per_file@,
                    g,
                ).downloaded,
            total > 0 ==> forall|g: Seq<char>| #[trigger] lookup(final(self).per_file@, g) == if g == file_base(filename@) {
                Some(completion_step(progress_of(old(self).per_file@, g), total))
            } else {
                lookup(old(self).per_file@, g)
            },
            total <= 0 ==> final(self).per_file@ == old(self).per_file@,
            final(self).completed_bytes == old(self).completed_bytes + if total > 0 && total - progress_of(
                old(self).per_file@,
                file_base(filename@),
            ).downloaded > 0 {
                total - progress_of(old(self).per_file@, file_base(filename@)).downloaded
            } else {
                0
            },
            final(self).completed_files == old(self).completed_files + 1,
            opt_view(name) == pkg_lookup(old(self).file_to_pkg@, file_base(filename@)),
            forall|g: Seq<char>| #[trigger] pkg_lookup(final(self).file_to_pkg@, g) == if g == file_base(filename@) {
                None
            } else {
                pkg_lookup(old(self).file_to_pkg@, g)
            },
            opt_view(final(self).currently_downloading) == if name is Some {
                Some(file_base(filename@))
            } else {
                opt_view(old(self).currently_downloading)
            },
            final(self).rendered == old(self).rendered,
            final(self).title@ == old(self).title@,
            final(self).phase == old(self).phase,
            final(self).total_bytes == old(self).total_bytes,
            final(self).total_files == old(self).total_files,
            final(self).completed_downloads@ == old(self).completed_downloads@,
            final(self).log@ == old(self).log@,
    {
        let f = file_base_name(filename);
        if total > 0 {
            let e = self.progress(f.as_str());
            let new_total = if e.total == 0 { total } else { e.total };
            let r = total - e.downloaded;
            let new_done = if r > 0 { total } else { e.downloaded };
            let ghost pf0 = self.per_file@;
            put(&mut self.per_file, f.as_str(), FileProgress { downloaded: new_done, total: new_total });
            proof {
                lemma_sum_put(pf0, self.per_file@, f@, FileProgress { downloaded: new_done, total: new_total });
            }
            if r > 0 {
                self.completed_bytes = self.completed_bytes + r;
            }
        }
        self.completed_files = self.completed_files + 1;
        let name = take(&mut self.file_to_pkg, f.as_str());
        if name.is_some() {
            self.currently_downloading = Some(f);
        }
        name
    }

    /// After a completed download: its package, if one was returned, joins
    /// the completed downloads, and the file shown becomes the one under way
    /// that has come furthest, or none.
    pub fn finish_completion(&mut self, name: Option<String>)
        requires
            old(self).wf(),
        ensures
            final(self).wf(),
            strs(final(self).completed_downloads@) == match name {
                Some(n) => strs(old(self).completed_downloads@).push(n@),
                None => strs(old(self).completed_downloads@),
            },
            opt_view(final(self).currently_downloading) == best_file(
                final(self).file_to_pkg@,
                final(self).per_file@,
            ),
            none_in_flight(final(self).file_to_pkg@, final(self).per_file@)
                ==> final(self).currently_downloading is None,
            !none_in_flight(final(self).file_to_pkg@, final(self).per_file@)
                ==> shows_best(final(self).file_to_pkg@, final(self).per_file@, final(self).currently_downloading),
            accounting_kept(*old(self), *final(self)),
            final(self).per_file@ == old(self).per_file@,
            final(self).file_to_pkg@ == old(self).file_to_pkg@,
            final(self).rendered == old(self).rendered,
            final(self).title@ == old(self).title@,
            final(self).phase == old(self).phase,
            final(self).total_bytes == old(self).total_bytes,
            final(self).completed_bytes == old(self).completed_bytes,
            final(self).total_files == old(self).total_files,
            final(self).completed_files == old(self).completed_files,
            final(self).log@ == old(self).log@,
    {
        if let Some(n) = name {
            proof {
                lemma_strs_push(self.completed_downloads@, n);
            }
            self.completed_downloads.push(n);
        }
        self.refresh_current(None);
    }

    /// Follows a transaction event: the log gets the event's line, if it has
    /// one; the install phase starts with the first package dealt with or
    /// hook run, and the caller announces it where it was not on yet.
    pub fn on_event(&mut self, ev: &TransEvent, plain: bool) -> (r: EventEffect)
        requires
            old(self).wf(),
        ensures
            final(self).wf(),
            r.next_phase == (starts_install_phase(*ev) && !old(self).phase),
            r.redraw == redraws(*ev),
            final(self).phase == (old(self).phase || starts_install_phase(*ev)),
            strs(final(self).log@) == match event_line(*ev, plain) {
                Some(l) => strs(old(self).log@).push(l),
                None => strs(old(self).log@),
            },
            accounting_kept(*old(self), *final(self)),
            final(self).per_file@ == old(self).per_file@,
            final(self).file_to_pkg@ == old(self).file_to_pkg@,
            final(self).rendered == old(self).rendered,
            final(self).title@ == old(self).title@,
            final(self).total_bytes == old(self).total_bytes,
            final(self).completed_bytes == old(self).completed_bytes,
            final(self).total_files == old(self).total_files,
            final(self).completed_files == old(self).completed_files,
            final(self).completed_downloads@ == old(self).completed_downloads@,
            opt_view(final(self).currently_downloading) == opt_view(old(self).currently_downloading),
    {
        let next_phase = match ev {
            TransEvent::PackageOperationDone(_) => !self.phase,
            TransEvent::HookRunStart { .. } => !self.phase,
            _ => false,
        };
        let line: Option<String> = match ev {
            TransEvent::ResolveDepsStart => Some(cyan("Resolving dependencies", plain)),
            TransEvent::InterConflictsStart => Some(cyan("Checking inter-conflicts", plain)),
            TransEvent::PackageOperationDone(op) => {
                self.phase = true;
                Some(op_text(op, plain))
            },
            TransEvent::ScriptletInfo(l) => {
                let t = trim_str(l.as_str());
                if t.as_str().is_empty() {
                    None
                } else {
                    Some(cat("    ", dim(t.as_str(), plain).as_str()))
                }
            },
            TransEvent::HookRunStart { name, desc } => {
                self.phase = true;
                let mut r = cyan("Processing:", plain);
                r.append(" ");
                match desc {
                    Some(d) => r.append(d.as_str()),
                    None => r.append(name.as_str()),
                }
                Some(r)
            },
            _ => None,
        };
        let redraw = match ev {
            TransEvent::ResolveDepsStart => true,
            TransEvent::InterConflictsStart => true,
            TransEvent::PackageOperationDone(_) => true,
            TransEvent::ScriptletInfo(_) => line.is_some(),
            TransEvent::HookRunStart { .. } => true,
            TransEvent::HookRunDone => true,
            _ => false,
        };
        if let Some(l) = line {
            proof {
                lemma_strs_push(self.log@, l);
            }
            self.log.push(l);
        }
        EventEffect { next_phase, redraw }
    }

    /// The text after the progress bar, for a percentage and a speed that
    /// the caller has formatted.
    fn suffix_text(&self, pct: &str, speed: &str, plain: bool) -> (r: String)
        ensures
            r@ == download_suffix(
                pct@,
                transfer_text(self.completed_bytes, status_total(self.total_bytes)),
                speed@,
                plain,
            ),
    {
        let mut r = cat("] ", color(pct, Color::Blue, plain).as_str());
        r.append(" ");
        r.append(bold("\u{2022}", plain).as_str());
        r.append(" ");
        r.append(green(self.dl_status().as_str(), plain).as_str());
        r.append(" ");
        r.append(bold("\u{2022}", plain).as_str());
        r.append(" ");
        r.append(color(speed, Color::Blue, plain).as_str());
        r
    }

    /// The columns left for the progress bar in a box `w` columns wide, given
    /// the time remaining, the speed and the percentage as the caller has
    /// formatted them.
    pub fn bar_width(&self, w: usize, eta: &str, speed: &str, pct: &str, plain: bool) -> (r: usize)
        ensures
            r == bar_columns(
                w as nat,
                download_prefix(eta@, plain),
                download_suffix(
                    pct@,
                    transfer_text(self.completed_bytes, status_total(self.total_bytes)),
                    speed@,
                    plain,
                ),
            ),
    {
        let mut prefix = cyan("Time Remaining:", plain);
        prefix.append(" ");
        prefix.append(eta);
        prefix.append(" [");
        let suffix = self.suffix_text(pct, speed, plain);
        let inner: u128 = if w > 4 { (w - 4) as u128 } else { 0 };
        let used: u128 = display_width(prefix.as_str()) as u128 + display_width(suffix.as_str()) as u128;
        let b: u128 = if inner > used { inner - used } else { 0 };
        if b > 4 { b as usize } else { 4 }
    }

    /// The lines to draw in a box `w` columns wide, given the time remaining,
    /// the speed, the percentage and the progress bar as the caller has
    /// formatted them.
    pub fn build(&self, w: usize, eta: &str, speed: &str, pct: &str, bar: &str, plain: bool) -> (r: Vec<String>)
        ensures
            strs(r@) == build_spec(*self, w as nat, eta@, speed@, pct@, bar@, plain),
    {
        let mut out: Vec<String> = Vec::new();
        if self.total_files > 0 && !self.phase {
            let top = box_top_width(bold("Download", plain).as_str(), w);
            proof {
                lemma_strs_push(out@, top);
            }
            out.push(top);
            let label = cat(green("Completed:", plain).as_str(), " ");
            push_last_rows(&mut out, &self.completed_downloads, Some(label.as_str()), w);
            let ghost before_current = strs(out@);
            match &self.currently_downloading {
                Some(f) => {
                    let mut c = cyan("Downloading:", plain);
                    c.append(" ");
                    c.append(f.as_str());
                    let row = box_row_width(c.as_str(), w);
                    proof {
                        lemma_strs_push(out@, row);
                    }
                    out.push(row);
                },
                None => {
                    if self.completed_downloads.len() == 0 {
                        let row = box_row_width(cyan("Starting Downloads...", plain).as_str(), w);
                        proof {
                            lemma_strs_push(out@, row);
                        }
                        out.push(row);
                    } else {
                        assert(before_current + Seq::<Seq<char>>::empty() =~= before_current);
                    }
                },
            }
            let mut line = cyan("Time Remaining:", plain);
            line.append(" ");
            line.append(eta);
            line.append(" [");
            line.append(bar);
            line.append(self.suffix_text(pct, speed, plain).as_str());
            let row = box_row_width(line.as_str(), w);
            proof {
                lemma_strs_push(out@, row);
            }
            out.push(row);
        } else if self.log.len() > 0 {
            let top = box_top_width(self.title.as_str(), w);
            proof {
                lemma_strs_push(out@, top);
            }
            out.push(top);
            push_last_rows(&mut out, &self.log, None, w);
        } else {
            let top = box_top_width(self.title.as_str(), w);
            proof {
                lemma_strs_push(out@, top);
            }
            out.push(top);
            let mut c = dim("Preparing", plain);
            c.append("...");
            let row = box_row_width(c.as_str(), w);
            proof {
                lemma_strs_push(out@, row);
            }
            out.push(row);
        }
        let bottom = box_bottom_width(w);
        proof {
            lemma_strs_push(out@, bottom);
        }
        out.push(bottom);
        out
    }

    /// The completed and total bytes, in the unit of the total.
    pub fn dl_status(&self) -> (r: String)
        ensures
            r@ == transfer_text(self.completed_bytes, status_total(self.total_bytes)),
    {
        let total = if self.total_bytes >= 1 { self.total_bytes } else { 1 };
        transfer_status(self.completed_bytes, total)
    }
}

} // verus!
