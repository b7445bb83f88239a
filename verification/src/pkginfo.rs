//! The details of one package, as the info command shows them.
use vstd::prelude::*;
use crate::draw::{box_bottom_spec, box_bottom_width, box_row_spec, box_row_width, box_top_spec, box_top_width};
use crate::format::{format_size, format_size_spec};
use crate::sort::{key1, key_view, keys_view, sort_indices, sorted_indices};
use crate::style::{bold, color, colored, styled, Color};
use crate::text::{
    cat, copy_str, first_index_of, has_char, index_of_char, join, join_strings, lemma_first_index,
    lemma_strs_push, str_eq, string_of_range, strs, to_chars, trim, trim_str,
};
use crate::packages::{before_str, before_str_exec, last_index, last_index_of, lemma_last_index};

verus! {

/// How a dependency constrains the version.
#[derive(Debug, Clone, Copy)]
pub enum DepMod {
    Any,
    Eq,
    Ge,
    Le,
    Gt,
    Lt,
}

/// A dependency, conflict or provision of a package.
pub struct Dep {
    pub name: String,
    pub version: Option<String>,
    pub depmod: DepMod,
}

/// How a dependency is written: its name, then the operator and version
/// where it names a version.
pub open spec fn dep_text_spec(d: Dep) -> Seq<char> {
    match d.version {
        Some(v) => match d.depmod {
            DepMod::Eq => d.name@ + "="@ + v@,
            DepMod::Ge => d.name@ + ">="@ + v@,
            DepMod::Le => d.name@ + "<="@ + v@,
            DepMod::Gt => d.name@ + ">"@ + v@,
            DepMod::Lt => d.name@ + "<"@ + v@,
            DepMod::Any => d.name@,
        },
        None => d.name@,
    }
}

/// How a dependency is written.
pub fn dep_text(d: &Dep) -> (r: String)
    ensures
        r@ == dep_text_spec(*d),
{
    match &d.version {
        Some(v) => match d.depmod {
            DepMod::Eq => {
                let mut r = cat(d.name.as_str(), "=");
                r.append(v.as_str());
                r
            },
            DepMod::Ge => {
                let mut r = cat(d.name.as_str(), ">=");
                r.append(v.as_str());
                r
            },
            DepMod::Le => {
                let mut r = cat(d.name.as_str(), "<=");
                r.append(v.as_str());
                r
            },
            DepMod::Gt => {
                let mut r = cat(d.name.as_str(), ">");
                r.append(v.as_str());
                r
            },
            DepMod::Lt => {
                let mut r = cat(d.name.as_str(), "<");
                r.append(v.as_str());
                r
            },
            DepMod::Any => copy_str(d.name.as_str()),
        },
        None => copy_str(d.name.as_str()),
    }
}

/// The texts of a list of dependencies, sorted.
pub open spec fn deps_to_strings_spec(deps: Seq<Dep>) -> Seq<Seq<char>> {
    let texts = Seq::new(deps.len(), |i: int| dep_text_spec(deps[i]));
    let order = sorted_indices(Seq::new(deps.len(), |i: int| seq![texts[i]]), deps.len());
    Seq::new(deps.len(), |i: int| texts[order[i]])
}

/// The texts of a list of dependencies, sorted.
pub fn deps_to_strings(deps: &Vec<Dep>) -> (r: Vec<String>)
    ensures
        strs(r@) == deps_to_strings_spec(deps@),
{
    let ghost texts = Seq::new(deps@.len(), |i: int| dep_text_spec(deps@[i]));
    let mut ts: Vec<String> = Vec::new();
    let mut keys: Vec<Vec<Vec<char>>> = Vec::new();
    let mut i: usize = 0;
    while i < deps.len()
        invariant
            texts == Seq::new(deps@.len(), |i: int| dep_text_spec(deps@[i])),
            i <= deps@.len(),
            ts@.len() == i,
            keys@.len() == i,
            forall|k: int| 0 <= k < i ==> #[trigger] ts@[k]@ == texts[k],
            forall|k: int| 0 <= k < i ==> #[trigger] key_view(keys@[k]) == seq![texts[k]],
        decreases deps@.len() - i,
    {
        let t = dep_text(&deps[i]);
        keys.push(key1(t.as_str()));
        ts.push(t);
        i = i + 1;
    }
    let ghost kv = Seq::new(deps@.len(), |i: int| seq![texts[i]]);
    assert(keys_view(keys@) =~= kv);
    let order = sort_indices(&keys);
    proof {
        crate::sort::lemma_sorted_len(kv, deps@.len());
    }
    let mut r: Vec<String> = Vec::new();
    let mut j: usize = 0;
    while j < order.len()
        invariant
            texts == Seq::new(deps@.len(), |i: int| dep_text_spec(deps@[i])),
            kv == Seq::new(deps@.len(), |i: int| seq![texts[i]]),
            ts@.len() == deps@.len(),
            forall|k: int| 0 <= k < ts@.len() ==> #[trigger] ts@[k]@ == texts[k],
            order@.len() == deps@.len(),
            forall|k: int| 0 <= k < order@.len() ==> order@[k] as int == #[trigger] sorted_indices(kv, deps@.len())[k],
            forall|k: int| 0 <= k < deps@.len() ==> 0 <= #[trigger] sorted_indices(kv, deps@.len())[k] < deps@.len(),
            j <= order@.len(),
            strs(r@) == Seq::new(j as nat, |k: int| texts[sorted_indices(kv, deps@.len())[k]]),
        decreases order@.len() - j,
    {
        assert(order@[j as int] as int == sorted_indices(kv, deps@.len())[j as int]);
        let t = ts[order[j]].clone();
        proof {
            lemma_strs_push(r@, t);
        }
        r.push(t);
        assert(strs(r@) =~= Seq::new((j + 1) as nat, |k: int| texts[sorted_indices(kv, deps@.len())[k]]));
        j = j + 1;
    }
    r
}

/// How a list of dependencies is laid out: one per line where there are
/// more than four, else all on one line, separated by commas.
pub open spec fn dep_lines_spec(deps: Seq<Seq<char>>) -> Seq<Seq<char>> {
    if deps.len() == 0 {
        Seq::empty()
    } else if deps.len() > 4 {
        deps
    } else {
        seq![join(deps, ", "@)]
    }
}

/// How a list of dependencies is laid out.
pub fn dep_lines(deps: &Vec<String>) -> (r: Vec<String>)
    ensures
        strs(r@) == dep_lines_spec(strs(deps@)),
{
    let mut r: Vec<String> = Vec::new();
    if deps.len() == 0 {
        assert(strs(r@) =~= Seq::<Seq<char>>::empty());
        return r;
    }
    if deps.len() > 4 {
        let mut i: usize = 0;
        while i < deps.len()
            invariant
                i <= deps@.len(),
                strs(r@) == strs(deps@).take(i as int),
            decreases deps@.len() - i,
        {
            proof {
                lemma_strs_push(r@, deps@[i as int]);
            }
            assert(strs(deps@).take(i + 1) =~= strs(deps@).take(i as int).push(deps@[i as int]@));
            r.push(deps[i].clone());
            i = i + 1;
        }
        assert(strs(deps@).take(i as int) =~= strs(deps@));
        r
    } else {
        let j = join_strings(deps, ", ");
        r.push(j);
        assert(strs(r@) =~= seq![j@]);
        r
    }
}

/// The lines with a labelled list of dependencies added.
pub open spec fn with_deps(lines: Seq<Seq<char>>, label: Seq<char>, deps: Seq<Seq<char>>) -> Seq<Seq<char>> {
    if deps.len() == 0 {
        lines
    } else {
        let dl = dep_lines_spec(deps);
        lines.push(label + " "@ + dl[0]) + Seq::new((dl.len() - 1) as nat, |i: int| "  "@ + dl[i + 1])
    }
}

/// Adds a labelled list of dependencies to the lines of a package.
pub fn add_deps(lines: &mut Vec<String>, label: &str, deps: &Vec<String>)
    ensures
        strs(final(lines)@) == with_deps(strs(old(lines)@), label@, strs(deps@)),
{
    if deps.len() == 0 {
        return;
    }
    let dl = dep_lines(deps);
    let ghost dv = strs(dl@);
    assert(dv.len() == dl@.len());
    assert(dl@.len() > 0);
    let mut first = cat(label, " ");
    first.append(dl[0].as_str());
    proof {
        lemma_strs_push(lines@, first);
    }
    lines.push(first);
    let ghost base = strs(lines@);
    let mut i: usize = 1;
    while i < dl.len()
        invariant
            dv == strs(dl@),
            1 <= i <= dl@.len(),
            strs(lines@) == base + Seq::new((i - 1) as nat, |k: int| "  "@ + dv[k + 1]),
        decreases dl@.len() - i,
    {
        let l = cat("  ", dl[i].as_str());
        proof {
            lemma_strs_push(lines@, l);
        }
        lines.push(l);
        assert(strs(lines@) =~= base + Seq::new(i as nat, |k: int| "  "@ + dv[k + 1]));
        i = i + 1;
    }
}

/// A packager field can be shown: where it has a `<`, any `>` comes after
/// the first `<`.
pub open spec fn packager_ok(raw: Seq<char>) -> bool {
    has_char(raw, '<') ==> first_index_of(raw, '>') > first_index_of(raw, '<')
}

/// A packager as shown: the name, then the address in blue between angle
/// brackets; a packager without `<` as written.
pub open spec fn maintainer_spec(raw: Seq<char>, plain: bool) -> Seq<char> {
    if has_char(raw, '<') {
        let open = first_index_of(raw, '<');
        let close = first_index_of(raw, '>');
        trim(raw.take(open)) + " <"@ + colored(trim(raw.subrange(open + 1, close)), Color::Blue, plain)
            + ">"@
    } else {
        raw
    }
}

/// A packager as shown: the name, then the address in angle brackets and in
/// blue.  A packager whose first `>` comes before its first `<` cannot be
/// split into the two and is left out.
pub fn format_maintainer(raw: &str, plain: bool) -> (r: String)
    requires
        packager_ok(raw@),
    ensures
        r@ == maintainer_spec(raw@, plain),
{
    let v = to_chars(raw);
    let open = index_of_char(&v, '<');
    proof {
        lemma_first_index(v@, '<');
        lemma_first_index(v@, '>');
    }
    if open < v.len() {
        let close = index_of_char(&v, '>');
        assert(v@.take(open as int) =~= v@.subrange(0, open as int));
        let name_part = trim_str(string_of_range(&v, 0, open).as_str());
        let email_part = trim_str(string_of_range(&v, open + 1, close).as_str());
        let mut r = cat(name_part.as_str(), " <");
        r.append(color(email_part.as_str(), Color::Blue, plain).as_str());
        r.append(">");
        r
    } else {
        copy_str(raw)
    }
}

/// libalpm's validation bit for an unknown validation (zero).
pub const VALIDATION_UNKNOWN: u32 = 0;
/// The package was validated by an MD5 sum.
pub const VALIDATION_MD5SUM: u32 = 2;
/// The package was validated by a SHA-256 sum.
pub const VALIDATION_SHA256SUM: u32 = 4;
/// The package was validated by a signature.
pub const VALIDATION_SIGNATURE: u32 = 8;

/// How a package was validated.  The unknown flag of libalpm is zero, and
/// every set of flags contains the empty one, so this is always `Unknown`.
pub open spec fn validation_spec(v: u32) -> Seq<char> {
    "Unknown"@
}

/// How a package was validated.
pub fn validation_str(v: u32) -> (r: String)
    ensures
        r@ == validation_spec(v),
{
    if v == 0 || (v & VALIDATION_UNKNOWN) == VALIDATION_UNKNOWN {
        return copy_str("Unknown");
    }
    let mut parts: Vec<String> = Vec::new();
    if (v & VALIDATION_MD5SUM) == VALIDATION_MD5SUM {
        parts.push(copy_str("MD5"));
    }
    if (v & VALIDATION_SHA256SUM) == VALIDATION_SHA256SUM {
        parts.push(copy_str("SHA256"));
    }
    if (v & VALIDATION_SIGNATURE) == VALIDATION_SIGNATURE {
        parts.push(copy_str("Signature"));
    }
    assert((v & 0u32) == 0u32) by (bit_vector);
    if parts.len() == 0 {
        copy_str("Unknown")
    } else {
        join_strings(&parts, " ")
    }
}

/// What chrono prints for a UNIX time stamp in UTC with a strftime format,
/// or `None` for a time stamp out of its range.
pub uninterp spec fn utc_timestamp_text(ts: i64, fmt: Seq<char>) -> Option<Seq<char>>;

/// A UNIX time stamp printed in UTC (chrono's `DateTime::from_timestamp`,
/// then `format` and `to_string`).  The calendar arithmetic is chrono's; its
/// result is named.  Only the two formats that the library uses are
/// accepted: with another, an invalid format would make `to_string` panic.
#[verifier::external_body]
fn utc_text(ts: i64, fmt: &str) -> (r: Option<String>)
    requires
        fmt@ == "%a %d %b %Y %H:%M:%S UTC"@ || fmt@ == "%a %d %b %Y"@,
    ensures
        match r {
            Some(s) => utc_timestamp_text(ts, fmt@) == Some(s@),
            None => utc_timestamp_text(ts, fmt@) is None,
        },
{
    match chrono::DateTime::from_timestamp(ts, 0) {
        Some(dt) => Some(dt.format(fmt).to_string()),
        None => None,
    }
}

/// A time stamp printed, or nothing where chrono cannot place it.
pub open spec fn date_text(ts: i64, fmt: Seq<char>) -> Seq<char> {
    match utc_timestamp_text(ts, fmt) {
        Some(s) => s,
        None => Seq::empty(),
    }
}

/// The installation date of a package, with its time.
pub fn install_date_text(ts: i64) -> (r: String)
    ensures
        r@ == date_text(ts, "%a %d %b %Y %H:%M:%S UTC"@),
{
    match utc_text(ts, "%a %d %b %Y %H:%M:%S UTC") {
        Some(s) => s,
        None => String::new(),
    }
}

/// The build date of a package.
pub fn build_date_text(ts: i64) -> (r: String)
    ensures
        r@ == date_text(ts, "%a %d %b %Y"@),
{
    match utc_text(ts, "%a %d %b %Y") {
        Some(s) => s,
        None => String::new(),
    }
}

/// What the info command knows of a package.
pub struct PackageDetails {
    pub name: String,
    pub version: String,
    pub desc: Option<String>,
    pub url: Option<String>,
    pub arch: Option<String>,
    pub licenses: Vec<String>,
    pub install_date: Option<i64>,
    pub build_date: i64,
    /// The database that holds it; none for a package that is only installed.
    pub db: Option<String>,
    pub depends: Vec<Dep>,
    pub required_by: Vec<String>,
    pub optional_for: Vec<String>,
    pub conflicts: Vec<Dep>,
    pub provides: Vec<Dep>,
    pub size: i64,
    pub isize: i64,
    pub packager: Option<String>,
    pub validation: u32,
}

/// An optional string, or `dflt`.
pub open spec fn or_text(o: Option<String>, dflt: Seq<char>) -> Seq<char> {
    match o {
        Some(s) => s@,
        None => dflt,
    }
}

/// The first lines of the info box: name, version, architecture, dates,
/// URL and licences.
pub open spec fn info_head(d: PackageDetails, plain: bool) -> Seq<Seq<char>> {
    let url = or_text(d.url, Seq::empty());
    let l0 = seq![
        colored("Package:"@, Color::Green, plain) + " "@ + colored(d.name@, Color::Green, plain),
        colored("Version:"@, Color::Blue, plain) + " "@ + colored(d.version@, Color::Blue, plain),
        labelled_spec("Architecture:"@, or_text(d.arch, "unknown"@), plain),
    ];
    let l1 = match d.install_date {
        Some(ts) => l0.push(
            labelled_spec("Install Date:"@, date_text(ts, "%a %d %b %Y %H:%M:%S UTC"@), plain),
        ),
        None => l0,
    };
    let l2 = if url.len() > 0 && url != "."@ {
        l1.push(labelled_spec("URL:"@, url, plain))
    } else {
        l1
    };
    if d.licenses@.len() > 0 {
        l2.push(labelled_spec("Licenses:"@, join(strs(d.licenses@), " "@), plain))
    } else {
        l2
    }
}

/// The dependency lines of the info box, after `lines`.
pub open spec fn info_deps(d: PackageDetails, lines: Seq<Seq<char>>, plain: bool) -> Seq<Seq<char>> {
    let b = |s: Seq<char>| styled(s, "\x1b[1m"@, plain);
    let l4 = with_deps(lines, b("Depends:"@), deps_to_strings_spec(d.depends@));
    let l5 = with_deps(l4, b("Required By:"@), strs(d.required_by@));
    let l6 = with_deps(l5, b("Optional For:"@), strs(d.optional_for@));
    let l7 = with_deps(l6, b("Conflicts With:"@), deps_to_strings_spec(d.conflicts@));
    let provides = deps_to_strings_spec(d.provides@);
    if provides.len() > 0 {
        l7.push(labelled_spec("Provides:"@, join(provides, ", "@), plain))
    } else {
        l7
    }
}

/// The last lines of the info box, after `lines`: sizes, packager, build
/// date, validation and description.
pub open spec fn info_tail(d: PackageDetails, lines: Seq<Seq<char>>, plain: bool) -> Seq<Seq<char>> {
    let repo = or_text(d.db, "now"@);
    let l9 = if repo != "now"@ || d.size > 0 {
        lines.push(labelled_spec("Download Size:"@, format_size_spec(d.size), plain))
    } else {
        lines
    };
    let l10 = if d.isize > 0 {
        l9.push(labelled_spec("Installed Size:"@, format_size_spec(d.isize), plain))
    } else {
        l9
    };
    let l11 = match d.packager {
        Some(p) => l10.push(labelled_spec("Packager:"@, maintainer_spec(p@, plain), plain)),
        None => l10,
    };
    let l12 = if d.build_date > 0 {
        l11.push(labelled_spec("Build Date:"@, date_text(d.build_date, "%a %d %b %Y"@), plain))
    } else {
        l11
    };
    l12.push(labelled_spec("Validated By:"@, validation_spec(d.validation), plain)).push(
        labelled_spec("Description:"@, or_text(d.desc, "(no description)"@), plain),
    )
}

/// A bold label and its value.
pub open spec fn labelled_spec(label: Seq<char>, value: Seq<char>, plain: bool) -> Seq<char> {
    styled(label, "\x1b[1m"@, plain) + " "@ + value
}

/// The lines of the info box of a package.
pub open spec fn info_lines_spec(d: PackageDetails, plain: bool) -> Seq<Seq<char>> {
    info_tail(d, info_deps(d, info_head(d, plain), plain), plain)
}

/// The info box shows the package's sizes: where it has an installed size,
/// a line "Installed Size:" with that size; where it comes from a database
/// or has a file size, a line "Download Size:" with the size of its file.
pub proof fn lemma_info_sizes(d: PackageDetails, plain: bool)
    ensures
        d.isize > 0 ==> info_lines_spec(d, plain).contains(
            labelled_spec("Installed Size:"@, format_size_spec(d.isize), plain),
        ),
        or_text(d.db, "now"@) != "now"@ || d.size > 0 ==> info_lines_spec(d, plain).contains(
            labelled_spec("Download Size:"@, format_size_spec(d.size), plain),
        ),
{
    let lines = info_deps(d, info_head(d, plain), plain);
    let dl = labelled_spec("Download Size:"@, format_size_spec(d.size), plain);
    let inst = labelled_spec("Installed Size:"@, format_size_spec(d.isize), plain);
    let l9 = if or_text(d.db, "now"@) != "now"@ || d.size > 0 {
        lines.push(dl)
    } else {
        lines
    };
    let l10 = if d.isize > 0 {
        l9.push(inst)
    } else {
        l9
    };
    let l11 = match d.packager {
        Some(p) => l10.push(labelled_spec("Packager:"@, maintainer_spec(p@, plain), plain)),
        None => l10,
    };
    let l12 = if d.build_date > 0 {
        l11.push(labelled_spec("Build Date:"@, date_text(d.build_date, "%a %d %b %Y"@), plain))
    } else {
        l11
    };
    let all = l12.push(labelled_spec("Validated By:"@, validation_spec(d.validation), plain)).push(
        labelled_spec("Description:"@, or_text(d.desc, "(no description)"@), plain),
    );
    assert(all == info_lines_spec(d, plain));
    if d.isize > 0 {
        assert(l10[l9.len() as int] == inst);
        assert(l12[l9.len() as int] == inst);
        assert(all[l9.len() as int] == inst);
    }
    if or_text(d.db, "now"@) != "now"@ || d.size > 0 {
        assert(l9[lines.len() as int] == dl);
        assert(l12[lines.len() as int] == dl);
        assert(all[lines.len() as int] == dl);
    }
}

fn push_line(lines: &mut Vec<String>, l: String)
    ensures
        strs(final(lines)@) == strs(old(lines)@).push(l@),
{
    proof {
        lemma_strs_push(lines@, l);
    }
    lines.push(l);
}

fn labelled(label: &str, value: &str, plain: bool) -> (r: String)
    ensures
        r@ == labelled_spec(label@, value@, plain),
{
    let mut r = bold(label, plain);
    r.append(" ");
    r.append(value);
    r
}

fn head_lines(d: &PackageDetails, plain: bool) -> (r: Vec<String>)
    ensures
        strs(r@) == info_head(*d, plain),
{
    let mut lines: Vec<String> = Vec::new();
    let mut l = color("Package:", Color::Green, plain);
    l.append(" ");
    l.append(color(d.name.as_str(), Color::Green, plain).as_str());
    push_line(&mut lines, l);
    let mut l = color("Version:", Color::Blue, plain);
    l.append(" ");
    l.append(color(d.version.as_str(), Color::Blue, plain).as_str());
    push_line(&mut lines, l);
    let arch = match &d.arch {
        Some(a) => copy_str(a.as_str()),
        None => copy_str("unknown"),
    };
    push_line(&mut lines, labelled("Architecture:", arch.as_str(), plain));
    match d.install_date {
        Some(ts) => push_line(&mut lines, labelled("Install Date:", install_date_text(ts).as_str(), plain)),
        None => {},
    }
    let url = match &d.url {
        Some(u) => copy_str(u.as_str()),
        None => String::new(),
    };
    if !url.as_str().is_empty() && !str_eq(url.as_str(), ".") {
        push_line(&mut lines, labelled("URL:", url.as_str(), plain));
    }
    if d.licenses.len() > 0 {
        push_line(&mut lines, labelled("Licenses:", join_strings(&d.licenses, " ").as_str(), plain));
    }
    assert(strs(lines@) =~= info_head(*d, plain));
    lines
}

fn deps_part(d: &PackageDetails, lines: &mut Vec<String>, plain: bool)
    ensures
        strs(final(lines)@) == info_deps(*d, strs(old(lines)@), plain),
{
    add_deps(lines, bold("Depends:", plain).as_str(), &deps_to_strings(&d.depends));
    add_deps(lines, bold("Required By:", plain).as_str(), &d.required_by);
    add_deps(lines, bold("Optional For:", plain).as_str(), &d.optional_for);
    add_deps(lines, bold("Conflicts With:", plain).as_str(), &deps_to_strings(&d.conflicts));
    let provides = deps_to_strings(&d.provides);
    if provides.len() > 0 {
        push_line(lines, labelled("Provides:", join_strings(&provides, ", ").as_str(), plain));
    }
}

fn tail_part(d: &PackageDetails, lines: &mut Vec<String>, plain: bool)
    requires
        match d.packager {
            Some(p) => packager_ok(p@),
            None => true,
        },
    ensures
        strs(final(lines)@) == info_tail(*d, strs(old(lines)@), plain),
{
    let repo = match &d.db {
        Some(s) => copy_str(s.as_str()),
        None => copy_str("now"),
    };
    if !str_eq(repo.as_str(), "now") || d.size > 0 {
        push_line(lines, labelled("Download Size:", format_size(d.size).as_str(), plain));
    }
    if d.isize > 0 {
        push_line(lines, labelled("Installed Size:", format_size(d.isize).as_str(), plain));
    }
    match &d.packager {
        Some(p) => push_line(lines, labelled("Packager:", format_maintainer(p.as_str(), plain).as_str(), plain)),
        None => {},
    }
    if d.build_date > 0 {
        push_line(lines, labelled("Build Date:", build_date_text(d.build_date).as_str(), plain));
    }
    push_line(lines, labelled("Validated By:", validation_str(d.validation).as_str(), plain));
    let desc = match &d.desc {
        Some(s) => copy_str(s.as_str()),
        None => copy_str("(no description)"),
    };
    push_line(lines, labelled("Description:", desc.as_str(), plain));
}

/// The lines of the info box of a package.
pub fn info_lines(d: &PackageDetails, plain: bool) -> (r: Vec<String>)
    requires
        match d.packager {
            Some(p) => packager_ok(p@),
            None => true,
        },
    ensures
        strs(r@) == info_lines_spec(*d, plain),
{
    let mut lines = head_lines(d, plain);
    deps_part(d, &mut lines, plain);
    tail_part(d, &mut lines, plain);
    lines
}

/// The info box of a package, `w` columns wide.
pub open spec fn info_box_spec(d: PackageDetails, w: nat, plain: bool) -> Seq<Seq<char>> {
    let ls = info_lines_spec(d, plain);
    seq![box_top_spec(" "@ + d.name@ + " "@, w)] + Seq::new(ls.len(), |i: int| box_row_spec(ls[i], w))
        + seq![box_bottom_spec(w)]
}

/// The info box of a package, `w` columns wide.
pub fn info_box(d: &PackageDetails, w: usize, plain: bool) -> (r: Vec<String>)
    requires
        match d.packager {
            Some(p) => packager_ok(p@),
            None => true,
        },
    ensures
        strs(r@) == info_box_spec(*d, w as nat, plain),
{
    let ls = info_lines(d, plain);
    let ghost lv = strs(ls@);
    let mut title = cat(" ", d.name.as_str());
    title.append(" ");
    let mut r: Vec<String> = Vec::new();
    push_line(&mut r, box_top_width(title.as_str(), w));
    let mut i: usize = 0;
    while i < ls.len()
        invariant
            lv == strs(ls@),
            lv == info_lines_spec(*d, plain),
            i <= ls@.len(),
            strs(r@) == seq![box_top_spec(" "@ + d.name@ + " "@, w as nat)] + Seq::new(i as nat, |k: int| box_row_spec(lv[k], w as nat)),
        decreases ls@.len() - i,
    {
        push_line(&mut r, box_row_width(ls[i].as_str(), w));
        assert(strs(r@) =~= seq![box_top_spec(" "@ + d.name@ + " "@, w as nat)] + Seq::new((i + 1) as nat, |k: int| box_row_spec(lv[k], w as nat)));
        i = i + 1;
    }
    push_line(&mut r, box_bottom_width(w));
    r
}

/// What stands before the last dash of `s`, done `n` times while there is
/// a dash.
pub open spec fn drop_dash_fields(s: Seq<char>, n: nat) -> Seq<char>
    decreases n,
{
    if n == 0 || last_index_of(s, '-') < 0 {
        s
    } else {
        drop_dash_fields(s.take(last_index_of(s, '-')), (n - 1) as nat)
    }
}

/// The package name in the name of a package file: the part before
/// `.pkg.tar.`, less its last three dash-separated fields (version, release,
/// architecture).
pub open spec fn pkg_name_spec(fname: Seq<char>) -> Seq<char> {
    drop_dash_fields(before_str(fname, ".pkg.tar."@), 3)
}

/// The last dash of `x` + `-` + `y`, where `y` has none, is the one between.
pub proof fn lemma_last_dash_between(x: Seq<char>, y: Seq<char>)
    requires
        !crate::text::has_char(y, '-'),
    ensures
        last_index_of(x + seq!['-'] + y, '-') == x.len(),
        (x + seq!['-'] + y).take(x.len() as int) == x,
    decreases y.len(),
{
    let s = x + seq!['-'] + y;
    assert(s.take(x.len() as int) =~= x);
    if y.len() == 0 {
        assert(s.last() == '-');
    } else {
        assert(s.last() == y.last());
        assert(y.last() != '-') by {
            assert(y[y.len() - 1] == y.last());
        }
        assert(!crate::text::has_char(y.drop_last(), '-')) by {
            if crate::text::has_char(y.drop_last(), '-') {
                let i = choose|i: int| 0 <= i < y.drop_last().len() && y.drop_last()[i] == '-';
                assert(y[i] == '-');
            }
        }
        lemma_last_dash_between(x, y.drop_last());
        assert(s.drop_last() =~= x + seq!['-'] + y.drop_last());
    }
}

/// The first occurrence of `p` at or after `i` is at `k` where it occurs
/// there and nowhere between.
proof fn lemma_find_first(s: Seq<char>, p: Seq<char>, i: int, k: int)
    requires
        0 <= i <= k,
        crate::text::occurs_at(s, p, k),
        forall|j: int| i <= j < k ==> !crate::text::occurs_at(s, p, j),
    ensures
        crate::text::find_from(s, p, i) == k,
    decreases k - i,
{
    if i < k {
        lemma_find_from_step(s, p, i);
        lemma_find_first(s, p, i + 1, k);
    }
}

proof fn lemma_find_from_step(s: Seq<char>, p: Seq<char>, i: int)
    requires
        0 <= i,
        !crate::text::occurs_at(s, p, i),
    ensures
        crate::text::find_from(s, p, i) == if i + p.len() > s.len() { -1 } else { crate::text::find_from(s, p, i + 1) },
{
}

/// In `stem.pkg.tar.ext`, where the stem's last dash-separated field holds
/// no dot and the stem does not hold `.pkg.tar.`, the part before
/// `.pkg.tar.` is the stem.
pub proof fn lemma_stem_before_ext(front: Seq<char>, last: Seq<char>, ext: Seq<char>)
    requires
        !crate::text::has_char(last, '.'),
        !crate::text::contains(front + seq!['-'] + last, ".pkg.tar."@),
    ensures
        before_str(front + seq!['-'] + last + ".pkg.tar."@ + ext, ".pkg.tar."@) == front + seq!['-'] + last,
{
    reveal_strlit(".pkg.tar.");
    let pat = ".pkg.tar."@;
    let base = front + seq!['-'] + last;
    let f = base + pat + ext;
    let l = base.len() as int;
    assert(f.subrange(l, l + pat.len()) =~= pat);
    assert forall|j: int| 0 <= j < l implies !crate::text::occurs_at(f, pat, j) by {
        if crate::text::occurs_at(f, pat, j) {
            if j + pat.len() <= l {
                assert(base.subrange(j, j + pat.len()) =~= f.subrange(j, j + pat.len()));
                assert(crate::text::occurs_at(base, pat, j));
            } else {
                let d = front.len() as int;
                assert(f[d] == '-');
                assert(f[j] == '.') by {
                    assert(f.subrange(j, j + pat.len())[0] == pat[0]);
                }
                if j > d {
                    assert(last[j - d - 1] == f[j]);
                } else {
                    assert(f.subrange(j, j + pat.len())[d - j] == f[d]);
                    assert(pat[d - j] != '-');
                }
            }
        }
    }
    lemma_find_first(f, pat, 0, l);
    assert(f.take(l) =~= base);
}

/// A package file named after the usual pattern,
/// `name-version-release-arch.pkg.tar.ext`, gives back the package's name,
/// where the version, the release and the architecture hold no dash, the
/// architecture no dot, and `.pkg.tar.` occurs only where it ends the stem.
pub proof fn lemma_pkg_name_round_trip(
    name: Seq<char>,
    ver: Seq<char>,
    rel: Seq<char>,
    arch: Seq<char>,
    ext: Seq<char>,
)
    requires
        !crate::text::has_char(ver, '-'),
        !crate::text::has_char(rel, '-'),
        !crate::text::has_char(arch, '-'),
        !crate::text::has_char(arch, '.'),
        !crate::text::contains(name + seq!['-'] + ver + seq!['-'] + rel + seq!['-'] + arch, ".pkg.tar."@),
    ensures
        pkg_name_spec(name + seq!['-'] + ver + seq!['-'] + rel + seq!['-'] + arch + ".pkg.tar."@ + ext)
            == name,
{
    let a1 = name + seq!['-'] + ver;
    let a2 = a1 + seq!['-'] + rel;
    let base = a2 + seq!['-'] + arch;
    assert(base + ".pkg.tar."@ + ext =~= name + seq!['-'] + ver + seq!['-'] + rel + seq!['-'] + arch + ".pkg.tar."@ + ext);
    assert(base =~= name + seq!['-'] + ver + seq!['-'] + rel + seq!['-'] + arch);
    lemma_stem_before_ext(a2, arch, ext);
    lemma_last_dash_between(a2, arch);
    lemma_last_dash_between(a1, rel);
    lemma_last_dash_between(name, ver);
    assert(drop_dash_fields(a1, 1) == drop_dash_fields(name, 0));
    assert(drop_dash_fields(a2, 2) == drop_dash_fields(a1, 1));
    assert(drop_dash_fields(base, 3) == drop_dash_fields(a2, 2));
}

/// The package name in the name of a package file.
pub fn pkg_name_from_filename(fname: &str) -> (r: String)
    ensures
        r@ == pkg_name_spec(fname@),
{
    let base = before_str_exec(fname, ".pkg.tar.");
    let mut v = to_chars(base.as_str());
    let mut n: usize = 3;
    assert(drop_dash_fields(base@, 3) == drop_dash_fields(v@, n as nat));
    while n > 0
        invariant
            drop_dash_fields(base@, 3) == drop_dash_fields(v@, n as nat),
        decreases n,
    {
        proof {
            lemma_last_index(v@, '-');
        }
        match last_index(&v, '-') {
            Some(i) => {
                v.truncate(i);
                n = n - 1;
            },
            None => {
                n = 0;
            },
        }
    }
    crate::text::string_of(&v)
}

/// The detail that a failed preparation of a transaction reports.
pub enum PrepareDetail {
    /// Dependencies that nothing satisfies: the package, and what it needs.
    UnsatisfiedDeps(Vec<(String, String)>),
    /// Packages that conflict with each other.
    ConflictingDeps(Vec<(String, String)>),
    /// Nothing more.
    Other,
}

/// The pairs of a detail, each written with `word` between its halves.
pub open spec fn pair_texts(ps: Seq<(String, String)>, word: Seq<char>, close: Seq<char>) -> Seq<Seq<char>> {
    Seq::new(ps.len(), |i: int| ps[i].0@ + word + ps[i].1@ + close)
}

/// The text added to the error of a failed preparation, if any.
pub open spec fn prep_detail_spec(d: PrepareDetail) -> Option<Seq<char>> {
    match d {
        PrepareDetail::UnsatisfiedDeps(v) => Some(join(pair_texts(v@, " (needs "@, ")"@), ", "@)),
        PrepareDetail::ConflictingDeps(v) => Some(join(pair_texts(v@, " conflicts "@, ""@), ", "@)),
        PrepareDetail::Other => None,
    }
}

fn joined_pairs(ps: &Vec<(String, String)>, word: &str, close: &str) -> (r: String)
    ensures
        r@ == join(pair_texts(ps@, word@, close@), ", "@),
{
    let mut parts: Vec<String> = Vec::new();
    let mut i: usize = 0;
    while i < ps.len()
        invariant
            i <= ps@.len(),
            strs(parts@) == pair_texts(ps@, word@, close@).take(i as int),
        decreases ps@.len() - i,
    {
        let mut t = cat(ps[i].0.as_str(), word);
        t.append(ps[i].1.as_str());
        t.append(close);
        proof {
            lemma_strs_push(parts@, t);
        }
        parts.push(t);
        assert(strs(parts@) =~= pair_texts(ps@, word@, close@).take(i + 1));
        i = i + 1;
    }
    assert(pair_texts(ps@, word@, close@).take(i as int) =~= pair_texts(ps@, word@, close@));
    join_strings(&parts, ", ")
}

/// The text added to the error of a failed preparation, if any.
pub fn detail_from_prep_err(d: &PrepareDetail) -> (r: Option<String>)
    ensures
        match r {
            Some(s) => prep_detail_spec(*d) == Some(s@),
            None => prep_detail_spec(*d) is None,
        },
{
    match d {
        PrepareDetail::UnsatisfiedDeps(v) => Some(joined_pairs(v, " (needs ", ")")),
        PrepareDetail::ConflictingDeps(v) => Some(joined_pairs(v, " conflicts ", "")),
        PrepareDetail::Other => None,
    }
}

} // verus!
