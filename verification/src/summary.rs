//! The tables shown before a transaction is committed: what is installed,
//! upgraded or removed, and the totals.
//!
//! Totals are summed in `i64`; where a sum or a negated size does not fit,
//! there is no table (`None`).
use vstd::prelude::*;
use crate::format::{format_size, format_size_spec};
use crate::packages::{by_name, sort_by_name, Package, PackageReason};
use crate::sort::{as_ints, key1, key_view, keys_view, sort_indices, sorted_indices};
use crate::style::{bold, color, colored, styled, Color};
use crate::table::{footer_spec, separator_line, separator_spec, write_summary_footer, summary_row, summary_row_spec};
use crate::text::{cat, copy_str, dec, lemma_strs_push, str_eq, strs, u64_to_dec};

verus! {

/// One row of a summary table.
pub struct RowSpec {
    /// The package column, already styled.
    pub name: Seq<char>,
    pub old: Seq<char>,
    pub new: Seq<char>,
    /// The net change of the installed size.
    pub net: int,
    /// The download size.
    pub size: int,
}

/// `n` fits in an `i64`.
pub open spec fn fits(n: int) -> bool {
    i64::MIN <= n <= i64::MAX
}

/// The sum of `s`.
pub open spec fn sum(s: Seq<int>) -> int
    decreases s.len(),
{
    if s.len() == 0 {
        0
    } else {
        sum(s.drop_last()) + s.last()
    }
}

/// Every running sum of `s` fits in an `i64`.
pub open spec fn running_fits(s: Seq<int>) -> bool {
    forall|k: int| 0 <= k <= s.len() ==> fits(#[trigger] sum(s.take(k)))
}

/// The text of a row in a table `w` columns wide.
pub open spec fn row_text(r: RowSpec, w: nat) -> Seq<char> {
    summary_row_spec(r.name, r.old, r.new, format_size_spec(r.net as i64), format_size_spec(r.size as i64), w)
}

/// The texts of rows.
pub open spec fn rows_text(rs: Seq<RowSpec>, w: nat) -> Seq<Seq<char>> {
    Seq::new(rs.len(), |i: int| row_text(rs[i], w))
}

/// The header row.
pub open spec fn header_spec(w: nat, plain: bool) -> Seq<char> {
    let b = |s: Seq<char>| styled(s, "\x1b[1m"@, plain);
    summary_row_spec(b("Package"@), b("Old Ver"@), b("New Ver"@), b("Net Change"@), b("Size"@), w)
}

/// `word` with an `s` unless `n` is one.
pub open spec fn plural_spec(word: Seq<char>, n: nat) -> Seq<char> {
    if n == 1 {
        word
    } else {
        word + "s"@
    }
}

/// The line that counts the packages of a transaction.
pub open spec fn count_line_spec(n: nat, word: Seq<char>, deps: nat) -> Seq<char> {
    " "@ + dec(n) + " "@ + plural_spec(word, n) + " · "@ + dec(deps) + " "@ + plural_spec("package"@, deps)
        + " as dependencies"@
}

/// The number of packages among `ps` installed as dependencies.
pub open spec fn dep_count(ps: Seq<Package>) -> nat
    decreases ps.len(),
{
    if ps.len() == 0 {
        0
    } else {
        dep_count(ps.drop_last()) + if ps.last().reason == PackageReason::Depend {
            1nat
        } else {
            0nat
        }
    }
}

/// The rows of the packages that a transaction removes.
pub open spec fn removal_rows(rm: Seq<Package>, plain: bool) -> Seq<RowSpec> {
    Seq::new(
        rm.len(),
        |i: int| RowSpec { name: colored(rm[i].name@, Color::Red, plain), old: rm[i].version@, new: Seq::empty(), net: -rm[i].isize, size: 0 },
    )
}

/// The installed sizes of packages.
pub open spec fn isizes(ps: Seq<Package>) -> Seq<int> {
    Seq::new(ps.len(), |i: int| ps[i].isize as int)
}

pub proof fn lemma_running_step(s: Seq<int>, k: int)
    requires
        0 <= k < s.len(),
    ensures
        sum(s.take(k + 1)) == sum(s.take(k)) + s[k],
{
    assert(s.take(k + 1).drop_last() =~= s.take(k));
}

/// A header, a separator and one line of text, built from a width.
fn header_line(w: usize, plain: bool) -> (r: String)
    requires
        w <= 65535,
    ensures
        r@ == header_spec(w as nat, plain),
{
    summary_row(
        bold("Package", plain).as_str(),
        bold("Old Ver", plain).as_str(),
        bold("New Ver", plain).as_str(),
        bold("Net Change", plain).as_str(),
        bold("Size", plain).as_str(),
        w,
    )
}

fn count_line(n: usize, word: &str, deps: usize) -> (r: String)
    ensures
        r@ == count_line_spec(n as nat, word@, deps as nat),
{
    let mut r = cat(" ", u64_to_dec(n as u64).as_str());
    r.append(" ");
    r.append(crate::table::plural(word, n).as_str());
    r.append(" · ");
    r.append(u64_to_dec(deps as u64).as_str());
    r.append(" ");
    r.append(crate::table::plural("package", deps).as_str());
    r.append(" as dependencies");
    r
}

fn push_line(lines: &mut Vec<String>, l: String)
    ensures
        strs(final(lines)@) == strs(old(lines)@).push(l@),
{
    proof {
        lemma_strs_push(lines@, l);
    }
    lines.push(l);
}

fn append_lines(lines: &mut Vec<String>, more: Vec<String>)
    ensures
        strs(final(lines)@) == strs(old(lines)@) + strs(more@),
{
    let ghost base = strs(lines@);
    let mut i: usize = 0;
    while i < more.len()
        invariant
            i <= more@.len(),
            strs(lines@) == base + strs(more@).take(i as int),
        decreases more@.len() - i,
    {
        push_line(lines, more[i].clone());
        assert(strs(more@).take(i + 1) =~= strs(more@).take(i as int).push(more@[i as int]@));
        i = i + 1;
    }
    assert(strs(more@).take(i as int) =~= strs(more@));
}

/// A row as text.
fn row_line(name: &str, old: &str, new: &str, net: i64, size: i64, w: usize) -> (r: String)
    requires
        w <= 65535,
    ensures
        r@ == row_text(RowSpec { name: name@, old: old@, new: new@, net: net as int, size: size as int }, w as nat),
{
    summary_row(name, old, new, format_size(net).as_str(), format_size(size).as_str(), w)
}

/// The rows of removed packages, with the running total of their installed
/// sizes; `None` where a size or the total does not fit.
fn removal_lines(rm: &Vec<Package>, w: usize, plain: bool) -> (r: Option<(Vec<String>, i64)>)
    requires
        w <= 65535,
    ensures
        match r {
            Some((ls, t)) => (forall|i: int| 0 <= i < rm@.len() ==> #[trigger] rm@[i].isize != i64::MIN)
                && running_fits(isizes(rm@)) && strs(ls@) == rows_text(removal_rows(rm@, plain), w as nat)
                && t == sum(isizes(rm@)),
            None => !((forall|i: int| 0 <= i < rm@.len() ==> #[trigger] rm@[i].isize != i64::MIN)
                && running_fits(isizes(rm@))),
        },
{
    let ghost sz = isizes(rm@);
    let mut ls: Vec<String> = Vec::new();
    let mut total: i64 = 0;
    let mut i: usize = 0;
    assert(sz.take(0) =~= Seq::<int>::empty());
    while i < rm.len()
        invariant
            sz == isizes(rm@),
            w <= 65535,
            i <= rm@.len(),
            total == sum(sz.take(i as int)),
            forall|k: int| 0 <= k < i ==> #[trigger] rm@[k].isize != i64::MIN,
            forall|k: int| 0 <= k <= i ==> fits(#[trigger] sum(sz.take(k))),
            strs(ls@) == rows_text(removal_rows(rm@, plain), w as nat).take(i as int),
        decreases rm@.len() - i,
    {
        let p = &rm[i];
        proof {
            lemma_running_step(sz, i as int);
        }
        if p.isize == i64::MIN {
            return None;
        }
        let next = match total.checked_add(p.isize) {
            Some(t) => t,
            None => {
                assert(!fits(sum(sz.take(i + 1))));
                return None;
            },
        };
        let line = row_line(color(p.name.as_str(), Color::Red, plain).as_str(), p.version.as_str(), "", -p.isize, 0, w);
        proof {
            reveal_strlit("");
            assert(""@ =~= Seq::<char>::empty());
        }
        push_line(&mut ls, line);
        assert(strs(ls@) =~= rows_text(removal_rows(rm@, plain), w as nat).take(i + 1));
        total = next;
        i = i + 1;
    }
    assert(sz.take(i as int) =~= sz);
    assert(rows_text(removal_rows(rm@, plain), w as nat).take(i as int) =~= rows_text(removal_rows(rm@, plain), w as nat));
    Some((ls, total))
}

fn count_depends(ps: &Vec<Package>) -> (n: usize)
    ensures
        n == dep_count(ps@),
{
    let mut n: usize = 0;
    let mut i: usize = 0;
    assert(ps@.take(0) =~= Seq::<Package>::empty());
    while i < ps.len()
        invariant
            i <= ps@.len(),
            n == dep_count(ps@.take(i as int)),
            n <= i,
        decreases ps@.len() - i,
    {
        assert(ps@.take(i + 1).drop_last() =~= ps@.take(i as int));
        if ps[i].reason == PackageReason::Depend {
            n = n + 1;
        }
        i = i + 1;
    }
    assert(ps@.take(i as int) =~= ps@);
    n
}

/// The footer items of a removal.
pub open spec fn removal_footer(total: int) -> Seq<(Seq<char>, Seq<char>)> {
    seq![
        ("Total Download Size"@, format_size_spec(0)),
        ("Total Removed Size"@, format_size_spec(total as i64)),
        ("Net Upgrade Size"@, format_size_spec((-total) as i64)),
    ]
}

/// What the remove command shows before it asks, for the packages that the
/// transaction removes.
pub open spec fn remove_summary_spec(rm: Seq<Package>, w: nat, plain: bool) -> Option<Seq<Seq<char>>> {
    let total = sum(isizes(rm));
    if (forall|i: int| 0 <= i < rm.len() ==> #[trigger] rm[i].isize != i64::MIN) && running_fits(isizes(rm))
        && total != i64::MIN {
        Some(
            seq![Seq::empty(), header_spec(w, plain), separator_spec(w)] + rows_text(removal_rows(rm, plain), w)
                + seq![separator_spec(w), count_line_spec(rm.len(), "package"@, dep_count(rm)), Seq::empty()]
                + footer_spec(removal_footer(total), plain),
        )
    } else {
        None
    }
}

/// In the removal summary each removed package has its row, in order, right
/// below the header: its version as the old one, minus its installed size as
/// the net change, and nothing to download; Total Removed Size sums the
/// installed sizes, and Net Upgrade Size is that sum negated.
pub proof fn lemma_remove_sizes(rm: Seq<Package>, w: nat, plain: bool, ls: Seq<Seq<char>>)
    requires
        remove_summary_spec(rm, w, plain) == Some(ls),
    ensures
        forall|i: int|
            #![trigger rm[i]]
            0 <= i < rm.len() ==> ls[3 + i] == summary_row_spec(
                colored(rm[i].name@, Color::Red, plain),
                rm[i].version@,
                Seq::empty(),
                format_size_spec((-rm[i].isize) as i64),
                format_size_spec(0),
                w,
            ),
        ({
            let total = sum(Seq::new(rm.len(), |i: int| rm[i].isize as int));
            ls.skip(6 + rm.len() as int) == footer_spec(
                seq![
                    ("Total Download Size"@, format_size_spec(0)),
                    ("Total Removed Size"@, format_size_spec(total as i64)),
                    ("Net Upgrade Size"@, format_size_spec((-total) as i64)),
                ],
                plain,
            )
        }),
{
    assert(isizes(rm) =~= Seq::new(rm.len(), |i: int| rm[i].isize as int));
    let total = sum(isizes(rm));
    let pre = seq![Seq::<char>::empty(), header_spec(w, plain), separator_spec(w)];
    let rows = rows_text(removal_rows(rm, plain), w);
    let mid = seq![separator_spec(w), count_line_spec(rm.len(), "package"@, dep_count(rm)), Seq::<char>::empty()];
    let foot = footer_spec(removal_footer(total), plain);
    assert(ls == pre + rows + mid + foot);
    assert forall|i: int| #![trigger rm[i]] 0 <= i < rm.len() implies ls[3 + i] == rows[i] by {
        assert((pre + rows)[3 + i] == rows[i]);
        assert((pre + rows + mid)[3 + i] == rows[i]);
    }
    assert(ls.skip(6 + rm.len() as int) =~= foot);
}

fn footer_items(items: Vec<(String, String)>, plain: bool) -> (r: Vec<String>)
    ensures
        strs(r@) == footer_spec(items@.map_values(|p: (String, String)| (p.0@, p.1@)), plain),
{
    let r = write_summary_footer(&items, plain);
    assert(strs(r@) =~= footer_spec(items@.map_values(|p: (String, String)| (p.0@, p.1@)), plain));
    r
}

/// What the remove command shows before it asks.
pub fn remove_summary(rm: &Vec<Package>, w: usize, plain: bool) -> (r: Option<Vec<String>>)
    requires
        w <= 65535,
    ensures
        match r {
            Some(ls) => remove_summary_spec(rm@, w as nat, plain) == Some(strs(ls@)),
            None => remove_summary_spec(rm@, w as nat, plain) is None,
        },
{
    let (rows, total) = match removal_lines(rm, w, plain) {
        Some(x) => x,
        None => {
            return None;
        },
    };
    if total == i64::MIN {
        return None;
    }
    let mut ls: Vec<String> = Vec::new();
    push_line(&mut ls, String::new());
    push_line(&mut ls, header_line(w, plain));
    push_line(&mut ls, separator_line(w));
    append_lines(&mut ls, rows);
    push_line(&mut ls, separator_line(w));
    push_line(&mut ls, count_line(rm.len(), "package", count_depends(rm)));
    push_line(&mut ls, String::new());
    let mut items: Vec<(String, String)> = Vec::new();
    items.push((copy_str("Total Download Size"), format_size(0)));
    items.push((copy_str("Total Removed Size"), format_size(total)));
    items.push((copy_str("Net Upgrade Size"), format_size(-total)));
    assert(items@.map_values(|p: (String, String)| (p.0@, p.1@)) =~= removal_footer(total as int));
    append_lines(&mut ls, footer_items(items, plain));
    let ghost expect = seq![Seq::<char>::empty(), header_spec(w as nat, plain), separator_spec(w as nat)]
        + rows_text(removal_rows(rm@, plain), w as nat) + seq![
        separator_spec(w as nat),
        count_line_spec(rm@.len(), "package"@, dep_count(rm@)),
        Seq::<char>::empty(),
    ] + footer_spec(removal_footer(total as int), plain);
    assert(strs(ls@) =~= expect);
    Some(ls)
}

/// The installed version and size of each package that an upgrade brings
/// in, where it is installed.
pub open spec fn old_view(old: Seq<Option<(String, i64)>>) -> Seq<Option<(Seq<char>, int)>> {
    old.map_values(|o: Option<(String, i64)>| match o { Some(p) => Some((p.0@, p.1 as int)), None => None })
}

/// The net change of the installed size for an upgraded package.
pub open spec fn upgrade_net(p: Package, old: Option<(Seq<char>, int)>) -> int {
    p.isize - match old { Some(o) => o.1, None => 0 }
}

/// The rows of the packages that an upgrade installs.
pub open spec fn upgrade_rows(add: Seq<Package>, old: Seq<Option<(Seq<char>, int)>>, plain: bool) -> Seq<RowSpec> {
    Seq::new(
        add.len(),
        |i: int| RowSpec {
            name: colored(add[i].name@, Color::Green, plain),
            old: match old[i] { Some(o) => o.0, None => Seq::empty() },
            new: add[i].version@,
            net: upgrade_net(add[i], old[i]),
            size: add[i].download_size as int,
        },
    )
}

/// The download sizes of packages.
pub open spec fn dl_sizes(ps: Seq<Package>) -> Seq<int> {
    Seq::new(ps.len(), |i: int| ps[i].download_size as int)
}

/// The terms of the net upgrade size: the net change of each upgraded
/// package, then minus the installed size of each removed one.
pub open spec fn net_terms(add: Seq<Package>, old: Seq<Option<(Seq<char>, int)>>, rm: Seq<Package>) -> Seq<int> {
    Seq::new(add.len(), |i: int| upgrade_net(add[i], old[i])) + Seq::new(rm.len(), |i: int| -rm[i].isize)
}

/// The sums of an upgrade fit: every net change, every running total, and
/// every negated size of a removed package.
pub open spec fn upgrade_fits(add: Seq<Package>, old: Seq<Option<(Seq<char>, int)>>, rm: Seq<Package>) -> bool {
    &&& forall|i: int| 0 <= i < add.len() ==> fits(#[trigger] upgrade_net(add[i], old[i]))
    &&& forall|i: int| 0 <= i < rm.len() ==> #[trigger] rm[i].isize != i64::MIN
    &&& running_fits(dl_sizes(add))
    &&& running_fits(isizes(add))
    &&& running_fits(net_terms(add, old, rm))
}

/// What the upgrade command shows before it asks.
pub open spec fn upgrade_summary_spec(
    add: Seq<Package>,
    old: Seq<Option<(Seq<char>, int)>>,
    rm: Seq<Package>,
    w: nat,
    plain: bool,
) -> Option<Seq<Seq<char>>> {
    if upgrade_fits(add, old, rm) {
        Some(
            seq![Seq::empty(), header_spec(w, plain), separator_spec(w)] + rows_text(upgrade_rows(add, old, plain), w)
                + rows_text(removal_rows(rm, plain), w) + seq![
                separator_spec(w),
                count_line_spec(add.len(), "upgrade"@, dep_count(add)),
                Seq::empty(),
            ] + footer_spec(
                seq![
                    ("Total Download Size"@, format_size_spec(sum(dl_sizes(add)) as i64)),
                    ("Total Installed Size"@, format_size_spec(sum(isizes(add)) as i64)),
                    ("Net Upgrade Size"@, format_size_spec(sum(net_terms(add, old, rm)) as i64)),
                ],
                plain,
            ),
        )
    } else {
        None
    }
}

/// In the upgrade summary each upgraded package has its row, in order, right
/// below the header; its Size column is what is left to download of it
/// (nothing where it is already in the cache), not the size of its file.
/// The totals close the table: Total Download Size sums those download
/// sizes, Total Installed Size the installed sizes.
pub proof fn lemma_upgrade_sizes(
    add: Seq<Package>,
    old: Seq<Option<(Seq<char>, int)>>,
    rm: Seq<Package>,
    w: nat,
    plain: bool,
    ls: Seq<Seq<char>>,
)
    requires
        upgrade_summary_spec(add, old, rm, w, plain) == Some(ls),
    ensures
        forall|i: int|
            #![trigger add[i]]
            0 <= i < add.len() ==> ls[3 + i] == summary_row_spec(
                colored(add[i].name@, Color::Green, plain),
                match old[i] {
                    Some(o) => o.0,
                    None => Seq::empty(),
                },
                add[i].version@,
                format_size_spec(upgrade_net(add[i], old[i]) as i64),
                format_size_spec(add[i].download_size),
                w,
            ),
        ls.skip(6 + add.len() + rm.len() as int) == footer_spec(
            seq![
                (
                    "Total Download Size"@,
                    format_size_spec(sum(Seq::new(add.len(), |i: int| add[i].download_size as int)) as i64),
                ),
                ("Total Installed Size"@, format_size_spec(sum(Seq::new(add.len(), |i: int| add[i].isize as int)) as i64)),
                ("Net Upgrade Size"@, format_size_spec(sum(net_terms(add, old, rm)) as i64)),
            ],
            plain,
        ),
{
    let pre = seq![Seq::<char>::empty(), header_spec(w, plain), separator_spec(w)];
    let rows = rows_text(upgrade_rows(add, old, plain), w);
    let rrows = rows_text(removal_rows(rm, plain), w);
    let mid = seq![separator_spec(w), count_line_spec(add.len(), "upgrade"@, dep_count(add)), Seq::<char>::empty()];
    assert(dl_sizes(add) =~= Seq::new(add.len(), |i: int| add[i].download_size as int));
    assert(isizes(add) =~= Seq::new(add.len(), |i: int| add[i].isize as int));
    let foot = footer_spec(
        seq![
            ("Total Download Size"@, format_size_spec(sum(dl_sizes(add)) as i64)),
            ("Total Installed Size"@, format_size_spec(sum(isizes(add)) as i64)),
            ("Net Upgrade Size"@, format_size_spec(sum(net_terms(add, old, rm)) as i64)),
        ],
        plain,
    );
    assert(ls == pre + rows + rrows + mid + foot);
    assert forall|i: int| #![trigger add[i]] 0 <= i < add.len() implies ls[3 + i] == rows[i] by {
        assert((pre + rows)[3 + i] == rows[i]);
        assert((pre + rows + rrows)[3 + i] == rows[i]);
        assert((pre + rows + rrows + mid)[3 + i] == rows[i]);
    }
    assert(ls.skip(6 + add.len() + rm.len() as int) =~= foot);
}

/// The rows of removed packages; `None` where a size cannot be negated.
fn removal_row_lines(rm: &Vec<Package>, w: usize, plain: bool) -> (r: Option<Vec<String>>)
    requires
        w <= 65535,
    ensures
        match r {
            Some(ls) => (forall|i: int| 0 <= i < rm@.len() ==> #[trigger] rm@[i].isize != i64::MIN)
                && strs(ls@) == rows_text(removal_rows(rm@, plain), w as nat),
            None => !(forall|i: int| 0 <= i < rm@.len() ==> #[trigger] rm@[i].isize != i64::MIN),
        },
{
    let mut ls: Vec<String> = Vec::new();
    let mut i: usize = 0;
    while i < rm.len()
        invariant
            w <= 65535,
            i <= rm@.len(),
            forall|k: int| 0 <= k < i ==> #[trigger] rm@[k].isize != i64::MIN,
            strs(ls@) == rows_text(removal_rows(rm@, plain), w as nat).take(i as int),
        decreases rm@.len() - i,
    {
        let p = &rm[i];
        if p.isize == i64::MIN {
            return None;
        }
        let line = row_line(color(p.name.as_str(), Color::Red, plain).as_str(), p.version.as_str(), "", -p.isize, 0, w);
        proof {
            reveal_strlit("");
            assert(""@ =~= Seq::<char>::empty());
        }
        push_line(&mut ls, line);
        assert(strs(ls@) =~= rows_text(removal_rows(rm@, plain), w as nat).take(i + 1));
        i = i + 1;
    }
    assert(rows_text(removal_rows(rm@, plain), w as nat).take(i as int) =~= rows_text(removal_rows(rm@, plain), w as nat));
    Some(ls)
}

/// The rows of upgraded packages and the sums over them.
fn upgrade_part(add: &Vec<Package>, old: &Vec<Option<(String, i64)>>, rm: Ghost<Seq<Package>>, w: usize, plain: bool)
    -> (r: Option<(Vec<String>, i64, i64, i64)>)
    requires
        w <= 65535,
        old@.len() == add@.len(),
    ensures
        match r {
            Some((rows, d, s, n)) => {
                &&& forall|i: int| 0 <= i < add@.len() ==> fits(#[trigger] upgrade_net(add@[i], old_view(old@)[i]))
                &&& running_fits(dl_sizes(add@))
                &&& running_fits(isizes(add@))
                &&& forall|k: int| 0 <= k <= add@.len() ==> fits(#[trigger] sum(net_terms(add@, old_view(old@), rm@).take(k)))
                &&& strs(rows@) == rows_text(upgrade_rows(add@, old_view(old@), plain), w as nat)
                &&& d == sum(dl_sizes(add@))
                &&& s == sum(isizes(add@))
                &&& n == sum(net_terms(add@, old_view(old@), rm@).take(add@.len() as int))
            },
            None => !upgrade_fits(add@, old_view(old@), rm@),
        },
{
    let ghost ov = old_view(old@);
    let ghost nt = net_terms(add@, ov, rm@);
    let ghost dl = dl_sizes(add@);
    let ghost is = isizes(add@);
    let ghost rows_spec = rows_text(upgrade_rows(add@, ov, plain), w as nat);
    let mut rows: Vec<String> = Vec::new();
    let mut total_dl: i64 = 0;
    let mut total_isize: i64 = 0;
    let mut net: i64 = 0;
    let mut i: usize = 0;
    assert(dl.take(0) =~= Seq::<int>::empty());
    assert(is.take(0) =~= Seq::<int>::empty());
    assert(nt.take(0) =~= Seq::<int>::empty());
    while i < add.len()
        invariant
            ov == old_view(old@),
            nt == net_terms(add@, ov, rm@),
            dl == dl_sizes(add@),
            is == isizes(add@),
            rows_spec == rows_text(upgrade_rows(add@, ov, plain), w as nat),
            old@.len() == add@.len(),
            w <= 65535,
            i <= add@.len(),
            total_dl == sum(dl.take(i as int)),
            total_isize == sum(is.take(i as int)),
            net == sum(nt.take(i as int)),
            forall|k: int| 0 <= k < i ==> fits(#[trigger] upgrade_net(add@[k], ov[k])),
            forall|k: int| 0 <= k <= i ==> fits(#[trigger] sum(dl.take(k))),
            forall|k: int| 0 <= k <= i ==> fits(#[trigger] sum(is.take(k))),
            forall|k: int| 0 <= k <= i ==> fits(#[trigger] sum(nt.take(k))),
            strs(rows@) == rows_spec.take(i as int),
        decreases add@.len() - i,
    {
        let p = &add[i];
        proof {
            lemma_running_step(dl, i as int);
            lemma_running_step(is, i as int);
            lemma_running_step(nt, i as int);
        }
        let (old_ver, old_size) = match &old[i] {
            Some(o) => (o.0.clone(), o.1),
            None => (String::new(), 0i64),
        };
        assert(ov[i as int] == match old@[i as int] { Some(p) => Some((p.0@, p.1 as int)), None => None::<(Seq<char>, int)> });
        let change = match p.isize.checked_sub(old_size) {
            Some(c) => c,
            None => {
                assert(!fits(upgrade_net(add@[i as int], ov[i as int])));
                return None;
            },
        };
        assert(nt[i as int] == change as int);
        let nd = match total_dl.checked_add(p.download_size) {
            Some(t) => t,
            None => {
                assert(!fits(sum(dl.take(i + 1))));
                return None;
            },
        };
        let ni = match total_isize.checked_add(p.isize) {
            Some(t) => t,
            None => {
                assert(!fits(sum(is.take(i + 1))));
                return None;
            },
        };
        let nn = match net.checked_add(change) {
            Some(t) => t,
            None => {
                assert(!fits(sum(nt.take(i + 1))));
                return None;
            },
        };
        let line = row_line(
            color(p.name.as_str(), Color::Green, plain).as_str(),
            old_ver.as_str(),
            p.version.as_str(),
            change,
            p.download_size,
            w,
        );
        proof {
            reveal_strlit("");
            assert(""@ =~= Seq::<char>::empty());
        }
        push_line(&mut rows, line);
        assert(strs(rows@) =~= rows_spec.take(i + 1));
        total_dl = nd;
        total_isize = ni;
        net = nn;
        i = i + 1;
    }
    assert(dl.take(i as int) =~= dl);
    assert(is.take(i as int) =~= is);
    assert(rows_spec.take(i as int) =~= rows_spec);
    Some((rows, total_dl, total_isize, net))
}

/// The net upgrade size: `net`, the sum of the first terms, less the
/// installed size of each removed package.
fn net_with_removals(net: i64, add: Ghost<Seq<Package>>, old: Ghost<Seq<Option<(Seq<char>, int)>>>, rm: &Vec<Package>) -> (r: Option<i64>)
    requires
        forall|k: int| 0 <= k <= add@.len() ==> fits(#[trigger] sum(net_terms(add@, old@, rm@).take(k))),
        net == sum(net_terms(add@, old@, rm@).take(add@.len() as int)),
        forall|i: int| 0 <= i < rm@.len() ==> #[trigger] rm@[i].isize != i64::MIN,
    ensures
        match r {
            Some(n) => running_fits(net_terms(add@, old@, rm@)) && n == sum(net_terms(add@, old@, rm@)),
            None => !running_fits(net_terms(add@, old@, rm@)),
        },
{
    let ghost nt = net_terms(add@, old@, rm@);
    let ghost i = add@.len() as int;
    let mut net = net;
    let mut j: usize = 0;
    while j < rm.len()
        invariant
            nt == net_terms(add@, old@, rm@),
            nt.len() == i + rm@.len(),
            i == add@.len(),
            j <= rm@.len(),
            forall|k: int| 0 <= k < rm@.len() ==> #[trigger] rm@[k].isize != i64::MIN,
            net == sum(nt.take(i + j)),
            forall|k: int| 0 <= k <= i + j ==> fits(#[trigger] sum(nt.take(k))),
        decreases rm@.len() - j,
    {
        proof {
            lemma_running_step(nt, i + j);
        }
        assert(nt[i + j] == -rm@[j as int].isize);
        let nn = match net.checked_add(-rm[j].isize) {
            Some(t) => t,
            None => {
                assert(!fits(sum(nt.take(i + j + 1))));
                return None;
            },
        };
        net = nn;
        j = j + 1;
    }
    assert(nt.take(i + j) =~= nt);
    Some(net)
}

/// What the upgrade command shows before it asks: `add` are the packages
/// that the transaction installs, `old[i]` the installed version and size of
/// `add[i]` where there is one, `rm` the packages that it removes.
pub fn upgrade_summary(
    add: &Vec<Package>,
    old: &Vec<Option<(String, i64)>>,
    rm: &Vec<Package>,
    w: usize,
    plain: bool,
) -> (r: Option<Vec<String>>)
    requires
        w <= 65535,
        old@.len() == add@.len(),
    ensures
        match r {
            Some(ls) => upgrade_summary_spec(add@, old_view(old@), rm@, w as nat, plain) == Some(strs(ls@)),
            None => upgrade_summary_spec(add@, old_view(old@), rm@, w as nat, plain) is None,
        },
{
    let ghost ov = old_view(old@);
    let (rows, total_dl, total_isize, net) = match upgrade_part(add, old, Ghost(rm@), w, plain) {
        Some(x) => x,
        None => {
            return None;
        },
    };
    let rm_rows = match removal_row_lines(rm, w, plain) {
        Some(x) => x,
        None => {
            return None;
        },
    };
    let net = match net_with_removals(net, Ghost(add@), Ghost(ov), rm) {
        Some(n) => n,
        None => {
            return None;
        },
    };
    let mut ls: Vec<String> = Vec::new();
    push_line(&mut ls, String::new());
    push_line(&mut ls, header_line(w, plain));
    push_line(&mut ls, separator_line(w));
    append_lines(&mut ls, rows);
    append_lines(&mut ls, rm_rows);
    push_line(&mut ls, separator_line(w));
    push_line(&mut ls, count_line(add.len(), "upgrade", count_depends(add)));
    push_line(&mut ls, String::new());
    let mut items: Vec<(String, String)> = Vec::new();
    items.push((copy_str("Total Download Size"), format_size(total_dl)));
    items.push((copy_str("Total Installed Size"), format_size(total_isize)));
    items.push((copy_str("Net Upgrade Size"), format_size(net)));
    let ghost fitems = seq![
        ("Total Download Size"@, format_size_spec(sum(dl_sizes(add@)) as i64)),
        ("Total Installed Size"@, format_size_spec(sum(isizes(add@)) as i64)),
        ("Net Upgrade Size"@, format_size_spec(sum(net_terms(add@, ov, rm@)) as i64)),
    ];
    assert(items@.map_values(|p: (String, String)| (p.0@, p.1@)) =~= fitems);
    append_lines(&mut ls, footer_items(items, plain));
    let ghost expect = seq![Seq::<char>::empty(), header_spec(w as nat, plain), separator_spec(w as nat)]
        + rows_text(upgrade_rows(add@, ov, plain), w as nat) + rows_text(removal_rows(rm@, plain), w as nat) + seq![
        separator_spec(w as nat),
        count_line_spec(add@.len(), "upgrade"@, dep_count(add@)),
        Seq::<char>::empty(),
    ] + footer_spec(fitems, plain);
    assert(strs(ls@) =~= expect);
    Some(ls)
}

/// A row of a summary table.
pub struct Row {
    pub name: String,
    pub old: String,
    pub new: String,
    pub net: i64,
    pub size: i64,
}

impl View for Row {
    type V = RowSpec;

    open spec fn view(&self) -> RowSpec {
        RowSpec { name: self.name@, old: self.old@, new: self.new@, net: self.net as int, size: self.size as int }
    }
}

/// The views of rows.
pub open spec fn rows_view(rs: Seq<Row>) -> Seq<RowSpec> {
    rs.map_values(|r: Row| r@)
}

/// The names of packages.
pub open spec fn names_of(ps: Seq<Package>) -> Seq<Seq<char>> {
    ps.map_values(|p: Package| p.name@)
}

/// The first index of a package named `n`, or -1.
pub open spec fn first_named(ps: Seq<Package>, n: Seq<char>) -> int
    decreases ps.len(),
{
    if ps.len() == 0 {
        -1
    } else if ps[0].name@ == n {
        0
    } else {
        let r = first_named(ps.drop_first(), n);
        if r < 0 {
            -1
        } else {
            r + 1
        }
    }
}

/// The indices below `n` of the packages of `add` that were asked for.
pub open spec fn explicit_indices(add: Seq<Package>, explicit: Seq<Seq<char>>, n: nat) -> Seq<int>
    decreases n,
{
    if n == 0 {
        Seq::empty()
    } else if n <= add.len() && explicit.contains(add[n - 1].name@) {
        explicit_indices(add, explicit, (n - 1) as nat).push(n - 1)
    } else {
        explicit_indices(add, explicit, (n - 1) as nat)
    }
}

/// The dependencies of a package that the summary lists under it: those
/// that the transaction installs, that were not asked for, and that no
/// earlier package claimed, each once.
pub open spec fn new_deps(deps: Seq<Seq<char>>, assigned: Seq<Seq<char>>, add: Seq<Package>, explicit: Seq<Seq<char>>) -> Seq<Seq<char>>
    decreases deps.len(),
{
    if deps.len() == 0 {
        Seq::empty()
    } else {
        let dn = deps[0];
        if assigned.contains(dn) {
            new_deps(deps.drop_first(), assigned, add, explicit)
        } else if names_of(add).contains(dn) && !explicit.contains(dn) {
            seq![dn] + new_deps(deps.drop_first(), assigned.push(dn), add, explicit)
        } else {
            new_deps(deps.drop_first(), assigned, add, explicit)
        }
    }
}

/// Names in order.
pub open spec fn sort_names(s: Seq<Seq<char>>) -> Seq<Seq<char>> {
    let order = sorted_indices(Seq::new(s.len(), |i: int| seq![s[i]]), s.len());
    Seq::new(s.len(), |i: int| s[order[i]])
}

/// The row of a dependency, indented.
pub open spec fn dep_row(add: Seq<Package>, dn: Seq<char>, plain: bool) -> RowSpec {
    let dp = add[first_named(add, dn)];
    RowSpec {
        name: " "@ + colored(dn, Color::Green, plain),
        old: Seq::empty(),
        new: dp.version@,
        net: dp.isize as int,
        size: dp.download_size as int,
    }
}

/// The row of a package that was asked for.
pub open spec fn explicit_row(p: Package, plain: bool) -> RowSpec {
    RowSpec {
        name: colored(p.name@, Color::Green, plain),
        old: Seq::empty(),
        new: p.version@,
        net: p.isize as int,
        size: p.download_size as int,
    }
}

/// The rows of an installation: each package asked for (in `ex`), then its
/// new dependencies in order of name.
pub open spec fn install_rows(ex: Seq<int>, add: Seq<Package>, explicit: Seq<Seq<char>>, assigned: Seq<Seq<char>>, plain: bool) -> Seq<RowSpec>
    decreases ex.len(),
{
    if ex.len() == 0 {
        Seq::empty()
    } else {
        let p = add[ex[0]];
        let nd = new_deps(strs(p.depends@), assigned, add, explicit);
        let sd = sort_names(nd);
        seq![explicit_row(p, plain)] + Seq::new(sd.len(), |i: int| dep_row(add, sd[i], plain))
            + install_rows(ex.drop_first(), add, explicit, assigned + nd, plain)
    }
}

/// The number of dependencies that the rows of an installation list.
pub open spec fn install_dep_count(ex: Seq<int>, add: Seq<Package>, explicit: Seq<Seq<char>>, assigned: Seq<Seq<char>>) -> nat
    decreases ex.len(),
{
    if ex.len() == 0 {
        0
    } else {
        let nd = new_deps(strs(add[ex[0]].depends@), assigned, add, explicit);
        nd.len() + install_dep_count(ex.drop_first(), add, explicit, assigned + nd)
    }
}

/// The packages asked for, in order of name.
pub open spec fn explicit_order(add: Seq<Package>, explicit: Seq<Seq<char>>) -> Seq<int> {
    by_name(add, explicit_indices(add, explicit, add.len()))
}

/// The download sizes of rows.
pub open spec fn row_sizes(rs: Seq<RowSpec>) -> Seq<int> {
    Seq::new(rs.len(), |i: int| rs[i].size)
}

/// The installed sizes of rows.
pub open spec fn row_nets(rs: Seq<RowSpec>) -> Seq<int> {
    Seq::new(rs.len(), |i: int| rs[i].net)
}

/// What the install command shows before it asks: `add` are the packages
/// that the transaction installs, `explicit` the names asked for, `rm` the
/// packages that it removes.
pub open spec fn install_summary_spec(
    add: Seq<Package>,
    explicit: Seq<Seq<char>>,
    rm: Seq<Package>,
    w: nat,
    plain: bool,
) -> Option<Seq<Seq<char>>> {
    let ex = explicit_order(add, explicit);
    let rows = install_rows(ex, add, explicit, Seq::empty(), plain);
    let freed = sum(isizes(rm));
    let net = sum(row_nets(rows)) - freed;
    if running_fits(row_sizes(rows)) && running_fits(row_nets(rows)) && (forall|i: int|
        0 <= i < rm.len() ==> #[trigger] rm[i].isize != i64::MIN) && running_fits(isizes(rm)) && fits(net) {
        Some(
            seq![Seq::empty(), header_spec(w, plain), separator_spec(w)] + rows_text(rows, w) + (if rm.len() > 0 {
                seq![Seq::empty(), header_spec(w, plain), separator_spec(w)] + rows_text(removal_rows(rm, plain), w)
                    + seq![separator_spec(w)]
            } else {
                seq![separator_spec(w)]
            }) + seq![
                count_line_spec(add.len(), "package"@, install_dep_count(ex, add, explicit, Seq::empty())),
                Seq::empty(),
            ] + footer_spec(
                seq![
                    ("Total Download Size"@, format_size_spec(sum(row_sizes(rows)) as i64)),
                    ("Total Installed Size"@, format_size_spec(sum(row_nets(rows)) as i64)),
                    ("Net Upgrade Size"@, format_size_spec(net as i64)),
                ],
                plain,
            ),
        )
    } else {
        None
    }
}

/// Whether `s` is among the strings of `v`.
pub fn contains_string(v: &Vec<String>, s: &str) -> (r: bool)
    ensures
        r == strs(v@).contains(s@),
{
    let mut i: usize = 0;
    while i < v.len()
        invariant
            i <= v@.len(),
            forall|k: int| 0 <= k < i ==> strs(v@)[k] != s@,
        decreases v@.len() - i,
    {
        if str_eq(v[i].as_str(), s) {
            assert(strs(v@)[i as int] == s@);
            return true;
        }
        i = i + 1;
    }
    false
}

/// The index of the first package named `n`.
pub fn position_of_name(ps: &Vec<Package>, n: &str) -> (r: Option<usize>)
    ensures
        match r {
            Some(i) => first_named(ps@, n@) == i as int && i < ps@.len(),
            None => first_named(ps@, n@) == -1,
        },
        (r is Some) == names_of(ps@).contains(n@),
{
    let mut i: usize = 0;
    assert(ps@.skip(0) =~= ps@);
    while i < ps.len()
        invariant
            i <= ps@.len(),
            forall|k: int| 0 <= k < i ==> ps@[k].name@ != n@,
            first_named(ps@, n@) == (if first_named(ps@.skip(i as int), n@) < 0 { -1 } else { first_named(ps@.skip(i as int), n@) + i }),
        decreases ps@.len() - i,
    {
        assert(ps@.skip(i as int).drop_first() =~= ps@.skip(i + 1));
        if str_eq(ps[i].name.as_str(), n) {
            assert(names_of(ps@)[i as int] == n@);
            return Some(i);
        }
        i = i + 1;
    }
    proof {
        if names_of(ps@).contains(n@) {
            let k = choose|k: int| 0 <= k < names_of(ps@).len() && names_of(ps@)[k] == n@;
            assert(ps@[k].name@ == n@);
        }
    }
    None
}

/// The new dependencies of one package, added to `assigned` as they are
/// claimed.
fn claim_deps(deps: &Vec<String>, assigned: &mut Vec<String>, add: &Vec<Package>, explicit: &Vec<String>) -> (nd: Vec<String>)
    ensures
        strs(nd@) == new_deps(strs(deps@), strs(old(assigned)@), add@, strs(explicit@)),
        strs(final(assigned)@) == strs(old(assigned)@) + strs(nd@),
{
    let ghost dv = strs(deps@);
    let ghost a0 = strs(assigned@);
    let mut nd: Vec<String> = Vec::new();
    let mut j: usize = 0;
    assert(dv.skip(0) =~= dv);
    assert(a0 + strs(nd@) =~= a0);
    assert(strs(nd@) + new_deps(dv, a0, add@, strs(explicit@)) =~= new_deps(dv, a0, add@, strs(explicit@)));
    while j < deps.len()
        invariant
            dv == strs(deps@),
            j <= deps@.len(),
            strs(assigned@) == a0 + strs(nd@),
            strs(nd@) + new_deps(dv.skip(j as int), strs(assigned@), add@, strs(explicit@)) == new_deps(dv, a0, add@, strs(explicit@)),
        decreases deps@.len() - j,
    {
        let dn = deps[j].as_str();
        let ghost rest = dv.skip(j as int);
        assert(rest[0] == dn@);
        assert(rest.drop_first() =~= dv.skip(j + 1));
        if contains_string(assigned, dn) {
        } else if position_of_name(add, dn).is_some() && !contains_string(explicit, dn) {
            let c1 = deps[j].clone();
            let c2 = deps[j].clone();
            proof {
                lemma_strs_push(nd@, c1);
                lemma_strs_push(assigned@, c2);
            }
            let ghost nd_old = strs(nd@);
            nd.push(c1);
            assigned.push(c2);
            assert(strs(nd@) + new_deps(dv.skip(j + 1), strs(assigned@), add@, strs(explicit@)) =~= nd_old + (seq![dn@] + new_deps(rest.drop_first(), strs(assigned@), add@, strs(explicit@))));
            assert(strs(assigned@) =~= a0 + strs(nd@));
        }
        j = j + 1;
    }
    assert(dv.skip(j as int) =~= Seq::<Seq<char>>::empty());
    assert(strs(nd@) + Seq::<Seq<char>>::empty() =~= strs(nd@));
    nd
}

/// Names sorted.
fn sorted_names(v: &Vec<String>) -> (r: Vec<String>)
    ensures
        strs(r@) == sort_names(strs(v@)),
{
    let ghost sv = strs(v@);
    let mut keys: Vec<Vec<Vec<char>>> = Vec::new();
    let mut i: usize = 0;
    while i < v.len()
        invariant
            sv == strs(v@),
            i <= v@.len(),
            keys@.len() == i,
            forall|k: int| 0 <= k < i ==> #[trigger] key_view(keys@[k]) == seq![sv[k]],
        decreases v@.len() - i,
    {
        keys.push(key1(v[i].as_str()));
        i = i + 1;
    }
    let ghost kv = Seq::new(sv.len(), |i: int| seq![sv[i]]);
    assert(keys_view(keys@) =~= kv);
    let order = sort_indices(&keys);
    proof {
        crate::sort::lemma_sorted_len(kv, sv.len());
    }
    let mut r: Vec<String> = Vec::new();
    let mut j: usize = 0;
    while j < order.len()
        invariant
            sv == strs(v@),
            kv == Seq::new(sv.len(), |i: int| seq![sv[i]]),
            order@.len() == v@.len(),
            forall|k: int| 0 <= k < order@.len() ==> order@[k] as int == #[trigger] sorted_indices(kv, sv.len())[k],
            forall|k: int| 0 <= k < sv.len() ==> 0 <= #[trigger] sorted_indices(kv, sv.len())[k] < sv.len(),
            j <= order@.len(),
            strs(r@) == Seq::new(j as nat, |k: int| sv[sorted_indices(kv, sv.len())[k]]),
        decreases order@.len() - j,
    {
        assert(order@[j as int] as int == sorted_indices(kv, sv.len())[j as int]);
        push_line(&mut r, v[order[j]].clone());
        assert(strs(r@) =~= Seq::new((j + 1) as nat, |k: int| sv[sorted_indices(kv, sv.len())[k]]));
        j = j + 1;
    }
    r
}

pub proof fn lemma_new_deps_in_add(deps: Seq<Seq<char>>, assigned: Seq<Seq<char>>, add: Seq<Package>, explicit: Seq<Seq<char>>)
    ensures
        forall|i: int| 0 <= i < new_deps(deps, assigned, add, explicit).len() ==> names_of(add).contains(
            #[trigger] new_deps(deps, assigned, add, explicit)[i],
        ),
    decreases deps.len(),
{
    if deps.len() > 0 {
        let dn = deps[0];
        if assigned.contains(dn) {
            lemma_new_deps_in_add(deps.drop_first(), assigned, add, explicit);
            assert(new_deps(deps, assigned, add, explicit) == new_deps(deps.drop_first(), assigned, add, explicit));
        } else if names_of(add).contains(dn) && !explicit.contains(dn) {
            lemma_new_deps_in_add(deps.drop_first(), assigned.push(dn), add, explicit);
            let r = new_deps(deps, assigned, add, explicit);
            let t = new_deps(deps.drop_first(), assigned.push(dn), add, explicit);
            assert(r == seq![dn] + t);
            assert(r[0] == dn);
            assert forall|i: int| 0 <= i < r.len() implies names_of(add).contains(#[trigger] r[i]) by {
                if i > 0 {
                    assert(r[i] == t[i - 1]);
                }
            }
        } else {
            lemma_new_deps_in_add(deps.drop_first(), assigned, add, explicit);
            assert(new_deps(deps, assigned, add, explicit) == new_deps(deps.drop_first(), assigned, add, explicit));
        }
    }
}

/// A name among those of `ps` has a first package of that name.
proof fn lemma_first_named(ps: Seq<Package>, n: Seq<char>)
    requires
        names_of(ps).contains(n),
    ensures
        0 <= first_named(ps, n) < ps.len(),
        ps[first_named(ps, n)].name@ == n,
    decreases ps.len(),
{
    let j = choose|j: int| 0 <= j < names_of(ps).len() && names_of(ps)[j] == n;
    assert(names_of(ps)[j] == ps[j].name@);
    if ps[0].name@ != n {
        assert(j > 0);
        assert(names_of(ps.drop_first())[j - 1] == ps[j].name@);
        lemma_first_named(ps.drop_first(), n);
    }
}

/// The indices of the packages asked for lie in `add`.
proof fn lemma_explicit_indices_range(add: Seq<Package>, explicit: Seq<Seq<char>>, n: nat)
    ensures
        forall|k: int|
            0 <= k < explicit_indices(add, explicit, n).len() ==> 0 <= #[trigger] explicit_indices(
                add,
                explicit,
                n,
            )[k] < add.len(),
    decreases n,
{
    if n > 0 {
        lemma_explicit_indices_range(add, explicit, (n - 1) as nat);
        let prev = explicit_indices(add, explicit, (n - 1) as nat);
        if n <= add.len() && explicit.contains(add[n - 1].name@) {
            assert forall|k: int| 0 <= k < prev.push(n - 1).len() implies 0 <= #[trigger] prev.push(n - 1)[k]
                < add.len() by {
                if k < prev.len() {
                    assert(prev.push(n - 1)[k] == prev[k]);
                }
            }
        }
    }
}

/// `r` is the row of one of the packages `add`: with its new version, its
/// installed size as the net change and what is left to download of it as
/// the size.
pub open spec fn row_of_package(r: RowSpec, add: Seq<Package>) -> bool {
    exists|k: int|
        0 <= k < add.len() && r.new == (#[trigger] add[k]).version@ && r.net == add[k].isize as int && r.size
            == add[k].download_size as int
}

/// Every row of an installation stands for one of its packages.
proof fn lemma_install_rows_of(
    ex: Seq<int>,
    add: Seq<Package>,
    explicit: Seq<Seq<char>>,
    assigned: Seq<Seq<char>>,
    plain: bool,
)
    requires
        forall|k: int| 0 <= k < ex.len() ==> 0 <= #[trigger] ex[k] < add.len(),
    ensures
        forall|i: int|
            0 <= i < install_rows(ex, add, explicit, assigned, plain).len() ==> row_of_package(
                #[trigger] install_rows(ex, add, explicit, assigned, plain)[i],
                add,
            ),
    decreases ex.len(),
{
    if ex.len() > 0 {
        let p = add[ex[0]];
        let nd = new_deps(strs(p.depends@), assigned, add, explicit);
        let sd = sort_names(nd);
        let head = seq![explicit_row(p, plain)];
        let deps = Seq::new(sd.len(), |i: int| dep_row(add, sd[i], plain));
        let rest = install_rows(ex.drop_first(), add, explicit, assigned + nd, plain);
        assert forall|k: int| 0 <= k < ex.drop_first().len() implies 0 <= #[trigger] ex.drop_first()[k]
            < add.len() by {
            assert(ex.drop_first()[k] == ex[k + 1]);
        }
        lemma_install_rows_of(ex.drop_first(), add, explicit, assigned + nd, plain);
        lemma_new_deps_in_add(strs(p.depends@), assigned, add, explicit);
        let keys = Seq::new(nd.len(), |i: int| seq![nd[i]]);
        crate::sort::lemma_sorted_len(keys, nd.len());
        let rows = install_rows(ex, add, explicit, assigned, plain);
        assert(rows == head + deps + rest);
        assert forall|i: int| 0 <= i < rows.len() implies row_of_package(#[trigger] rows[i], add) by {
            if i == 0 {
                assert(rows[0] == explicit_row(p, plain));
                assert(add[ex[0]] == p);
            } else if i < 1 + sd.len() {
                let o = sorted_indices(keys, nd.len())[i - 1];
                assert(sd[i - 1] == nd[o]);
                assert(names_of(add).contains(nd[o]));
                lemma_first_named(add, sd[i - 1]);
                assert(rows[i] == dep_row(add, sd[i - 1], plain));
                let f = first_named(add, sd[i - 1]);
                assert(rows[i].size == add[f].download_size as int);
            } else {
                assert(rows[i] == rest[i - 1 - sd.len()]);
            }
        }
    }
}

/// In the install summary each row, right below the header, is that of a
/// package that the transaction installs, with its new version, its
/// installed size as the net change, and what is left to download of it as
/// the size; the totals close the table: Total Download Size sums the sizes
/// of the rows, Total Installed Size their installed sizes, and Net Upgrade
/// Size takes off the sizes of the packages removed.
pub proof fn lemma_install_sizes(
    add: Seq<Package>,
    explicit: Seq<Seq<char>>,
    rm: Seq<Package>,
    w: nat,
    plain: bool,
    ls: Seq<Seq<char>>,
)
    requires
        install_summary_spec(add, explicit, rm, w, plain) == Some(ls),
    ensures
        ({
            let rows = install_rows(explicit_order(add, explicit), add, explicit, Seq::empty(), plain);
            let dl = sum(Seq::new(rows.len(), |i: int| rows[i].size));
            let inst = sum(Seq::new(rows.len(), |i: int| rows[i].net));
            &&& forall|i: int|
                0 <= i < rows.len() ==> row_of_package(#[trigger] rows[i], add) && ls[3 + i] == row_text(
                    rows[i],
                    w,
                )
            &&& ls.len() >= 3
            &&& ls.skip(ls.len() - 3) == footer_spec(
                seq![
                    ("Total Download Size"@, format_size_spec(dl as i64)),
                    ("Total Installed Size"@, format_size_spec(inst as i64)),
                    ("Net Upgrade Size"@, format_size_spec((inst - sum(Seq::new(rm.len(), |i: int| rm[i].isize as int))) as i64)),
                ],
                plain,
            )
        }),
{
    let ex = explicit_order(add, explicit);
    let rows = install_rows(ex, add, explicit, Seq::empty(), plain);
    let idx = explicit_indices(add, explicit, add.len());
    lemma_explicit_indices_range(add, explicit, add.len());
    let keys = Seq::new(idx.len(), |i: int| seq![add[idx[i]].name@]);
    crate::sort::lemma_sorted_len(keys, idx.len());
    assert forall|k: int| 0 <= k < ex.len() implies 0 <= #[trigger] ex[k] < add.len() by {
        let o = sorted_indices(keys, idx.len())[k];
        assert(ex[k] == idx[o]);
    }
    lemma_install_rows_of(ex, add, explicit, Seq::empty(), plain);
    assert(row_sizes(rows) =~= Seq::new(rows.len(), |i: int| rows[i].size));
    assert(row_nets(rows) =~= Seq::new(rows.len(), |i: int| rows[i].net));
    assert(isizes(rm) =~= Seq::new(rm.len(), |i: int| rm[i].isize as int));
    let pre = seq![Seq::<char>::empty(), header_spec(w, plain), separator_spec(w)];
    let body = rows_text(rows, w);
    let freed = sum(isizes(rm));
    let net = sum(row_nets(rows)) - freed;
    let tail = if rm.len() > 0 {
        seq![Seq::<char>::empty(), header_spec(w, plain), separator_spec(w)] + rows_text(removal_rows(rm, plain), w)
            + seq![separator_spec(w)]
    } else {
        seq![separator_spec(w)]
    };
    let mid = seq![count_line_spec(add.len(), "package"@, install_dep_count(ex, add, explicit, Seq::empty())), Seq::<char>::empty()];
    let foot = footer_spec(
        seq![
            ("Total Download Size"@, format_size_spec(sum(row_sizes(rows)) as i64)),
            ("Total Installed Size"@, format_size_spec(sum(row_nets(rows)) as i64)),
            ("Net Upgrade Size"@, format_size_spec(net as i64)),
        ],
        plain,
    );
    assert(ls == pre + body + tail + mid + foot);
    assert forall|i: int| 0 <= i < rows.len() implies row_of_package(#[trigger] rows[i], add) && ls[3 + i]
        == row_text(rows[i], w) by {
        assert((pre + body)[3 + i] == body[i]);
        assert((pre + body + tail)[3 + i] == body[i]);
        assert((pre + body + tail + mid)[3 + i] == body[i]);
    }
    assert(foot.len() == 3);
    assert(ls.skip(ls.len() - 3) =~= foot);
}

/// The indices of the packages asked for.
fn explicit_index_list(add: &Vec<Package>, explicit: &Vec<String>) -> (r: Vec<usize>)
    ensures
        as_ints(r@) == explicit_indices(add@, strs(explicit@), add@.len() as nat),
        forall|k: int| 0 <= k < r@.len() ==> #[trigger] r@[k] < add@.len(),
{
    let mut r: Vec<usize> = Vec::new();
    let mut i: usize = 0;
    while i < add.len()
        invariant
            i <= add@.len(),
            as_ints(r@) == explicit_indices(add@, strs(explicit@), i as nat),
            forall|k: int| 0 <= k < r@.len() ==> #[trigger] r@[k] < i,
        decreases add@.len() - i,
    {
        if contains_string(explicit, add[i].name.as_str()) {
            assert(as_ints(r@.push(i)) =~= as_ints(r@).push(i as int));
            r.push(i);
        }
        i = i + 1;
    }
    r
}

/// The rows of an installation and the number of dependencies they list.
fn install_row_list(add: &Vec<Package>, explicit: &Vec<String>, plain: bool) -> (r: (Vec<Row>, usize))
    ensures
        rows_view(r.0@) == install_rows(explicit_order(add@, strs(explicit@)), add@, strs(explicit@), Seq::empty(), plain),
        r.1 == install_dep_count(explicit_order(add@, strs(explicit@)), add@, strs(explicit@), Seq::empty()),
{
    let ghost xv = strs(explicit@);
    let idx = explicit_index_list(add, explicit);
    let ex = sort_by_name(add, &idx);
    let ghost exv = explicit_order(add@, xv);
    assert(as_ints(ex@) =~= exv);
    proof {
        crate::sort::lemma_sorted_len(Seq::new(as_ints(idx@).len(), |i: int| seq![add@[as_ints(idx@)[i]].name@]), as_ints(idx@).len());
    }
    assert forall|k: int| 0 <= k < ex@.len() implies #[trigger] ex@[k] < add@.len() by {
        assert(ex@[k] as int == by_name(add@, as_ints(idx@))[k]);
    }
    let mut rows: Vec<Row> = Vec::new();
    let mut assigned: Vec<String> = Vec::new();
    let mut dc: usize = 0;
    let mut k: usize = 0;
    assert(exv.skip(0) =~= exv);
    assert(rows_view(rows@) + install_rows(exv, add@, xv, Seq::empty(), plain) =~= install_rows(exv, add@, xv, Seq::empty(), plain));
    assert(strs(assigned@) =~= Seq::<Seq<char>>::empty());
    while k < ex.len()
        invariant
            xv == strs(explicit@),
            exv == as_ints(ex@),
            forall|k: int| 0 <= k < ex@.len() ==> #[trigger] ex@[k] < add@.len(),
            k <= ex@.len(),
            rows_view(rows@) + install_rows(exv.skip(k as int), add@, xv, strs(assigned@), plain) == install_rows(exv, add@, xv, Seq::empty(), plain),
            dc + install_dep_count(exv.skip(k as int), add@, xv, strs(assigned@)) == install_dep_count(exv, add@, xv, Seq::empty()),
            dc == assigned@.len(),
        decreases ex@.len() - k,
    {
        let ghost rest = exv.skip(k as int);
        assert(rest[0] == ex@[k as int] as int);
        assert(rest.drop_first() =~= exv.skip(k + 1));
        let p = &add[ex[k]];
        let ghost a_old = strs(assigned@);
        let ghost rows_old = rows_view(rows@);
        let ghost total = install_rows(exv, add@, xv, Seq::empty(), plain);
        let er = Row {
            name: color(p.name.as_str(), Color::Green, plain),
            old: String::new(),
            new: p.version.clone(),
            net: p.isize,
            size: p.download_size,
        };
        assert(er@ == explicit_row(*p, plain));
        rows.push(er);
        assert(rows_view(rows@) =~= rows_old.push(explicit_row(*p, plain)));
        let nd = claim_deps(&p.depends, &mut assigned, add, explicit);
        assert(strs(assigned@).len() == assigned@.len());
        assert(strs(nd@).len() == nd@.len());
        dc = assigned.len();
        proof {
            lemma_new_deps_in_add(strs(p.depends@), a_old, add@, xv);
        }
        let sd = sorted_names(&nd);
        let ghost sdv = strs(sd@);
        let ghost ndv = strs(nd@);
        proof {
            crate::sort::lemma_sorted_len(Seq::new(ndv.len(), |i: int| seq![ndv[i]]), ndv.len());
        }
        assert forall|i: int| 0 <= i < sdv.len() implies names_of(add@).contains(#[trigger] sdv[i]) by {
            let o = sorted_indices(Seq::new(ndv.len(), |i: int| seq![ndv[i]]), ndv.len());
            assert(sdv[i] == ndv[o[i]]);
        }
        let ghost base = rows_view(rows@);
        let mut t: usize = 0;
        while t < sd.len()
            invariant
                sdv == strs(sd@),
                forall|i: int| 0 <= i < sdv.len() ==> names_of(add@).contains(#[trigger] sdv[i]),
                t <= sd@.len(),
                rows_view(rows@) == base + Seq::new(t as nat, |i: int| dep_row(add@, sdv[i], plain)),
            decreases sd@.len() - t,
        {
            let dn = sd[t].as_str();
            assert(sdv[t as int] == dn@);
            let pos = match position_of_name(add, dn) {
                Some(i) => i,
                None => {
                    assert(false);
                    0
                },
            };
            let dp = &add[pos];
            let dr = Row {
                name: cat(" ", color(dn, Color::Green, plain).as_str()),
                old: String::new(),
                new: dp.version.clone(),
                net: dp.isize,
                size: dp.download_size,
            };
            assert(dr@ == dep_row(add@, sdv[t as int], plain));
            let ghost before_push = rows_view(rows@);
            rows.push(dr);
            assert(rows_view(rows@) =~= before_push.push(dep_row(add@, sdv[t as int], plain)));
            assert(rows_view(rows@) =~= base + Seq::new((t + 1) as nat, |i: int| dep_row(add@, sdv[i], plain)));
            t = t + 1;
        }
        assert(rows_view(rows@) + install_rows(exv.skip(k + 1), add@, xv, strs(assigned@), plain) =~= rows_old + install_rows(rest, add@, xv, a_old, plain));
        k = k + 1;
    }
    assert(exv.skip(k as int) =~= Seq::<int>::empty());
    assert(rows_view(rows@) + Seq::<RowSpec>::empty() =~= rows_view(rows@));
    (rows, dc)
}

/// The texts of rows and the totals of their sizes.
fn rows_part(rows: &Vec<Row>, w: usize) -> (r: Option<(Vec<String>, i64, i64)>)
    requires
        w <= 65535,
    ensures
        match r {
            Some((ls, sizes, nets)) => running_fits(row_sizes(rows_view(rows@))) && running_fits(row_nets(rows_view(rows@)))
                && strs(ls@) == rows_text(rows_view(rows@), w as nat) && sizes == sum(row_sizes(rows_view(rows@)))
                && nets == sum(row_nets(rows_view(rows@))),
            None => !(running_fits(row_sizes(rows_view(rows@))) && running_fits(row_nets(rows_view(rows@)))),
        },
{
    let ghost rv = rows_view(rows@);
    let ghost sz = row_sizes(rv);
    let ghost nt = row_nets(rv);
    let mut ls: Vec<String> = Vec::new();
    let mut ts: i64 = 0;
    let mut tn: i64 = 0;
    let mut i: usize = 0;
    assert(sz.take(0) =~= Seq::<int>::empty());
    assert(nt.take(0) =~= Seq::<int>::empty());
    while i < rows.len()
        invariant
            rv == rows_view(rows@),
            sz == row_sizes(rv),
            nt == row_nets(rv),
            w <= 65535,
            i <= rows@.len(),
            ts == sum(sz.take(i as int)),
            tn == sum(nt.take(i as int)),
            forall|k: int| 0 <= k <= i ==> fits(#[trigger] sum(sz.take(k))),
            forall|k: int| 0 <= k <= i ==> fits(#[trigger] sum(nt.take(k))),
            strs(ls@) == rows_text(rv, w as nat).take(i as int),
        decreases rows@.len() - i,
    {
        let r = &rows[i];
        proof {
            lemma_running_step(sz, i as int);
            lemma_running_step(nt, i as int);
        }
        assert(sz[i as int] == r.size as int);
        assert(nt[i as int] == r.net as int);
        let ns = match ts.checked_add(r.size) {
            Some(t) => t,
            None => {
                assert(!fits(sum(sz.take(i + 1))));
                return None;
            },
        };
        let nn = match tn.checked_add(r.net) {
            Some(t) => t,
            None => {
                assert(!fits(sum(nt.take(i + 1))));
                return None;
            },
        };
        let line = row_line(r.name.as_str(), r.old.as_str(), r.new.as_str(), r.net, r.size, w);
        push_line(&mut ls, line);
        assert(strs(ls@) =~= rows_text(rv, w as nat).take(i + 1));
        ts = ns;
        tn = nn;
        i = i + 1;
    }
    assert(sz.take(i as int) =~= sz);
    assert(nt.take(i as int) =~= nt);
    assert(rows_text(rv, w as nat).take(i as int) =~= rows_text(rv, w as nat));
    Some((ls, ts, tn))
}

/// The total of the installed sizes of packages, where every running total
/// fits.
fn total_isize(ps: &Vec<Package>) -> (r: Option<i64>)
    ensures
        match r {
            Some(t) => running_fits(isizes(ps@)) && t == sum(isizes(ps@)),
            None => !running_fits(isizes(ps@)),
        },
{
    let ghost sz = isizes(ps@);
    let mut t: i64 = 0;
    let mut i: usize = 0;
    assert(sz.take(0) =~= Seq::<int>::empty());
    while i < ps.len()
        invariant
            sz == isizes(ps@),
            i <= ps@.len(),
            t == sum(sz.take(i as int)),
            forall|k: int| 0 <= k <= i ==> fits(#[trigger] sum(sz.take(k))),
        decreases ps@.len() - i,
    {
        proof {
            lemma_running_step(sz, i as int);
        }
        t = match t.checked_add(ps[i].isize) {
            Some(n) => n,
            None => {
                assert(!fits(sum(sz.take(i + 1))));
                return None;
            },
        };
        i = i + 1;
    }
    assert(sz.take(i as int) =~= sz);
    Some(t)
}

/// What the install command shows before it asks: `add` are the packages
/// that the transaction installs, `explicit` the names asked for, `rm` the
/// packages that it removes.
#[verifier::rlimit(60)]
pub fn install_summary(
    add: &Vec<Package>,
    explicit: &Vec<String>,
    rm: &Vec<Package>,
    w: usize,
    plain: bool,
) -> (r: Option<Vec<String>>)
    requires
        w <= 65535,
    ensures
        match r {
            Some(ls) => install_summary_spec(add@, strs(explicit@), rm@, w as nat, plain) == Some(strs(ls@)),
            None => install_summary_spec(add@, strs(explicit@), rm@, w as nat, plain) is None,
        },
{
    let (rows, dc) = install_row_list(add, explicit, plain);
    let (row_lines, total_dl, total_is) = match rows_part(&rows, w) {
        Some(x) => x,
        None => {
            return None;
        },
    };
    let rm_rows = match removal_row_lines(rm, w, plain) {
        Some(x) => x,
        None => {
            return None;
        },
    };
    let freed = match total_isize(rm) {
        Some(t) => t,
        None => {
            return None;
        },
    };
    let net = match total_is.checked_sub(freed) {
        Some(n) => n,
        None => {
            return None;
        },
    };
    let mut ls: Vec<String> = Vec::new();
    push_line(&mut ls, String::new());
    push_line(&mut ls, header_line(w, plain));
    push_line(&mut ls, separator_line(w));
    append_lines(&mut ls, row_lines);
    let ghost mid = strs(ls@);
    if rm.len() > 0 {
        push_line(&mut ls, String::new());
        push_line(&mut ls, header_line(w, plain));
        push_line(&mut ls, separator_line(w));
        append_lines(&mut ls, rm_rows);
        push_line(&mut ls, separator_line(w));
    } else {
        push_line(&mut ls, separator_line(w));
    }
    push_line(&mut ls, count_line(add.len(), "package", dc));
    push_line(&mut ls, String::new());
    let mut items: Vec<(String, String)> = Vec::new();
    items.push((copy_str("Total Download Size"), format_size(total_dl)));
    items.push((copy_str("Total Installed Size"), format_size(total_is)));
    items.push((copy_str("Net Upgrade Size"), format_size(net)));
    let ghost rv = rows_view(rows@);
    let ghost fitems = seq![
        ("Total Download Size"@, format_size_spec(sum(row_sizes(rv)) as i64)),
        ("Total Installed Size"@, format_size_spec(sum(row_nets(rv)) as i64)),
        ("Net Upgrade Size"@, format_size_spec((sum(row_nets(rv)) - sum(isizes(rm@))) as i64)),
    ];
    assert(items@.map_values(|p: (String, String)| (p.0@, p.1@)) =~= fitems);
    append_lines(&mut ls, footer_items(items, plain));
    let ghost w2 = w as nat;
    let ghost expect = seq![Seq::<char>::empty(), header_spec(w2, plain), separator_spec(w2)] + rows_text(rv, w2) + (if rm@.len() > 0 {
        seq![Seq::<char>::empty(), header_spec(w2, plain), separator_spec(w2)] + rows_text(removal_rows(rm@, plain), w2)
            + seq![separator_spec(w2)]
    } else {
        seq![separator_spec(w2)]
    }) + seq![
        count_line_spec(add@.len(), "package"@, install_dep_count(explicit_order(add@, strs(explicit@)), add@, strs(explicit@), Seq::empty())),
        Seq::<char>::empty(),
    ] + footer_spec(fitems, plain);
    assert(strs(ls@) =~= expect);
    Some(ls)
}

} // verus!
