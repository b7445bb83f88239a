//! The summary table shown before a transaction.
use vstd::prelude::*;
use crate::draw::{
    crop, crop_spec, display_width, display_width_spec, sat_sub, strip_ansi, strip_ansi_spec,
    term_width, width_from_columns,
};
use crate::style::{bold, styled};
use crate::text::{cat, copy_str, push_repeat, repeat};

verus! {

/// `text` fitted to `target` columns: cut and ended with an ellipsis where it
/// is as wide or wider, else padded with spaces on the left (`right_align`)
/// or on the right.
pub open spec fn pad_spec(text: Seq<char>, target: nat, right_align: bool) -> Seq<char> {
    let tw = display_width_spec(text);
    if tw >= target {
        crop_spec(strip_ansi_spec(text), sat_sub(target as int, 1), 0) + "…"@
    } else if right_align {
        repeat(' ', (target - tw) as nat) + text
    } else {
        text + repeat(' ', (target - tw) as nat)
    }
}

/// Fits `text` to `target` columns.
pub fn pad(text: &str, target_width: usize, right_align: bool) -> (r: String)
    ensures
        r@ == pad_spec(text@, target_width as nat, right_align),
{
    let tw = display_width(text);
    if tw >= target_width {
        let stripped = strip_ansi(text);
        let limit = if target_width > 1 { target_width - 1 } else { 0 };
        let mut r = crop(stripped.as_str(), limit);
        r.append("…");
        r
    } else if right_align {
        let mut r = String::new();
        push_repeat(&mut r, ' ', target_width - tw);
        r.append(text);
        assert(Seq::<char>::empty() + repeat(' ', (target_width - tw) as nat) =~= repeat(' ', (target_width - tw) as nat));
        r
    } else {
        let mut r = copy_str(text);
        push_repeat(&mut r, ' ', target_width - tw);
        r
    }
}

/// `word`, with an `s` unless `count` is one.
pub fn plural(word: &str, count: usize) -> (res: String)
    ensures
        res@ == (if count == 1 { word@ } else { word@ + "s"@ }),
{
    if count == 1 {
        copy_str(word)
    } else {
        cat(word, "s")
    }
}

/// The separator line of a table `w` columns wide.
pub open spec fn separator_spec(w: nat) -> Seq<char> {
    " "@ + repeat('─', sat_sub(w as int, 2)) + " "@
}

/// The separator line of a table `w` columns wide.
pub fn separator_line(w: usize) -> (r: String)
    ensures
        r@ == separator_spec(w as nat),
{
    let mut r = copy_str(" ");
    push_repeat(&mut r, '─', if w > 2 { w - 2 } else { 0 });
    r.append(" ");
    r
}

/// The widths of the five columns of a table `w` columns wide: name, old
/// version, new version, net change and size.
pub open spec fn column_widths(w: nat) -> (nat, nat, nat, nat) {
    let avail = sat_sub(w as int, 6);
    let name_col = avail * 26 / 100;
    let ver_col = avail * 16 / 100;
    let net_col = avail * 26 / 100;
    (name_col, ver_col, net_col, sat_sub(avail as int, (name_col + ver_col + ver_col + net_col) as int))
}

/// A row of a table `w` columns wide.
pub open spec fn summary_row_spec(
    name: Seq<char>,
    old_ver: Seq<char>,
    new_ver: Seq<char>,
    net: Seq<char>,
    size: Seq<char>,
    w: nat,
) -> Seq<char> {
    let (name_col, ver_col, net_col, size_col) = column_widths(w);
    " "@ + pad_spec(name, name_col, false) + " "@ + pad_spec(old_ver, ver_col, false) + " "@
        + pad_spec(new_ver, ver_col, false) + " "@ + pad_spec(net, net_col, true) + " "@
        + pad_spec(size, size_col, true) + " "@
}

/// A row of a table `w` columns wide.  The columns take 26%, 16%, 16% and 26%
/// of the width less six, rounded down, and the size column the rest; `w` is
/// a terminal's width, which fits in 16 bits.
pub fn summary_row(
    name: &str,
    old_ver: &str,
    new_ver: &str,
    net_change: &str,
    size: &str,
    w: usize,
) -> (r: String)
    requires
        w <= 65535,
    ensures
        r@ == summary_row_spec(name@, old_ver@, new_ver@, net_change@, size@, w as nat),
{
    let avail = if w > 6 { w - 6 } else { 0 };
    let name_col = avail * 26 / 100;
    let ver_col = avail * 16 / 100;
    let net_col = avail * 26 / 100;
    let used = name_col + ver_col + ver_col + net_col;
    let size_col = if avail > used { avail - used } else { 0 };
    let mut r = copy_str(" ");
    r.append(pad(name, name_col, false).as_str());
    r.append(" ");
    r.append(pad(old_ver, ver_col, false).as_str());
    r.append(" ");
    r.append(pad(new_ver, ver_col, false).as_str());
    r.append(" ");
    r.append(pad(net_change, net_col, true).as_str());
    r.append(" ");
    r.append(pad(size, size_col, true).as_str());
    r.append(" ");
    r
}

/// A row of a table as wide as the terminal.
pub fn write_summary_row(
    name: &str,
    old_ver: &str,
    new_ver: &str,
    net_change: &str,
    size: &str,
) -> (r: String)
    ensures
        exists|cols: Option<u16>| r@ == summary_row_spec(name@, old_ver@, new_ver@, net_change@, size@, width_from_columns(cols) as nat),
{
    summary_row(name, old_ver, new_ver, net_change, size, term_width())
}

/// The largest of `f(i)` for `i < n`, or 0.
pub open spec fn max_of(n: nat, f: spec_fn(int) -> nat) -> nat
    decreases n,
{
    if n == 0 {
        0
    } else {
        let m = max_of((n - 1) as nat, f);
        if f(n - 1) > m {
            f(n - 1)
        } else {
            m
        }
    }
}

/// The columns a label takes with its colon: one more than its width,
/// wrapping to zero as `usize` addition does in a release build.
pub open spec fn label_cols(w: nat) -> nat {
    if w < usize::MAX {
        w + 1
    } else {
        0
    }
}

/// The footer lines under a table: each label with a colon, in bold, and the
/// value, labels aligned on the left and values on the right.
pub open spec fn footer_spec(items: Seq<(Seq<char>, Seq<char>)>, plain: bool) -> Seq<Seq<char>> {
    let label_w = max_of(items.len(), |i: int| label_cols(display_width_spec(items[i].0)));
    let value_w = max_of(items.len(), |i: int| display_width_spec(items[i].1));
    Seq::new(
        items.len(),
        |i: int|
            {
                let lc = items[i].0 + ":"@;
                " "@ + styled(lc, "\x1b[1m"@, plain) + repeat(
                    ' ',
                    sat_sub(label_w as int, display_width_spec(lc) as int),
                ) + " "@ + repeat(' ', sat_sub(value_w as int, display_width_spec(items[i].1) as int))
                    + items[i].1 + " "@
            },
    )
}

/// The footer lines under a table.
pub fn write_summary_footer(items: &Vec<(String, String)>, plain: bool) -> (r: Vec<String>)
    ensures
        r@.len() == items@.len(),
        forall|i: int|
            0 <= i < r@.len() ==> #[trigger] r@[i]@ == footer_spec(
                items@.map_values(|p: (String, String)| (p.0@, p.1@)),
                plain,
            )[i],
{
    let ghost its = items@.map_values(|p: (String, String)| (p.0@, p.1@));
    let ghost fl = |i: int| label_cols(display_width_spec(its[i].0));
    let ghost fv = |i: int| display_width_spec(its[i].1);
    let mut label_w: usize = 0;
    let mut value_w: usize = 0;
    let mut i: usize = 0;
    while i < items.len()
        invariant
            its == items@.map_values(|p: (String, String)| (p.0@, p.1@)),
            fl == (|i: int| label_cols(display_width_spec(its[i].0))),
            fv == (|i: int| display_width_spec(its[i].1)),
            i <= items@.len(),
            label_w as nat == max_of(i as nat, fl),
            value_w as nat == max_of(i as nat, fv),
        decreases items@.len() - i,
    {
        let lw = display_width(items[i].0.as_str());
        let vw = display_width(items[i].1.as_str());
        let lc: usize = if lw < usize::MAX { lw + 1 } else { 0 };
        assert(fl(i as int) == lc);
        if lc > label_w {
            label_w = lc;
        }
        if vw > value_w {
            value_w = vw;
        }
        i = i + 1;
    }
    let mut r: Vec<String> = Vec::new();
    let mut k: usize = 0;
    while k < items.len()
        invariant
            its == items@.map_values(|p: (String, String)| (p.0@, p.1@)),
            k <= items@.len(),
            r@.len() == k,
            label_w as nat == max_of(items@.len() as nat, fl),
            value_w as nat == max_of(items@.len() as nat, fv),
            fl == (|i: int| label_cols(display_width_spec(its[i].0))),
            fv == (|i: int| display_width_spec(its[i].1)),
            forall|j: int| 0 <= j < k ==> #[trigger] r@[j]@ == footer_spec(its, plain)[j],
        decreases items@.len() - k,
    {
        let lc = cat(items[k].0.as_str(), ":");
        let lcw = display_width(lc.as_str());
        let vw = display_width(items[k].1.as_str());
        let mut line = copy_str(" ");
        line.append(bold(lc.as_str(), plain).as_str());
        push_repeat(&mut line, ' ', if label_w > lcw { label_w - lcw } else { 0 });
        line.append(" ");
        push_repeat(&mut line, ' ', if value_w > vw { value_w - vw } else { 0 });
        line.append(items[k].1.as_str());
        line.append(" ");
        assert(line@ == footer_spec(its, plain)[k as int]);
        r.push(line);
        k = k + 1;
    }
    r
}

/// The separator line of a table as wide as the terminal.
pub fn write_separator() -> (r: String)
    ensures
        exists|cols: Option<u16>| r@ == separator_spec(width_from_columns(cols) as nat),
{
    separator_line(term_width())
}

} // verus!
