//! The table shown after the sync databases are refreshed: what was
//! downloaded of each database, as libalpm reported it.
use vstd::prelude::*;
use crate::draw::{display_width, display_width_spec, sat_sub};
use crate::format::{format_size, format_size_spec};
use crate::keyed::{distinct_keys, lookup, put};
use crate::render::{file_base, file_base_name};
use crate::sort::{key1, keys_view, sort_indices, sorted_indices};
use crate::text::{
    copy_str, ends_with, has_suffix, pad_left, pad_left_str, push_repeat, repeat,
    string_of_range, strs, to_chars,
};

verus! {

/// What a download callback reports of a database file.
#[derive(Debug, Clone, Copy)]
pub enum DbEvent {
    /// `downloaded` of `total` bytes have arrived.
    Progress { downloaded: i64, total: i64 },
    /// The download ended at `total` bytes.
    Completed { total: i64 },
    /// Any other report.
    Other,
}

/// `s` without the suffix `p`, where it ends with it.
pub open spec fn without_suffix(s: Seq<char>, p: Seq<char>) -> Option<Seq<char>> {
    if has_suffix(s, p) {
        Some(s.take(s.len() - p.len()))
    } else {
        None
    }
}

/// The repository that a downloaded database file belongs to: the file name
/// without `.db.part`, then without `.db`; where the second suffix is
/// missing, the whole file name.
pub open spec fn repo_of_file(filename: Seq<char>) -> Seq<char> {
    let f = file_base(filename);
    let a = match without_suffix(f, ".db.part"@) {
        Some(x) => x,
        None => f,
    };
    match without_suffix(a, ".db"@) {
        Some(x) => x,
        None => f,
    }
}

/// A download report names its database by the file: the directories
/// before the name do not count, and `.db` after it is left out.
pub proof fn lemma_repo_of_db_file(d: Seq<char>, r: Seq<char>)
    requires
        forall|i: int| 0 <= i < r.len() ==> r[i] != '/',
        d.len() == 0 || d.last() == '/',
    ensures
        repo_of_file(d + r + ".db"@) == r,
{
    reveal_strlit(".db");
    reveal_strlit(".db.part");
    let db = ".db"@;
    let part = ".db.part"@;
    let x1 = r + db;
    assert forall|i: int| 0 <= i < x1.len() implies x1[i] != '/' by {
        if i >= r.len() {
            assert(x1[i] == db[i - r.len()]);
        }
    }
    crate::packages::lemma_last_index_after(d, x1, '/');
    crate::packages::lemma_last_index(d, '/');
    if d.len() > 0 {
        assert(crate::packages::last_index_of(d, '/') == d.len() - 1);
    } else {
        assert(crate::packages::last_index_of(d, '/') == -1);
    }
    assert(d + r + db =~= d + x1);
    assert((d + x1).skip(d.len() as int) =~= x1);
    assert(d.len() == 0 ==> d + x1 =~= x1);
    assert(file_base(d + r + db) == x1);
    assert(!has_suffix(x1, part)) by {
        if has_suffix(x1, part) {
            assert(x1.skip(x1.len() - part.len())[part.len() - 1] == x1[x1.len() - 1]);
        }
    }
    assert(x1.skip(x1.len() - db.len()) =~= db);
    assert(x1.take(x1.len() - db.len()) =~= r);
}

/// `s` without the suffix `p`, where it ends with it.
fn strip_suffix_str(s: &str, p: &str) -> (r: Option<String>)
    ensures
        opt_seq(r) == without_suffix(s@, p@),
{
    if ends_with(s, p) {
        let v = to_chars(s);
        let n = v.len();
        let k = p.unicode_len();
        assert(v@.take(n - k) =~= v@.subrange(0, n - k));
        Some(string_of_range(&v, 0, n - k))
    } else {
        None
    }
}

/// The view of an optional string.
pub open spec fn opt_seq(o: Option<String>) -> Option<Seq<char>> {
    match o {
        Some(s) => Some(s@),
        None => None,
    }
}

/// The repository that a downloaded database file belongs to.
pub fn repo_of_db_file(filename: &str) -> (r: String)
    ensures
        r@ == repo_of_file(filename@),
{
    let f = file_base_name(filename);
    let a = match strip_suffix_str(f.as_str(), ".db.part") {
        Some(x) => x,
        None => copy_str(f.as_str()),
    };
    match strip_suffix_str(a.as_str(), ".db") {
        Some(x) => x,
        None => f,
    }
}

/// The bytes of a database after a report: the report's count and total,
/// or the total twice once it is complete.
pub open spec fn db_step(old: (i64, i64), ev: DbEvent) -> (i64, i64) {
    match ev {
        DbEvent::Progress { downloaded, total } => (downloaded, total),
        DbEvent::Completed { total } => (total, total),
        DbEvent::Other => old,
    }
}

/// Every database starts at nothing downloaded of nothing.
pub fn db_byte_table(names: &Vec<String>) -> (t: Vec<(String, (i64, i64))>)
    ensures
        distinct_keys(t@),
        forall|g: Seq<char>| #[trigger] lookup(t@, g) == if strs(names@).contains(g) {
            Some((0i64, 0i64))
        } else {
            None
        },
{
    let mut t: Vec<(String, (i64, i64))> = Vec::new();
    let mut i: usize = 0;
    while i < names.len()
        invariant
            i <= names@.len(),
            distinct_keys(t@),
            forall|g: Seq<char>| #[trigger] lookup(t@, g) == if strs(names@).take(i as int).contains(g) {
                Some((0i64, 0i64))
            } else {
                None
            },
        decreases names@.len() - i,
    {
        let ghost before = t@;
        put(&mut t, names[i].as_str(), (0, 0));
        proof {
            let ns = strs(names@);
            let a = ns.take(i + 1);
            let b = ns.take(i as int);
            assert(a =~= b.push(names@[i as int]@));
            assert forall|g: Seq<char>| #[trigger] lookup(t@, g) == if a.contains(g) {
                Some((0i64, 0i64))
            } else {
                None
            } by {
                if a.contains(g) && g != names@[i as int]@ {
                    let j = choose|j: int| 0 <= j < a.len() && #[trigger] a[j] == g;
                    assert(b[j] == g);
                }
                if b.contains(g) {
                    let j = choose|j: int| 0 <= j < b.len() && #[trigger] b[j] == g;
                    assert(a[j] == g);
                }
                if g == names@[i as int]@ {
                    assert(a[i as int] == g);
                }
            }
        }
        i = i + 1;
    }
    assert(strs(names@).take(names@.len() as int) =~= strs(names@));
    t
}

/// Follows a download report: the database that the file belongs to, if
/// it is one of the table's, takes the reported bytes.
pub fn on_db_download(t: &mut Vec<(String, (i64, i64))>, filename: &str, ev: DbEvent)
    requires
        distinct_keys(old(t)@),
    ensures
        distinct_keys(final(t)@),
        forall|g: Seq<char>| #[trigger] lookup(final(t)@, g) == if g == repo_of_file(filename@) && lookup(
            old(t)@,
            g,
        ) is Some {
            Some(db_step(lookup(old(t)@, g)->0, ev))
        } else {
            lookup(old(t)@, g)
        },
{
    let repo = repo_of_db_file(filename);
    match crate::keyed::get_copy(t, repo.as_str()) {
        Some(b) => {
            let nb = match ev {
                DbEvent::Progress { downloaded, total } => (downloaded, total),
                DbEvent::Completed { total } => (total, total),
                DbEvent::Other => b,
            };
            put(t, repo.as_str(), nb);
        },
        None => {},
    }
}

/// The size shown for a database: what was downloaded, or `0 B`.
pub open spec fn db_size_spec(dl: i64) -> Seq<char> {
    if dl > 0 {
        format_size_spec(dl)
    } else {
        "0 B"@
    }
}

/// The widest of some texts, by display width; zero for none.
pub open spec fn widest(ls: Seq<Seq<char>>) -> nat
    decreases ls.len(),
{
    if ls.len() == 0 {
        0
    } else {
        let w = widest(ls.drop_last());
        let d = display_width_spec(ls.last());
        if d > w {
            d
        } else {
            w
        }
    }
}

/// The names of the databases, sorted, their sizes, and the widths of the
/// name and size columns.
pub struct DbTable {
    pub names: Vec<String>,
    pub sizes: Vec<String>,
    pub name_width: usize,
    pub size_width: usize,
}

/// The sort keys of some names: each name alone.
pub open spec fn name_keys(names: Seq<String>) -> Seq<Seq<Seq<char>>> {
    Seq::new(names.len(), |j: int| seq![names[j]@])
}

/// The downloaded bytes of a database, where the table has them.
pub open spec fn downloaded_of(t: Seq<(String, (i64, i64))>, name: Seq<char>) -> i64 {
    match lookup(t, name) {
        Some(b) => b.0,
        None => 0,
    }
}

/// The widest of some texts, by display width.
fn widest_of(v: &Vec<String>) -> (r: usize)
    ensures
        r == widest(strs(v@)),
{
    let ghost sv = strs(v@);
    let mut r: usize = 0;
    let mut i: usize = 0;
    assert(sv.take(0) =~= Seq::<Seq<char>>::empty());
    while i < v.len()
        invariant
            sv == strs(v@),
            i <= v@.len(),
            r == widest(sv.take(i as int)),
        decreases v@.len() - i,
    {
        let d = display_width(v[i].as_str());
        assert(sv.take(i + 1).drop_last() =~= sv.take(i as int));
        if d > r {
            r = d;
        }
        i = i + 1;
    }
    assert(sv.take(v@.len() as int) =~= sv);
    r
}

/// The table for some databases: their names sorted, the size downloaded of
/// each, the name column at least one wide, and the size column three wide
/// where there are no sizes.
pub fn db_table(names: &Vec<String>, t: &Vec<(String, (i64, i64))>) -> (r: DbTable)
    requires
        distinct_keys(t@),
    ensures
        r.names@.len() == names@.len(),
        forall|i: int| 0 <= i < names@.len() ==> #[trigger] r.names@[i]@ == names@[sorted_indices(
            name_keys(names@),
            names@.len() as nat,
        )[i]]@,
        r.sizes@.len() == names@.len(),
        forall|i: int| 0 <= i < names@.len() ==> #[trigger] r.sizes@[i]@ == db_size_spec(
            downloaded_of(t@, r.names@[i]@),
        ),
        r.name_width == if widest(strs(r.names@)) > 1 { widest(strs(r.names@)) } else { 1 },
        r.size_width == if names@.len() == 0 { 3 } else { widest(strs(r.sizes@)) },
{
    let mut keys: Vec<Vec<Vec<char>>> = Vec::new();
    let mut i: usize = 0;
    while i < names.len()
        invariant
            i <= names@.len(),
            keys@.len() == i,
            forall|j: int| 0 <= j < i ==> #[trigger] keys_view(keys@)[j] == seq![names@[j]@],
        decreases names@.len() - i,
    {
        let k = key1(names[i].as_str());
        let ghost before = keys@;
        keys.push(k);
        proof {
            assert forall|j: int| 0 <= j < i + 1 implies #[trigger] keys_view(keys@)[j] == seq![names@[j]@] by {
                if j < i {
                    assert(keys_view(before)[j] == seq![names@[j]@]);
                    assert(keys@[j] == before[j]);
                }
            }
        }
        i = i + 1;
    }
    proof {
        assert(keys_view(keys@) =~= name_keys(names@));
    }
    let order = sort_indices(&keys);
    let mut sorted: Vec<String> = Vec::new();
    let mut sizes: Vec<String> = Vec::new();
    let mut i: usize = 0;
    while i < order.len()
        invariant
            order@.len() == names@.len(),
            forall|j: int| 0 <= j < order@.len() ==> order@[j] as int == #[trigger] sorted_indices(
                keys_view(keys@),
                keys@.len() as nat,
            )[j],
            keys@.len() == names@.len(),
            keys_view(keys@) == name_keys(names@),
            i <= order@.len(),
            sorted@.len() == i,
            sizes@.len() == i,
            forall|j: int| 0 <= j < i ==> #[trigger] sorted@[j]@ == names@[sorted_indices(
                name_keys(names@),
                names@.len() as nat,
            )[j]]@,
            forall|j: int| 0 <= j < i ==> #[trigger] sizes@[j]@ == db_size_spec(downloaded_of(t@, sorted@[j]@)),
            distinct_keys(t@),
        decreases order@.len() - i,
    {
        proof {
            crate::sort::lemma_sorted_len(keys_view(keys@), keys@.len() as nat);
        }
        let k = order[i];
        assert(0 <= sorted_indices(keys_view(keys@), keys@.len() as nat)[i as int] < names@.len());
        let name = copy_str(names[k].as_str());
        let dl = match crate::keyed::get_copy(t, name.as_str()) {
            Some(b) => b.0,
            None => 0,
        };
        let size = if dl > 0 { format_size(dl) } else { copy_str("0 B") };
        sorted.push(name);
        sizes.push(size);
        i = i + 1;
    }
    let nw = widest_of(&sorted);
    let sw = if sorted.len() == 0 { 3 } else { widest_of(&sizes) };
    DbTable { names: sorted, sizes, name_width: if nw > 1 { nw } else { 1 }, size_width: sw }
}

/// The name column of a row: the name padded to `name_width`, between spaces.
pub open spec fn name_cell(name: Seq<char>, name_width: nat) -> Seq<char> {
    " "@ + name + repeat(' ', sat_sub(name_width as int, display_width_spec(name) as int)) + " "@
}

/// The width of the bar in a row of a table `w` columns wide: what is left
/// beside the name and the size, at most a quarter of the width and 50, at
/// least 10.
pub open spec fn db_bar_columns(name: Seq<char>, name_width: nat, size_width: nat, w: nat) -> nat {
    let max_bar: nat = if w / 4 < 50 { w / 4 } else { 50 };
    let room = sat_sub(
        w as int,
        (display_width_spec(name_cell(name, name_width)) + 3 + size_width + 2) as int,
    );
    let b = if room < max_bar { room } else { max_bar };
    if b > 10 { b } else { 10 }
}

/// A row of the table: the name, then a bar with `filled` of its cells full
/// and the size, right-aligned to the width `w` with at least two spaces.
pub open spec fn db_row_spec(
    name: Seq<char>,
    size: Seq<char>,
    name_width: nat,
    size_width: nat,
    w: nat,
    filled: nat,
) -> Seq<char> {
    let cell = name_cell(name, name_width);
    let bar_w = db_bar_columns(name, name_width, size_width, w);
    let bar = repeat('\u{2501}', filled) + repeat('\u{2500}', sat_sub(bar_w as int, filled as int));
    let block = "["@ + bar + "] "@ + pad_left(size, size_width) + " "@;
    let gap = sat_sub(w as int, (display_width_spec(cell) + display_width_spec(block)) as int);
    cell + repeat(' ', if gap > 2 { gap } else { 2 }) + block
}

/// The name column of a row.
fn name_cell_text(name: &str, name_width: usize) -> (r: String)
    ensures
        r@ == name_cell(name@, name_width as nat),
{
    let mut r = copy_str(" ");
    r.append(name);
    let d = display_width(name);
    push_repeat(&mut r, ' ', if name_width > d { name_width - d } else { 0 });
    r.append(" ");
    r
}

/// The width of the bar in a row of a table `w` columns wide.
pub fn db_bar_width(name: &str, name_width: usize, size_width: usize, w: usize) -> (r: usize)
    ensures
        r == db_bar_columns(name@, name_width as nat, size_width as nat, w as nat),
{
    let cell = name_cell_text(name, name_width);
    let max_bar = if w / 4 < 50 { w / 4 } else { 50 };
    let used: u128 = display_width(cell.as_str()) as u128 + 3 + size_width as u128 + 2;
    let room: u128 = if (w as u128) > used { w as u128 - used } else { 0 };
    let b: usize = if room < max_bar as u128 { room as usize } else { max_bar };
    if b > 10 { b } else { 10 }
}

/// A row of the table, with `filled` cells of the bar full.
pub fn db_row(
    name: &str,
    size: &str,
    name_width: usize,
    size_width: usize,
    w: usize,
    filled: usize,
) -> (r: String)
    ensures
        r@ == db_row_spec(name@, size@, name_width as nat, size_width as nat, w as nat, filled as nat),
{
    let cell = name_cell_text(name, name_width);
    let bar_w = db_bar_width(name, name_width, size_width, w);
    let mut block = copy_str("[");
    push_repeat(&mut block, '\u{2501}', filled);
    push_repeat(&mut block, '\u{2500}', if bar_w > filled { bar_w - filled } else { 0 });
    block.append("] ");
    block.append(pad_left_str(size, size_width).as_str());
    block.append(" ");
    let ghost bar_spec = repeat('\u{2501}', filled as nat) + repeat('\u{2500}', sat_sub(bar_w as int, filled as int));
    assert(block@ =~= "["@ + bar_spec + "] "@ + pad_left(size@, size_width as nat) + " "@);
    let used: u128 = display_width(cell.as_str()) as u128 + display_width(block.as_str()) as u128;
    let gap: u128 = if (w as u128) > used { w as u128 - used } else { 0 };
    let spaces: usize = if gap > 2 { gap as usize } else { 2 };
    assert(spaces == (if sat_sub(w as int, (display_width_spec(cell@) + display_width_spec(block@)) as int) > 2 { sat_sub(w as int, (display_width_spec(cell@) + display_width_spec(block@)) as int) } else { 2 }));
    let mut r = cell;
    push_repeat(&mut r, ' ', spaces);
    r.append(block.as_str());
    r
}

} // verus!
