//! Packages as the commands show them: search, list, details, the cache and
//! orphans.
//!
//! A package is held as the plain values that libalpm reports for it.
use vstd::prelude::*;
use crate::format::{format_size, format_size_spec};
use crate::sort::{as_ints, key1, key2, key_view, keys_view, sort_indices, sorted_indices};
use crate::style::{bold, color, colored, green, styled, yellow, Color};
use crate::text::{
    cat, contains, contains_chars, copy_str, dec, ends_with, has_char, has_suffix, lex_lt,
    lemma_strs_push, str_eq, strs, to_chars, trim, trim_str, u64_to_dec,
};

verus! {

/// Why a package is installed.
#[derive(Debug, Clone, Copy, PartialEq, Eq, Structural)]
pub enum PackageReason {
    /// Installed on request.
    Explicit,
    /// Installed as a dependency of another package.
    Depend,
}

/// A package of a database.
pub struct Package {
    pub name: String,
    pub version: String,
    pub desc: Option<String>,
    /// The database that holds it, where there is one.
    pub db: Option<String>,
    /// The size of the package file.
    pub size: i64,
    /// The installed size.
    pub isize: i64,
    /// What is left to download of it.
    pub download_size: i64,
    pub reason: PackageReason,
    /// The names of its dependencies.
    pub depends: Vec<String>,
    /// The names of the installed packages that depend on it.
    pub required_by: Vec<String>,
}

/// What `str::to_lowercase` gives for a string.
pub uninterp spec fn lowercase(s: Seq<char>) -> Seq<char>;

/// `str::to_lowercase`: full Unicode lower-casing, whose tables are not
/// written out here; its result is named.
#[verifier::external_body]
pub(crate) fn to_lower(s: &str) -> (r: String)
    ensures
        r@ == lowercase(s@),
{
    s.to_lowercase()
}

/// The description of a package, or nothing.
pub open spec fn desc_text(p: Package) -> Seq<char> {
    match p.desc {
        Some(d) => d@,
        None => Seq::empty(),
    }
}

/// A package matches a search query (already lower-cased) by its name or
/// description, whatever their case.
pub open spec fn search_hit(p: Package, q: Seq<char>) -> bool {
    contains(lowercase(p.name@), q) || contains(lowercase(desc_text(p)), q)
}

/// The indices of `pkgs` below `n` that match `q`, in order.
pub open spec fn hits(pkgs: Seq<Package>, q: Seq<char>, n: nat) -> Seq<int>
    decreases n,
{
    if n == 0 {
        Seq::empty()
    } else if n > pkgs.len() {
        hits(pkgs, q, (n - 1) as nat)
    } else if search_hit(pkgs[n - 1], q) {
        hits(pkgs, q, (n - 1) as nat).push(n - 1)
    } else {
        hits(pkgs, q, (n - 1) as nat)
    }
}

/// `idx` ordered by the names of the packages they point at; equal names
/// keep their order.
pub open spec fn by_name(pkgs: Seq<Package>, idx: Seq<int>) -> Seq<int> {
    let keys = Seq::new(idx.len(), |i: int| seq![pkgs[idx[i]].name@]);
    let order = sorted_indices(keys, idx.len());
    Seq::new(idx.len(), |i: int| idx[order[i]])
}

/// The result of a search: the packages that match, ordered by name.
pub open spec fn search_spec(pkgs: Seq<Package>, query: Seq<char>) -> Result<Seq<int>, Seq<char>> {
    if query.len() == 0 {
        Err("no search terms specified"@)
    } else {
        Ok(by_name(pkgs, hits(pkgs, lowercase(query), pkgs.len())))
    }
}

/// Orders indices of packages by name; equal names keep their order.
pub fn sort_by_name(pkgs: &Vec<Package>, idx: &Vec<usize>) -> (r: Vec<usize>)
    requires
        forall|i: int| 0 <= i < idx@.len() ==> #[trigger] idx@[i] < pkgs@.len(),
    ensures
        r@.len() == idx@.len(),
        forall|i: int|
            0 <= i < r@.len() ==> r@[i] as int == #[trigger] by_name(
                pkgs@,
                as_ints(idx@),
            )[i],
{
    let ghost iv = as_ints(idx@);
    let mut keys: Vec<Vec<Vec<char>>> = Vec::new();
    let mut i: usize = 0;
    while i < idx.len()
        invariant
            iv == as_ints(idx@),
            forall|i: int| 0 <= i < idx@.len() ==> #[trigger] idx@[i] < pkgs@.len(),
            i <= idx@.len(),
            keys@.len() == i,
            forall|k: int| 0 <= k < i ==> #[trigger] key_view(keys@[k]) == seq![pkgs@[iv[k]].name@],
        decreases idx@.len() - i,
    {
        keys.push(key1(pkgs[idx[i]].name.as_str()));
        i = i + 1;
    }
    let ghost kv = Seq::new(iv.len(), |k: int| seq![pkgs@[iv[k]].name@]);
    assert(keys_view(keys@) =~= kv);
    let order = sort_indices(&keys);
    proof {
        crate::sort::lemma_sorted_len(kv, iv.len());
    }
    let mut r: Vec<usize> = Vec::new();
    let mut j: usize = 0;
    while j < order.len()
        invariant
            iv == as_ints(idx@),
            kv == Seq::new(iv.len(), |k: int| seq![pkgs@[iv[k]].name@]),
            order@.len() == idx@.len(),
            forall|i: int| 0 <= i < order@.len() ==> order@[i] as int == #[trigger] sorted_indices(kv, iv.len())[i],
            forall|i: int| 0 <= i < iv.len() ==> 0 <= #[trigger] sorted_indices(kv, iv.len())[i] < iv.len(),
            j <= order@.len(),
            r@.len() == j,
            forall|i: int| 0 <= i < j ==> r@[i] as int == #[trigger] by_name(pkgs@, iv)[i],
        decreases order@.len() - j,
    {
        assert(order@[j as int] as int == sorted_indices(kv, iv.len())[j as int]);
        r.push(idx[order[j]]);
        j = j + 1;
    }
    r
}

/// Searches packages by name and description, case-insensitively; the
/// indices of the matching packages, ordered by name.
pub fn search_results(pkgs: &Vec<Package>, query: &str) -> (r: Result<Vec<usize>, String>)
    ensures
        match r {
            Ok(v) => search_spec(pkgs@, query@) == Ok::<Seq<int>, Seq<char>>(
                as_ints(v@),
            ),
            Err(e) => search_spec(pkgs@, query@) == Err::<Seq<int>, Seq<char>>(e@),
        },
{
    if query.is_empty() {
        return Err(copy_str("no search terms specified"));
    }
    let q = to_lower(query);
    let qv = to_chars(q.as_str());
    let mut idx: Vec<usize> = Vec::new();
    let mut i: usize = 0;
    while i < pkgs.len()
        invariant
            qv@ == lowercase(query@),
            i <= pkgs@.len(),
            as_ints(idx@) == hits(pkgs@, lowercase(query@), i as nat),
            forall|k: int| 0 <= k < idx@.len() ==> #[trigger] idx@[k] < i,
        decreases pkgs@.len() - i,
    {
        let p = &pkgs[i];
        let name_hit = contains_chars(&to_chars(to_lower(p.name.as_str()).as_str()), &qv);
        let desc_hit = match &p.desc {
            Some(d) => contains_chars(&to_chars(to_lower(d.as_str()).as_str()), &qv),
            None => {
                let e = to_lower("");
                proof {
                    reveal_strlit("");
                    assert(""@ =~= Seq::<char>::empty());
                }
                contains_chars(&to_chars(e.as_str()), &qv)
            },
        };
        assert(desc_text(pkgs@[i as int]) == match pkgs@[i as int].desc { Some(d) => d@, None => Seq::<char>::empty() });
        assert(search_hit(pkgs@[i as int], lowercase(query@)) == (name_hit || desc_hit));
        if name_hit || desc_hit {
            assert(idx@.push(i).map_values(|x: usize| x as int) =~= as_ints(idx@).push(i as int));
            idx.push(i);
        }
        i = i + 1;
    }
    let r = sort_by_name(pkgs, &idx);
    assert(as_ints(r@) =~= by_name(pkgs@, as_ints(idx@)));
    Ok(r)
}

/// The lines that show one search result.
pub open spec fn search_entry_spec(p: Package, installed: bool, plain: bool) -> Seq<Seq<char>> {
    let repo = styled(
        match p.db {
            Some(d) => d@,
            None => "any"@,
        },
        "\x1b[1m"@,
        plain,
    );
    let tag = if installed {
        " "@ + colored("[installed]"@, Color::Yellow, plain)
    } else {
        Seq::empty()
    };
    let head = repo + "/"@ + colored(p.name@, Color::Green, plain) + " "@ + colored(
        p.version@,
        Color::Blue,
        plain,
    ) + tag;
    let size = "  "@ + styled(format_size_spec(p.size), "\x1b[2m"@, plain);
    if desc_text(p).len() > 0 {
        seq![head, "  "@ + desc_text(p), size]
    } else {
        seq![head, size]
    }
}

/// The lines that show one search result.
pub fn search_entry(p: &Package, installed: bool, plain: bool) -> (r: Vec<String>)
    ensures
        strs(r@) == search_entry_spec(*p, installed, plain),
{
    let repo = match &p.db {
        Some(d) => bold(d.as_str(), plain),
        None => bold("any", plain),
    };
    let mut head = repo;
    head.append("/");
    head.append(color(p.name.as_str(), Color::Green, plain).as_str());
    head.append(" ");
    head.append(color(p.version.as_str(), Color::Blue, plain).as_str());
    if installed {
        head.append(" ");
        head.append(color("[installed]", Color::Yellow, plain).as_str());
    }
    proof {
        reveal_strlit("");
    }
    let size = cat("  ", crate::style::dim(format_size(p.size).as_str(), plain).as_str());
    let mut r: Vec<String> = Vec::new();
    r.push(head);
    let has_desc = match &p.desc {
        Some(d) => !d.as_str().is_empty(),
        None => false,
    };
    if has_desc {
        let d = match &p.desc {
            Some(d) => cat("  ", d.as_str()),
            None => String::new(),
        };
        r.push(d);
    }
    r.push(size);
    let ghost repo_v = styled(
        match &p.db {
            Some(d) => d@,
            None => "any"@,
        },
        "\x1b[1m"@,
        plain,
    );
    let ghost tag = if installed {
        " "@ + colored("[installed]"@, Color::Yellow, plain)
    } else {
        Seq::empty()
    };
    assert(head@ =~= repo_v + "/"@ + colored(p.name@, Color::Green, plain) + " "@ + colored(
        p.version@,
        Color::Blue,
        plain,
    ) + tag);
    assert(has_desc == (desc_text(*p).len() > 0));
    assert(strs(r@) =~= search_entry_spec(*p, installed, plain));
    r
}

/// The line that counts what a command found.
pub open spec fn found_line(n: nat, plain: bool) -> Seq<char> {
    colored("✓"@, Color::Green, plain) + " "@ + dec(n) + " "@ + (if n == 1 {
        "package"@
    } else {
        "package"@ + "s"@
    }) + " found."@
}

/// The count line of a search or list.
pub fn found(n: usize, plain: bool) -> (r: String)
    ensures
        r@ == found_line(n as nat, plain),
{
    let mut r = green("✓", plain);
    r.append(" ");
    r.append(u64_to_dec(n as u64).as_str());
    r.append(" ");
    r.append(crate::table::plural("package", n).as_str());
    r.append(" found.");
    r
}

/// A package name matches the patterns of the list command: there are none,
/// or one of them occurs in it, case aside.
pub open spec fn pattern_hit(name: Seq<char>, patterns: Seq<Seq<char>>) -> bool {
    patterns.len() == 0 || exists|i: int|
        0 <= i < patterns.len() && contains(lowercase(name), lowercase(#[trigger] patterns[i]))
}

/// Whether `name` matches the patterns.
pub fn matches_patterns(name: &str, patterns: &Vec<String>) -> (r: bool)
    ensures
        r == pattern_hit(name@, strs(patterns@)),
{
    if patterns.len() == 0 {
        return true;
    }
    let n = to_chars(to_lower(name).as_str());
    let mut i: usize = 0;
    while i < patterns.len()
        invariant
            n@ == lowercase(name@),
            i <= patterns@.len(),
            forall|k: int| 0 <= k < i ==> !contains(lowercase(name@), lowercase(#[trigger] strs(patterns@)[k])),
        decreases patterns@.len() - i,
    {
        let p = to_chars(to_lower(patterns[i].as_str()).as_str());
        assert(strs(patterns@)[i as int] == patterns@[i as int]@);
        if contains_chars(&n, &p) {
            return true;
        }
        i = i + 1;
    }
    false
}

/// A line of the list command.
pub open spec fn list_line(repo: Seq<char>, p: Package, plain: bool) -> Seq<char> {
    " "@ + styled(repo, "\x1b[1m"@, plain) + "/"@ + colored(p.name@, Color::Green, plain) + " "@
        + colored(p.version@, Color::Blue, plain)
}

/// The entries (index and repository) that the list command shows, before
/// they are ordered: the packages below `n` that match the patterns and have
/// a repository; `all` lists dependencies too, `upgradable` lists the
/// packages that have a newer version, with the repository of that version.
pub open spec fn list_candidates(
    pkgs: Seq<Package>,
    repos: Seq<Option<Seq<char>>>,
    all: bool,
    upgradable: bool,
    patterns: Seq<Seq<char>>,
    n: nat,
) -> Seq<(int, Seq<char>)>
    decreases n,
{
    if n == 0 {
        Seq::empty()
    } else {
        let rest = list_candidates(pkgs, repos, all, upgradable, patterns, (n - 1) as nat);
        let i = n - 1;
        if i >= pkgs.len() || i >= repos.len() || !pattern_hit(pkgs[i].name@, patterns) {
            rest
        } else if upgradable {
            match repos[i] {
                Some(r) => rest.push((i, r)),
                None => rest,
            }
        } else if !all && pkgs[i].reason != PackageReason::Explicit {
            rest
        } else {
            rest.push(
                (
                    i,
                    match repos[i] {
                        Some(r) => r,
                        None => "aur"@,
                    },
                ),
            )
        }
    }
}

/// The view of a list of optional strings.
pub open spec fn opt_strs(v: Seq<Option<String>>) -> Seq<Option<Seq<char>>> {
    v.map_values(|o: Option<String>| match o { Some(s) => Some(s@), None => None })
}

/// The entries of the list command ordered by repository, then name.
pub open spec fn list_order(pkgs: Seq<Package>, c: Seq<(int, Seq<char>)>) -> Seq<(int, Seq<char>)> {
    let keys = Seq::new(c.len(), |i: int| seq![c[i].1, pkgs[c[i].0].name@]);
    let order = sorted_indices(keys, c.len());
    Seq::new(c.len(), |i: int| c[order[i]])
}

/// What the list command prints: on standard output, and on standard error.
pub open spec fn list_spec(
    pkgs: Seq<Package>,
    repos: Seq<Option<Seq<char>>>,
    all: bool,
    upgradable: bool,
    patterns: Seq<Seq<char>>,
    plain: bool,
) -> (Seq<Seq<char>>, Seq<Seq<char>>) {
    let c = list_order(pkgs, list_candidates(pkgs, repos, all, upgradable, patterns, pkgs.len()));
    if c.len() == 0 {
        if upgradable {
            (seq![" "@ + colored("✓"@, Color::Green, plain) + " all packages are up to date"@], Seq::empty())
        } else {
            (Seq::empty(), seq![" "@ + colored("warn"@, Color::Yellow, plain) + ": no packages found"@])
        }
    } else {
        (
            Seq::new(c.len(), |i: int| list_line(c[i].1, pkgs[c[i].0], plain)).push(
                " "@ + found_line(c.len(), plain),
            ),
            Seq::empty(),
        )
    }
}

/// Each entry kept for listing is a package below `n` whose name matches the
/// patterns; an upgradable entry carries the repository of its newer version.
proof fn lemma_candidates_match(
    pkgs: Seq<Package>,
    repos: Seq<Option<Seq<char>>>,
    all: bool,
    upgradable: bool,
    patterns: Seq<Seq<char>>,
    n: nat,
)
    ensures
        forall|j: int|
            #![trigger list_candidates(pkgs, repos, all, upgradable, patterns, n)[j]]
            0 <= j < list_candidates(pkgs, repos, all, upgradable, patterns, n).len() ==> {
                let e = list_candidates(pkgs, repos, all, upgradable, patterns, n)[j];
                &&& 0 <= e.0 < pkgs.len()
                &&& pattern_hit(pkgs[e.0].name@, patterns)
                &&& upgradable ==> e.0 < repos.len() && repos[e.0] == Some(e.1)
            },
    decreases n,
{
    if n > 0 {
        lemma_candidates_match(pkgs, repos, all, upgradable, patterns, (n - 1) as nat);
    }
}

/// Two-field keys compare by their first field, then by their second.
proof fn lemma_key2_lt(a: Seq<char>, b: Seq<char>, c: Seq<char>, d: Seq<char>)
    ensures
        crate::sort::key_lt(seq![a, b], seq![c, d]) == (lex_lt(a, c) || (a == c && lex_lt(b, d))),
{
    let x = seq![a, b];
    let y = seq![c, d];
    assert(x.drop_first() =~= seq![b]);
    assert(y.drop_first() =~= seq![d]);
    assert(seq![b].drop_first() =~= Seq::<Seq<char>>::empty());
    assert(seq![d].drop_first() =~= Seq::<Seq<char>>::empty());
    reveal_with_fuel(crate::sort::key_lt, 3);
    if a == c && !lex_lt(a, c) {
        assert(crate::sort::key_lt(x, y) == crate::sort::key_lt(seq![b], seq![d]));
    }
}

/// The list command shows its entries by repository, then by name: no
/// entry comes after one of a later repository, nor after one of the same
/// repository with a later name.
pub proof fn lemma_list_order_sorted(pkgs: Seq<Package>, c: Seq<(int, Seq<char>)>)
    ensures
        list_order(pkgs, c).len() == c.len(),
        forall|i: int, j: int|
            0 <= i < j < c.len() ==> !lex_lt((#[trigger] list_order(pkgs, c)[j]).1, (#[trigger] list_order(pkgs, c)[i]).1)
                && (list_order(pkgs, c)[j].1 == list_order(pkgs, c)[i].1 ==> !lex_lt(
                pkgs[list_order(pkgs, c)[j].0].name@,
                pkgs[list_order(pkgs, c)[i].0].name@,
            )),
{
    let keys = Seq::new(c.len(), |i: int| seq![c[i].1, pkgs[c[i].0].name@]);
    assert forall|i: int, j: int| 0 <= i < keys.len() && 0 <= j < keys.len() implies #[trigger] keys[i].len()
        == #[trigger] keys[j].len() by {}
    crate::sort::lemma_sorted_indices(keys, c.len());
    let order = sorted_indices(keys, c.len());
    let o = list_order(pkgs, c);
    assert forall|i: int, j: int| 0 <= i < j < c.len() implies !lex_lt((#[trigger] o[j]).1, (#[trigger] o[i]).1)
        && (o[j].1 == o[i].1 ==> !lex_lt(pkgs[o[j].0].name@, pkgs[o[i].0].name@)) by {
        assert(o[i] == c[order[i]]);
        assert(o[j] == c[order[j]]);
        assert(!crate::sort::key_lt(keys[order[j]], keys[order[i]]));
        lemma_key2_lt(o[j].1, pkgs[o[j].0].name@, o[i].1, pkgs[o[i].0].name@);
    }
}

/// Packages put in order of name (search results, the packages asked for)
/// come in order of name: none after one with a later name, and each is
/// one of the given indices.
pub proof fn lemma_by_name_sorted(pkgs: Seq<Package>, idx: Seq<int>)
    ensures
        by_name(pkgs, idx).len() == idx.len(),
        forall|i: int, j: int|
            0 <= i < j < idx.len() ==> !lex_lt(
                pkgs[#[trigger] by_name(pkgs, idx)[j]].name@,
                pkgs[#[trigger] by_name(pkgs, idx)[i]].name@,
            ),
        forall|i: int| 0 <= i < idx.len() ==> exists|k: int| 0 <= k < idx.len() && #[trigger] by_name(pkgs, idx)[i] == idx[k],
{
    let keys = Seq::new(idx.len(), |i: int| seq![pkgs[idx[i]].name@]);
    assert forall|i: int, j: int| 0 <= i < keys.len() && 0 <= j < keys.len() implies #[trigger] keys[i].len()
        == #[trigger] keys[j].len() by {}
    crate::sort::lemma_sorted_indices(keys, idx.len());
    let order = sorted_indices(keys, idx.len());
    let b = by_name(pkgs, idx);
    assert forall|i: int, j: int| 0 <= i < j < idx.len() implies !lex_lt(
        pkgs[#[trigger] b[j]].name@,
        pkgs[#[trigger] b[i]].name@,
    ) by {
        assert(!crate::sort::key_lt(keys[order[j]], keys[order[i]]));
        let x = keys[order[j]];
        let y = keys[order[i]];
        assert(x.drop_first() =~= Seq::<Seq<char>>::empty());
        assert(y.drop_first() =~= Seq::<Seq<char>>::empty());
        reveal_with_fuel(crate::sort::key_lt, 2);
    }
    assert forall|i: int| 0 <= i < idx.len() implies exists|k: int| 0 <= k < idx.len() && #[trigger] b[i] == idx[k] by {
        assert(b[i] == idx[order[i]]);
    }
}

/// `line` is the list line of an installed package whose name matches the
/// patterns; in the upgradable listing, with the repository of its newer
/// version.
pub open spec fn lists_match(
    line: Seq<char>,
    pkgs: Seq<Package>,
    repos: Seq<Option<Seq<char>>>,
    upgradable: bool,
    patterns: Seq<Seq<char>>,
    plain: bool,
) -> bool {
    exists|k: int, r: Seq<char>|
        #![trigger list_line(r, pkgs[k], plain)]
        {
            &&& 0 <= k < pkgs.len()
            &&& pattern_hit(pkgs[k].name@, patterns)
            &&& line == list_line(r, pkgs[k], plain)
            &&& upgradable ==> k < repos.len() && repos[k] == Some(r)
        }
}

/// Every package that the list command shows, in each of its modes (the
/// upgradable listing too), is an installed package whose name matches the
/// patterns, shown with its repository; in the upgradable listing that is
/// the repository of its newer version.
pub proof fn lemma_list_shows_matches(
    pkgs: Seq<Package>,
    repos: Seq<Option<Seq<char>>>,
    all: bool,
    upgradable: bool,
    patterns: Seq<Seq<char>>,
    plain: bool,
)
    ensures
        forall|i: int|
            0 <= i < list_spec(pkgs, repos, all, upgradable, patterns, plain).0.len() - 1 ==> lists_match(
                #[trigger] list_spec(pkgs, repos, all, upgradable, patterns, plain).0[i],
                pkgs,
                repos,
                upgradable,
                patterns,
                plain,
            ),
{
    let cands = list_candidates(pkgs, repos, all, upgradable, patterns, pkgs.len());
    let c = list_order(pkgs, cands);
    let keys = Seq::new(cands.len(), |i: int| seq![cands[i].1, pkgs[cands[i].0].name@]);
    crate::sort::lemma_sorted_len(keys, cands.len());
    lemma_candidates_match(pkgs, repos, all, upgradable, patterns, pkgs.len());
    let out = list_spec(pkgs, repos, all, upgradable, patterns, plain).0;
    assert forall|i: int| 0 <= i < out.len() - 1 implies lists_match(
        #[trigger] out[i],
        pkgs,
        repos,
        upgradable,
        patterns,
        plain,
    ) by {
        assert(c.len() > 0);
        let o = sorted_indices(keys, cands.len())[i];
        assert(0 <= o < cands.len());
        assert(c[i] == cands[o]);
        let e = cands[o];
        assert(out[i] == list_line(e.1, pkgs[e.0], plain));
    }
}

/// The output of the list command for the installed packages `pkgs`.
/// `repos[i]` is, for the upgradable listing, the repository of a newer
/// version of `pkgs[i]` (the empty string for one without a database);
/// otherwise the first sync database that holds a package of that name.
pub fn list_lines(
    pkgs: &Vec<Package>,
    repos: &Vec<Option<String>>,
    all: bool,
    upgradable: bool,
    patterns: &Vec<String>,
    plain: bool,
) -> (r: (Vec<String>, Vec<String>))
    ensures
        (strs(r.0@), strs(r.1@)) == list_spec(pkgs@, opt_strs(repos@), all, upgradable, strs(patterns@), plain),
{
    let ghost rv = opt_strs(repos@);
    let ghost pv = strs(patterns@);
    let mut cands: Vec<(usize, String)> = Vec::new();
    let mut i: usize = 0;
    while i < pkgs.len()
        invariant
            rv == opt_strs(repos@),
            pv == strs(patterns@),
            i <= pkgs@.len(),
            cands@.map_values(|c: (usize, String)| (c.0 as int, c.1@)) == list_candidates(pkgs@, rv, all, upgradable, pv, i as nat),
            forall|k: int| 0 <= k < cands@.len() ==> #[trigger] cands@[k].0 < pkgs@.len(),
        decreases pkgs@.len() - i,
    {
        let ghost before = cands@.map_values(|c: (usize, String)| (c.0 as int, c.1@));
        if i < repos.len() && matches_patterns(pkgs[i].name.as_str(), patterns) {
            assert(rv[i as int] == match repos@[i as int] { Some(s) => Some(s@), None => None::<Seq<char>> });
            if upgradable {
                match &repos[i] {
                    Some(r) => {
                        let e = (i, r.clone());
                        assert(cands@.push(e).map_values(|c: (usize, String)| (c.0 as int, c.1@)) =~= before.push((i as int, r@)));
                        cands.push(e);
                    },
                    None => {},
                }
            } else if !all && pkgs[i].reason != PackageReason::Explicit {
            } else {
                let repo = match &repos[i] {
                    Some(r) => r.clone(),
                    None => copy_str("aur"),
                };
                let e = (i, repo);
                assert(cands@.push(e).map_values(|c: (usize, String)| (c.0 as int, c.1@)) =~= before.push((i as int, repo@)));
                cands.push(e);
            }
        }
        i = i + 1;
    }
    let ghost cv = cands@.map_values(|c: (usize, String)| (c.0 as int, c.1@));
    let mut keys: Vec<Vec<Vec<char>>> = Vec::new();
    let mut k: usize = 0;
    while k < cands.len()
        invariant
            cv == cands@.map_values(|c: (usize, String)| (c.0 as int, c.1@)),
            forall|k: int| 0 <= k < cands@.len() ==> #[trigger] cands@[k].0 < pkgs@.len(),
            k <= cands@.len(),
            keys@.len() == k,
            forall|j: int| 0 <= j < k ==> #[trigger] key_view(keys@[j]) == seq![cv[j].1, pkgs@[cv[j].0].name@],
        decreases cands@.len() - k,
    {
        keys.push(key2(cands[k].1.as_str(), pkgs[cands[k].0].name.as_str()));
        k = k + 1;
    }
    let ghost kv = Seq::new(cv.len(), |i: int| seq![cv[i].1, pkgs@[cv[i].0].name@]);
    assert(keys_view(keys@) =~= kv);
    let order = sort_indices(&keys);
    proof {
        crate::sort::lemma_sorted_len(kv, cv.len());
    }
    let ghost lo = list_order(pkgs@, cv);
    let mut out: Vec<String> = Vec::new();
    let mut err: Vec<String> = Vec::new();
    if cands.len() == 0 {
        if upgradable {
            let mut l = cat(" ", green("✓", plain).as_str());
            l.append(" all packages are up to date");
            out.push(l);
            assert(strs(out@) =~= seq![l@]);
        } else {
            let mut l = cat(" ", yellow("warn", plain).as_str());
            l.append(": no packages found");
            err.push(l);
            assert(strs(err@) =~= seq![l@]);
        }
        assert(strs(out@).len() == out@.len());
        return (out, err);
    }
    let mut j: usize = 0;
    while j < order.len()
        invariant
            cv == cands@.map_values(|c: (usize, String)| (c.0 as int, c.1@)),
            kv == Seq::new(cv.len(), |i: int| seq![cv[i].1, pkgs@[cv[i].0].name@]),
            lo == list_order(pkgs@, cv),
            forall|k: int| 0 <= k < cands@.len() ==> #[trigger] cands@[k].0 < pkgs@.len(),
            order@.len() == cands@.len(),
            forall|i: int| 0 <= i < order@.len() ==> order@[i] as int == #[trigger] sorted_indices(kv, cv.len())[i],
            forall|i: int| 0 <= i < cv.len() ==> 0 <= #[trigger] sorted_indices(kv, cv.len())[i] < cv.len(),
            cv.len() == cands@.len(),
            j <= order@.len(),
            strs(out@) == Seq::new(j as nat, |i: int| list_line(lo[i].1, pkgs@[lo[i].0], plain)),
        decreases order@.len() - j,
    {
        assert(order@[j as int] as int == sorted_indices(kv, cv.len())[j as int]);
        assert(order@[j as int] < cands@.len());
        let c = &cands[order[j]];
        assert(c.0 < pkgs@.len());
        let p = &pkgs[c.0];
        let mut l = cat(" ", bold(c.1.as_str(), plain).as_str());
        l.append("/");
        l.append(color(p.name.as_str(), Color::Green, plain).as_str());
        l.append(" ");
        l.append(color(p.version.as_str(), Color::Blue, plain).as_str());
        assert(lo[j as int] == cv[order@[j as int] as int]);
        proof {
            lemma_strs_push(out@, l);
        }
        out.push(l);
        assert(strs(out@) =~= Seq::new((j + 1) as nat, |i: int| list_line(lo[i].1, pkgs@[lo[i].0], plain)));
        j = j + 1;
    }
    let last = cat(" ", found(cands.len(), plain).as_str());
    proof {
        lemma_strs_push(out@, last);
    }
    out.push(last);
    assert(strs(err@) =~= Seq::<Seq<char>>::empty());
    (out, err)
}

/// The lines of all search results, one entry after the other.
pub open spec fn entries_spec(
    pkgs: Seq<Package>,
    res: Seq<int>,
    inst: Seq<bool>,
    plain: bool,
    k: nat,
) -> Seq<Seq<char>>
    decreases k,
{
    if k == 0 {
        Seq::empty()
    } else {
        entries_spec(pkgs, res, inst, plain, (k - 1) as nat) + search_entry_spec(
            pkgs[res[k - 1]],
            inst[k - 1],
            plain,
        )
    }
}

/// What the search command prints, on standard output and standard error,
/// for its results.
pub open spec fn search_output_spec(
    pkgs: Seq<Package>,
    res: Seq<int>,
    inst: Seq<bool>,
    query: Seq<char>,
    plain: bool,
) -> (Seq<Seq<char>>, Seq<Seq<char>>) {
    if res.len() == 0 {
        (
            Seq::empty(),
            seq![
                " "@ + colored("warn"@, Color::Yellow, plain) + ": no packages found matching '"@
                    + colored(query, Color::Green, plain) + "'"@,
            ],
        )
    } else {
        (entries_spec(pkgs, res, inst, plain, res.len()).push(found_line(res.len(), plain)), Seq::empty())
    }
}

/// The output of the search command; `installed[k]` tells whether the
/// package of `results[k]` is installed.
pub fn search_output(
    pkgs: &Vec<Package>,
    results: &Vec<usize>,
    installed: &Vec<bool>,
    query: &str,
    plain: bool,
) -> (r: (Vec<String>, Vec<String>))
    requires
        installed@.len() == results@.len(),
        forall|k: int| 0 <= k < results@.len() ==> #[trigger] results@[k] < pkgs@.len(),
    ensures
        (strs(r.0@), strs(r.1@)) == search_output_spec(pkgs@, as_ints(results@), installed@, query@, plain),
{
    let mut out: Vec<String> = Vec::new();
    let mut err: Vec<String> = Vec::new();
    if results.len() == 0 {
        let mut l = cat(" ", yellow("warn", plain).as_str());
        l.append(": no packages found matching '");
        l.append(color(query, Color::Green, plain).as_str());
        l.append("'");
        err.push(l);
        assert(strs(err@) =~= seq![l@]);
        assert(strs(out@) =~= Seq::<Seq<char>>::empty());
        return (out, err);
    }
    let ghost rv = as_ints(results@);
    let mut k: usize = 0;
    while k < results.len()
        invariant
            rv == as_ints(results@),
            installed@.len() == results@.len(),
            forall|k: int| 0 <= k < results@.len() ==> #[trigger] results@[k] < pkgs@.len(),
            k <= results@.len(),
            strs(out@) == entries_spec(pkgs@, rv, installed@, plain, k as nat),
        decreases results@.len() - k,
    {
        let e = search_entry(&pkgs[results[k]], installed[k], plain);
        let mut t: usize = 0;
        let ghost base = strs(out@);
        while t < e.len()
            invariant
                t <= e@.len(),
                strs(out@) == base + strs(e@).take(t as int),
            decreases e@.len() - t,
        {
            proof {
                lemma_strs_push(out@, e@[t as int]);
            }
            assert(strs(e@).take(t + 1) =~= strs(e@).take(t as int).push(e@[t as int]@));
            out.push(e[t].clone());
            t = t + 1;
        }
        assert(strs(e@).take(t as int) =~= strs(e@));
        assert(rv[k as int] == results@[k as int] as int);
        k = k + 1;
    }
    let f = found(results.len(), plain);
    proof {
        lemma_strs_push(out@, f);
    }
    out.push(f);
    assert(strs(err@) =~= Seq::<Seq<char>>::empty());
    (out, err)
}

/// An orphan: installed as a dependency, and required by nothing.
pub open spec fn is_orphan(p: Package) -> bool {
    p.reason == PackageReason::Depend && p.required_by@.len() == 0
}

/// The indices below `n` of the orphans among `pkgs`.
pub open spec fn orphans_spec(pkgs: Seq<Package>, n: nat) -> Seq<int>
    decreases n,
{
    if n == 0 {
        Seq::empty()
    } else if n <= pkgs.len() && is_orphan(pkgs[n - 1]) {
        orphans_spec(pkgs, (n - 1) as nat).push(n - 1)
    } else {
        orphans_spec(pkgs, (n - 1) as nat)
    }
}

/// The orphans below `n` are exactly the packages there installed as a
/// dependency that nothing requires, each once and in their order.
pub proof fn lemma_orphans_exact(pkgs: Seq<Package>, n: nat)
    requires
        n <= pkgs.len(),
    ensures
        forall|k: int|
            0 <= k < n ==> (orphans_spec(pkgs, n).contains(k) <==> (#[trigger] pkgs[k]).reason
                == PackageReason::Depend && pkgs[k].required_by@.len() == 0),
        forall|i: int| 0 <= i < orphans_spec(pkgs, n).len() ==> 0 <= #[trigger] orphans_spec(pkgs, n)[i] < n,
        forall|i: int, j: int|
            0 <= i < j < orphans_spec(pkgs, n).len() ==> #[trigger] orphans_spec(pkgs, n)[i]
                < #[trigger] orphans_spec(pkgs, n)[j],
    decreases n,
{
    if n > 0 {
        let m = (n - 1) as nat;
        lemma_orphans_exact(pkgs, m);
        let prev = orphans_spec(pkgs, m);
        let cur = orphans_spec(pkgs, n);
        if is_orphan(pkgs[n - 1]) {
            assert(cur == prev.push(n - 1));
            assert(cur[prev.len() as int] == n - 1);
            assert forall|k: int| 0 <= k < n implies (cur.contains(k) <==> (#[trigger] pkgs[k]).reason
                == PackageReason::Depend && pkgs[k].required_by@.len() == 0) by {
                if k < n - 1 {
                    if cur.contains(k) {
                        let i = choose|i: int| 0 <= i < cur.len() && cur[i] == k;
                        if i < prev.len() {
                            assert(prev[i] == k);
                        }
                    }
                    if prev.contains(k) {
                        let i = choose|i: int| 0 <= i < prev.len() && prev[i] == k;
                        assert(cur[i] == k);
                    }
                }
            }
        } else {
            assert(cur == prev);
            assert forall|k: int| 0 <= k < n implies (cur.contains(k) <==> (#[trigger] pkgs[k]).reason
                == PackageReason::Depend && pkgs[k].required_by@.len() == 0) by {
                if k == n - 1 && cur.contains(k) {
                    let i = choose|i: int| 0 <= i < cur.len() && cur[i] == k;
                    assert(prev[i] < m);
                }
            }
        }
    }
}

/// The orphans among the installed packages, in order.
pub fn orphans(pkgs: &Vec<Package>) -> (r: Vec<usize>)
    ensures
        as_ints(r@) == orphans_spec(pkgs@, pkgs@.len()),
        forall|k: int| 0 <= k < r@.len() ==> #[trigger] r@[k] < pkgs@.len(),
{
    let mut r: Vec<usize> = Vec::new();
    let mut i: usize = 0;
    while i < pkgs.len()
        invariant
            i <= pkgs@.len(),
            as_ints(r@) == orphans_spec(pkgs@, i as nat),
            forall|k: int| 0 <= k < r@.len() ==> #[trigger] r@[k] < i,
        decreases pkgs@.len() - i,
    {
        if pkgs[i].reason == PackageReason::Depend && pkgs[i].required_by.len() == 0 {
            assert(as_ints(r@.push(i)) =~= as_ints(r@).push(i as int));
            r.push(i);
        }
        i = i + 1;
    }
    r
}

/// The key under which a package file of an installed package is kept in
/// the cache: `name-version`.
pub open spec fn installed_key_spec(p: Package) -> Seq<char> {
    p.name@ + "-"@ + p.version@
}

/// `name-version` of a package.
pub fn installed_key(p: &Package) -> (r: String)
    ensures
        r@ == installed_key_spec(*p),
{
    let mut r = cat(p.name.as_str(), "-");
    r.append(p.version.as_str());
    r
}

/// The index of the last `c` in `s`, or -1.
pub open spec fn last_index_of(s: Seq<char>, c: char) -> int
    decreases s.len(),
{
    if s.len() == 0 {
        -1
    } else if s.last() == c {
        s.len() - 1
    } else {
        last_index_of(s.drop_last(), c)
    }
}

/// Text without `c` after `d` leaves the last `c` where it was in `d`.
pub proof fn lemma_last_index_after(d: Seq<char>, x: Seq<char>, c: char)
    requires
        forall|i: int| 0 <= i < x.len() ==> x[i] != c,
    ensures
        last_index_of(d + x, c) == last_index_of(d, c),
    decreases x.len(),
{
    if x.len() == 0 {
        assert(d + x =~= d);
    } else {
        assert((d + x).last() == x.last());
        assert((d + x).drop_last() =~= d + x.drop_last());
        lemma_last_index_after(d, x.drop_last(), c);
    }
}

pub proof fn lemma_last_index(s: Seq<char>, c: char)
    ensures
        -1 <= last_index_of(s, c) < s.len(),
        last_index_of(s, c) >= 0 ==> s[last_index_of(s, c)] == c,
    decreases s.len(),
{
    if s.len() > 0 && s.last() != c {
        lemma_last_index(s.drop_last(), c);
    }
}

/// The index of the last `c` in `v`, or -1.
pub fn last_index(v: &Vec<char>, c: char) -> (r: Option<usize>)
    ensures
        match r {
            Some(i) => last_index_of(v@, c) == i as int,
            None => last_index_of(v@, c) == -1,
        },
{
    let mut j = v.len();
    assert(v@.take(j as int) =~= v@);
    while j > 0 && v[j - 1] != c
        invariant
            j <= v@.len(),
            last_index_of(v@, c) == last_index_of(v@.take(j as int), c),
        decreases j,
    {
        assert(v@.take(j as int).drop_last() =~= v@.take(j - 1));
        j = j - 1;
    }
    if j == 0 {
        None
    } else {
        Some(j - 1)
    }
}

/// What stands before the last `-` of `s`, or `s` where it has none
/// (`s.rsplit_once('-').map(|(p, _)| p).unwrap_or(s)`).
pub open spec fn before_last_dash(s: Seq<char>) -> Seq<char> {
    if last_index_of(s, '-') >= 0 {
        s.take(last_index_of(s, '-'))
    } else {
        s
    }
}

/// `s` before the first occurrence of `p`, or all of `s`
/// (`s.split(p).next()`).
pub open spec fn before_str(s: Seq<char>, p: Seq<char>) -> Seq<char> {
    let i = crate::text::find_from(s, p, 0);
    if i >= 0 {
        s.take(i)
    } else {
        s
    }
}

/// Whether the clean command removes a file of the package cache:
/// databases and their signatures only when all is cleaned, other
/// signatures never, and package files whose `name-version` is not
/// installed.
pub open spec fn clean_removes(f: Seq<char>, installed: Seq<Seq<char>>, all: bool) -> bool {
    if has_suffix(f, ".db"@) || has_suffix(f, ".db.sig"@) {
        all
    } else if has_suffix(f, ".sig"@) {
        false
    } else {
        !installed.contains(before_last_dash(before_str(f, ".pkg.tar."@)))
    }
}

/// Cleaning keeps the files of installed packages: a package file
/// `name-version-arch.pkg.tar.ext` whose `name-version` is installed is not
/// removed (where the architecture holds no dash and no dot, and the stem
/// does not hold `.pkg.tar.`); signatures other than of databases are never
/// removed; databases and their signatures go only when all is cleaned.
pub proof fn lemma_clean_keeps_installed(
    key: Seq<char>,
    arch: Seq<char>,
    ext: Seq<char>,
    installed: Seq<Seq<char>>,
    all: bool,
)
    requires
        installed.contains(key),
        !crate::text::has_char(arch, '-'),
        !crate::text::has_char(arch, '.'),
        !crate::text::contains(key + seq!['-'] + arch, ".pkg.tar."@),
        !has_suffix(key + seq!['-'] + arch + ".pkg.tar."@ + ext, ".db"@),
        !has_suffix(key + seq!['-'] + arch + ".pkg.tar."@ + ext, ".sig"@),
    ensures
        !clean_removes(key + seq!['-'] + arch + ".pkg.tar."@ + ext, installed, all),
{
    crate::pkginfo::lemma_stem_before_ext(key, arch, ext);
    crate::pkginfo::lemma_last_dash_between(key, arch);
    reveal_strlit(".db.sig");
    reveal_strlit(".sig");
    let f = key + seq!['-'] + arch + ".pkg.tar."@ + ext;
    if has_suffix(f, ".db.sig"@) {
        assert(f.skip(f.len() - 4) =~= f.skip(f.len() - 7).skip(3));
        assert(".db.sig"@.skip(3) =~= ".sig"@);
    }
}

/// Signatures are kept unless they sign a database, and databases and
/// their signatures go exactly when all is cleaned.
pub proof fn lemma_clean_signatures(f: Seq<char>, installed: Seq<Seq<char>>, all: bool)
    ensures
        has_suffix(f, ".db"@) || has_suffix(f, ".db.sig"@) ==> clean_removes(f, installed, all) == all,
        has_suffix(f, ".sig"@) && !has_suffix(f, ".db.sig"@) ==> !clean_removes(f, installed, all),
{
    reveal_strlit(".db");
    reveal_strlit(".sig");
    if has_suffix(f, ".sig"@) && has_suffix(f, ".db"@) {
        assert(f.skip(f.len() - 4)[3] == f[f.len() - 1]);
        assert(f.skip(f.len() - 3)[2] == f[f.len() - 1]);
        assert(".sig"@[3] == 'g');
        assert(".db"@[2] == 'b');
    }
}

/// `s.split(p).next()`.
pub fn before_str_exec(s: &str, p: &str) -> (r: String)
    ensures
        r@ == before_str(s@, p@),
{
    let v = to_chars(s);
    let pv = to_chars(p);
    proof {
        crate::text::lemma_find_from(v@, pv@, 0);
    }
    match crate::text::find_chars(&v, &pv, 0) {
        Some(i) => {
            assert(v@.take(i as int) =~= v@.subrange(0, i as int));
            crate::text::string_of_range(&v, 0, i)
        },
        None => copy_str(s),
    }
}

/// `s.rsplit_once('-').map(|(p, _)| p).unwrap_or(s)`.
pub fn before_last_dash_exec(s: &str) -> (r: String)
    ensures
        r@ == before_last_dash(s@),
{
    let v = to_chars(s);
    proof {
        lemma_last_index(v@, '-');
    }
    match last_index(&v, '-') {
        Some(i) => {
            assert(v@.take(i as int) =~= v@.subrange(0, i as int));
            crate::text::string_of_range(&v, 0, i)
        },
        None => copy_str(s),
    }
}

/// Whether the clean command removes the cache file `fname`, given the
/// `name-version` keys of the installed packages.
pub fn cache_file_removed(fname: &str, installed: &Vec<String>, all: bool) -> (r: bool)
    ensures
        r == clean_removes(fname@, strs(installed@), all),
{
    if ends_with(fname, ".db") || ends_with(fname, ".db.sig") {
        return all;
    }
    if ends_with(fname, ".sig") {
        return false;
    }
    let base = before_str_exec(fname, ".pkg.tar.");
    let key = before_last_dash_exec(base.as_str());
    let mut i: usize = 0;
    let mut present = false;
    while i < installed.len()
        invariant
            i <= installed@.len(),
            present == exists|k: int| 0 <= k < i && strs(installed@)[k] == key@,
        decreases installed@.len() - i,
    {
        if str_eq(installed[i].as_str(), key.as_str()) {
            assert(strs(installed@)[i as int] == key@);
            present = true;
        }
        i = i + 1;
    }
    proof {
        if strs(installed@).contains(key@) {
            let k = choose|k: int| 0 <= k < strs(installed@).len() && strs(installed@)[k] == key@;
            assert(strs(installed@)[k] == key@);
        }
    }
    !present
}

/// The line that ends the clean command.
pub open spec fn clean_message_spec(removed: nat, plain: bool) -> Seq<char> {
    if removed > 0 {
        " "@ + colored("✓"@, Color::Green, plain) + " removed "@ + dec(removed) + " "@ + (if removed == 1 {
            "file"@
        } else {
            "file"@ + "s"@
        }) + " from cache"@
    } else {
        " "@ + colored("✓"@, Color::Green, plain) + " cache is already clean"@
    }
}

/// The line that ends the clean command.
pub fn clean_message(removed: u32, plain: bool) -> (r: String)
    ensures
        r@ == clean_message_spec(removed as nat, plain),
{
    let mut r = cat(" ", green("✓", plain).as_str());
    if removed > 0 {
        r.append(" removed ");
        r.append(u64_to_dec(removed as u64).as_str());
        r.append(" ");
        r.append(crate::table::plural("file", removed as usize).as_str());
        r.append(" from cache");
    } else {
        r.append(" cache is already clean");
    }
    r
}

/// `s` without repeated elements, first occurrences kept.
pub open spec fn distinct(s: Seq<Seq<char>>) -> Seq<Seq<char>>
    decreases s.len(),
{
    if s.len() == 0 {
        Seq::empty()
    } else {
        let d = distinct(s.drop_last());
        if d.contains(s.last()) {
            d
        } else {
            d.push(s.last())
        }
    }
}

/// The names of the first `n` packages that have a newer version.
pub open spec fn newer_names(names: Seq<Seq<char>>, newer: Seq<bool>, n: nat) -> Seq<Seq<char>>
    decreases n,
{
    if n == 0 {
        Seq::empty()
    } else if n <= names.len() && n <= newer.len() && newer[n - 1] {
        newer_names(names, newer, (n - 1) as nat).push(names[n - 1])
    } else {
        newer_names(names, newer, (n - 1) as nat)
    }
}

/// The number of distinct names of sync packages that are newer than the
/// installed package of that name; `newer[i]` tells whether `names[i]` is.
pub fn count_upgradable(names: &Vec<String>, newer: &Vec<bool>) -> (n: usize)
    requires
        names@.len() == newer@.len(),
    ensures
        n == distinct(newer_names(strs(names@), newer@, names@.len() as nat)).len(),
{
    let ghost nv = strs(names@);
    let mut seen: Vec<String> = Vec::new();
    let mut i: usize = 0;
    while i < names.len()
        invariant
            nv == strs(names@),
            names@.len() == newer@.len(),
            i <= names@.len(),
            strs(seen@) == distinct(newer_names(nv, newer@, i as nat)),
            seen@.len() <= i,
        decreases names@.len() - i,
    {
        if newer[i] {
            let ghost d = distinct(newer_names(nv, newer@, i as nat));
            let ghost s2 = newer_names(nv, newer@, (i + 1) as nat);
            assert(s2 == newer_names(nv, newer@, i as nat).push(nv[i as int]));
            assert(s2.drop_last() =~= newer_names(nv, newer@, i as nat));
            assert(nv[i as int] == names@[i as int]@);
            let mut found = false;
            let mut k: usize = 0;
            while k < seen.len()
                invariant
                    nv == strs(names@),
                    names@.len() == newer@.len(),
                    i < names@.len(),
                    k <= seen@.len(),
                    found == exists|j: int| 0 <= j < k && strs(seen@)[j] == nv[i as int],
                decreases seen@.len() - k,
            {
                if str_eq(seen[k].as_str(), names[i].as_str()) {
                    assert(strs(seen@)[k as int] == nv[i as int]);
                    found = true;
                }
                k = k + 1;
            }
            proof {
                if d.contains(nv[i as int]) {
                    let j = choose|j: int| 0 <= j < d.len() && d[j] == nv[i as int];
                    assert(strs(seen@)[j] == nv[i as int]);
                }
            }
            if !found {
                let s = names[i].clone();
                proof {
                    lemma_strs_push(seen@, s);
                }
                seen.push(s);
            }
        }
        i = i + 1;
    }
    seen.len()
}

/// An ASCII upper-case letter made lower case; other characters unchanged.
pub open spec fn ascii_lower(c: char) -> char {
    if 'A' <= c && c <= 'Z' {
        ((c as u8) + 32) as char
    } else {
        c
    }
}

/// `str::eq_ignore_ascii_case`.
pub open spec fn eq_ignore_ascii_case(a: Seq<char>, b: Seq<char>) -> bool {
    a.len() == b.len() && forall|i: int| 0 <= i < a.len() ==> ascii_lower(#[trigger] a[i]) == ascii_lower(b[i])
}

/// The answer to a confirmation is yes: empty, `y` or `yes` in any case,
/// once trimmed.
pub open spec fn affirmative(answer: Seq<char>) -> bool {
    let l = trim(answer);
    l.len() == 0 || eq_ignore_ascii_case(l, "y"@) || eq_ignore_ascii_case(l, "yes"@)
}

fn lower_ascii(c: char) -> (r: char)
    ensures
        r == ascii_lower(c),
{
    if 'A' <= c && c <= 'Z' {
        ((c as u8) + 32) as char
    } else {
        c
    }
}

/// `str::eq_ignore_ascii_case`.
pub fn eq_ignore_case(a: &str, b: &str) -> (r: bool)
    ensures
        r == eq_ignore_ascii_case(a@, b@),
{
    let av = to_chars(a);
    let bv = to_chars(b);
    if av.len() != bv.len() {
        return false;
    }
    let mut i: usize = 0;
    while i < av.len()
        invariant
            av@ == a@,
            bv@ == b@,
            av@.len() == bv@.len(),
            i <= av@.len(),
            forall|j: int| 0 <= j < i ==> ascii_lower(#[trigger] av@[j]) == ascii_lower(bv@[j]),
        decreases av@.len() - i,
    {
        if lower_ascii(av[i]) != lower_ascii(bv[i]) {
            return false;
        }
        i = i + 1;
    }
    true
}

/// Whether an answer to a confirmation prompt is yes.
pub fn is_affirmative(answer: &str) -> (r: bool)
    ensures
        r == affirmative(answer@),
{
    let l = trim_str(answer);
    l.as_str().is_empty() || eq_ignore_case(l.as_str(), "y") || eq_ignore_case(l.as_str(), "yes")
}

} // verus!
