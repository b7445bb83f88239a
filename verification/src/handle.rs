//! What the library reads of libalpm's databases: the installed packages
//! and the sync databases in the order they were registered.
use vstd::prelude::*;
use crate::packages::Package;
use crate::style::{colored, yellow, Color};
use crate::summary::{first_named, position_of_name};
use crate::text::{cat, copy_str, lemma_strs_push, strs};

verus! {

/// A sync database: its name and its packages.
pub struct SyncDb {
    pub name: String,
    pub pkgs: Vec<Package>,
}

/// The local database and the sync databases.
pub struct AlpmHandle {
    pub local: Vec<Package>,
    pub sync: Vec<SyncDb>,
}

/// The first sync database that holds a package named `n`, or -1.
pub open spec fn sync_db_index(dbs: Seq<SyncDb>, n: Seq<char>) -> int
    decreases dbs.len(),
{
    if dbs.len() == 0 {
        -1
    } else if first_named(dbs[0].pkgs@, n) >= 0 {
        0
    } else {
        let r = sync_db_index(dbs.drop_first(), n);
        if r < 0 {
            -1
        } else {
            r + 1
        }
    }
}

/// The names among `names` that `known` accepts, in order.
pub open spec fn kept_names(names: Seq<Seq<char>>, known: spec_fn(Seq<char>) -> bool) -> Seq<Seq<char>>
    decreases names.len(),
{
    if names.len() == 0 {
        Seq::empty()
    } else if known(names.last()) {
        kept_names(names.drop_last(), known).push(names.last())
    } else {
        kept_names(names.drop_last(), known)
    }
}

/// A warning for each name of `names` that `known` refuses, in order.
pub open spec fn refused_lines(
    names: Seq<Seq<char>>,
    known: spec_fn(Seq<char>) -> bool,
    line: spec_fn(Seq<char>) -> Seq<char>,
) -> Seq<Seq<char>>
    decreases names.len(),
{
    if names.len() == 0 {
        Seq::empty()
    } else if known(names.last()) {
        refused_lines(names.drop_last(), known, line)
    } else {
        refused_lines(names.drop_last(), known, line).push(line(names.last()))
    }
}

/// The warning for a package to install that no sync database has.
pub open spec fn missing_sync_line(n: Seq<char>, plain: bool) -> Seq<char> {
    "  "@ + colored("warn:"@, Color::Yellow, plain) + " package '"@ + n + "' not found"@
}

/// The warning for a package to remove that is not installed.
pub open spec fn missing_local_line(n: Seq<char>, plain: bool) -> Seq<char> {
    "  "@ + colored("warn:"@, Color::Yellow, plain) + " '"@ + n + "' not installed"@
}

impl AlpmHandle {
    /// The packages to install: those of `names` that a sync database has,
    /// in order, and a warning for each of the others.
    pub fn install_targets(&self, names: &Vec<String>, plain: bool) -> (r: (Vec<String>, Vec<String>))
        ensures
            strs(r.0@) == kept_names(strs(names@), |n: Seq<char>| sync_db_index(self.sync@, n) >= 0),
            strs(r.1@) == refused_lines(
                strs(names@),
                |n: Seq<char>| sync_db_index(self.sync@, n) >= 0,
                |n: Seq<char>| missing_sync_line(n, plain),
            ),
    {
        let ghost known = |n: Seq<char>| sync_db_index(self.sync@, n) >= 0;
        let ghost line = |n: Seq<char>| missing_sync_line(n, plain);
        let ghost nv = strs(names@);
        let mut targets: Vec<String> = Vec::new();
        let mut warnings: Vec<String> = Vec::new();
        let mut i: usize = 0;
        assert(nv.take(0) =~= Seq::<Seq<char>>::empty());
        while i < names.len()
            invariant
                nv == strs(names@),
                i <= names@.len(),
                strs(targets@) == kept_names(nv.take(i as int), known),
                strs(warnings@) == refused_lines(nv.take(i as int), known, line),
                known == (|n: Seq<char>| sync_db_index(self.sync@, n) >= 0),
                line == (|n: Seq<char>| missing_sync_line(n, plain)),
            decreases names@.len() - i,
        {
            assert(nv.take(i + 1).drop_last() =~= nv.take(i as int));
            assert(nv.take(i + 1).last() == names@[i as int]@);
            let n = &names[i];
            if self.find_sync_pkg(n.as_str()).is_some() {
                let t = copy_str(n.as_str());
                proof {
                    lemma_strs_push(targets@, t);
                }
                targets.push(t);
            } else {
                let mut w = cat("  ", yellow("warn:", plain).as_str());
                w.append(" package '");
                w.append(n.as_str());
                w.append("' not found");
                proof {
                    lemma_strs_push(warnings@, w);
                }
                warnings.push(w);
            }
            i = i + 1;
        }
        assert(nv.take(names@.len() as int) =~= nv);
        (targets, warnings)
    }

    /// The packages to remove: those of `names` that are installed, in
    /// order, and a warning for each of the others.
    pub fn remove_targets(&self, names: &Vec<String>, plain: bool) -> (r: (Vec<String>, Vec<String>))
        ensures
            strs(r.0@) == kept_names(strs(names@), |n: Seq<char>| first_named(self.local@, n) >= 0),
            strs(r.1@) == refused_lines(
                strs(names@),
                |n: Seq<char>| first_named(self.local@, n) >= 0,
                |n: Seq<char>| missing_local_line(n, plain),
            ),
    {
        let ghost known = |n: Seq<char>| first_named(self.local@, n) >= 0;
        let ghost line = |n: Seq<char>| missing_local_line(n, plain);
        let ghost nv = strs(names@);
        let mut targets: Vec<String> = Vec::new();
        let mut warnings: Vec<String> = Vec::new();
        let mut i: usize = 0;
        assert(nv.take(0) =~= Seq::<Seq<char>>::empty());
        while i < names.len()
            invariant
                nv == strs(names@),
                i <= names@.len(),
                strs(targets@) == kept_names(nv.take(i as int), known),
                strs(warnings@) == refused_lines(nv.take(i as int), known, line),
                known == (|n: Seq<char>| first_named(self.local@, n) >= 0),
                line == (|n: Seq<char>| missing_local_line(n, plain)),
            decreases names@.len() - i,
        {
            assert(nv.take(i + 1).drop_last() =~= nv.take(i as int));
            assert(nv.take(i + 1).last() == names@[i as int]@);
            let n = &names[i];
            if self.find_local_pkg(n.as_str()).is_some() {
                let t = copy_str(n.as_str());
                proof {
                    lemma_strs_push(targets@, t);
                }
                targets.push(t);
            } else {
                let mut w = cat("  ", yellow("warn:", plain).as_str());
                w.append(" '");
                w.append(n.as_str());
                w.append("' not installed");
                proof {
                    lemma_strs_push(warnings@, w);
                }
                warnings.push(w);
            }
            i = i + 1;
        }
        assert(nv.take(names@.len() as int) =~= nv);
        (targets, warnings)
    }

    /// The installed package named `name`.
    pub fn find_local_pkg(&self, name: &str) -> (r: Option<&Package>)
        ensures
            match r {
                Some(p) => first_named(self.local@, name@) >= 0 && *p == self.local@[first_named(
                    self.local@,
                    name@,
                )],
                None => first_named(self.local@, name@) == -1,
            },
    {
        match position_of_name(&self.local, name) {
            Some(i) => Some(&self.local[i]),
            None => None,
        }
    }

    /// The package named `name` in the first sync database that has one.
    pub fn find_sync_pkg(&self, name: &str) -> (r: Option<&Package>)
        ensures
            match r {
                Some(p) => {
                    let d = sync_db_index(self.sync@, name@);
                    &&& 0 <= d < self.sync@.len()
                    &&& *p == self.sync@[d].pkgs@[first_named(self.sync@[d].pkgs@, name@)]
                },
                None => sync_db_index(self.sync@, name@) == -1,
            },
    {
        let ghost dbs = self.sync@;
        let mut i: usize = 0;
        assert(dbs.skip(0) =~= dbs);
        while i < self.sync.len()
            invariant
                dbs == self.sync@,
                i <= dbs.len(),
                sync_db_index(dbs, name@) == (if sync_db_index(dbs.skip(i as int), name@) < 0 {
                    -1
                } else {
                    sync_db_index(dbs.skip(i as int), name@) + i
                }),
            decreases dbs.len() - i,
        {
            assert(dbs.skip(i as int).drop_first() =~= dbs.skip(i + 1));
            assert(dbs.skip(i as int)[0] == dbs[i as int]);
            match position_of_name(&self.sync[i].pkgs, name) {
                Some(k) => {
                    return Some(&self.sync[i].pkgs[k]);
                },
                None => {},
            }
            i = i + 1;
        }
        assert(dbs.skip(i as int).len() == 0);
        None
    }
}

} // verus!
