//! The paths of pacman's files on a live system, the lock that a
//! transaction holds, and where the configuration is looked for.
use vstd::prelude::*;
use crate::text::{cat, copy_str, lemma_strs_push, strs};

verus! {

/// Path to pacman configuration file.
pub fn pacman_conf() -> (r: String)
    ensures
        r@ == "/etc/pacman.conf"@,
{
    copy_str("/etc/pacman.conf")
}

/// Path to pacman log file.
pub fn pacman_log() -> (r: String)
    ensures
        r@ == "/var/log/pacman.log"@,
{
    copy_str("/var/log/pacman.log")
}

/// Path to the package cache directory.
pub fn cache_dir() -> (r: String)
    ensures
        r@ == "/var/cache/pacman/pkg"@,
{
    copy_str("/var/cache/pacman/pkg")
}

/// Path to the pacman database directory.
pub fn db_path() -> (r: String)
    ensures
        r@ == "/var/lib/pacman"@,
{
    copy_str("/var/lib/pacman")
}

/// Path to the pacman database lock file.
pub fn lock_file() -> (r: String)
    ensures
        r@ == "/var/lib/pacman/db.lck"@,
{
    copy_str("/var/lib/pacman/db.lck")
}

/// Path to the GNUPG directory used for package signature verification.
pub fn gpg_dir() -> (r: String)
    ensures
        r@ == "/etc/pacman.d/gnupg"@,
{
    copy_str("/etc/pacman.d/gnupg")
}

/// Records `path` as the lock file that is held, so that an interrupted
/// run can remove it.
pub fn set_lockfile(slot: &mut Option<String>, path: &str)
    ensures
        *final(slot) matches Some(p) && p@ == path@,
{
    *slot = Some(copy_str(path));
}

/// Records that no lock file is held.
pub fn clear_lockfile(slot: &mut Option<String>)
    ensures
        *final(slot) is None,
{
    *slot = None;
}

/// Before a transaction starts: the database lock file is recorded as
/// held.  The caller then asks libalpm to start the transaction.
pub fn trans_init(slot: &mut Option<String>)
    ensures
        *final(slot) matches Some(p) && p@ == "/var/lib/pacman/db.lck"@,
{
    let lock = lock_file();
    set_lockfile(slot, lock.as_str());
}

/// The settings of waka itself.
pub struct WakaConfig {
    /// Answer yes to every question.
    pub assume_yes: bool,
}

/// The configuration file.
pub struct Config {
    pub waka: WakaConfig,
}

/// The configuration files, in the order they are tried: the user's (under
/// `$XDG_CONFIG_HOME`, then under `$HOME`), then the system's.
pub open spec fn config_paths_spec(xdg: Option<Seq<char>>, home: Option<Seq<char>>) -> Seq<Seq<char>> {
    let user = match xdg {
        Some(x) => seq![x + "/waka/waka.conf"@],
        None => Seq::empty(),
    };
    let homes = match home {
        Some(h) => seq![h + "/.config/waka/waka.conf"@, h + "/.waka.conf"@],
        None => Seq::empty(),
    };
    user + homes + seq!["/etc/waka/waka.conf"@, "/usr/etc/waka/waka.conf"@]
}

/// The configuration files to try, given `$XDG_CONFIG_HOME` and `$HOME`
/// where they are set.
pub fn config_paths(xdg: Option<&str>, home: Option<&str>) -> (r: Vec<String>)
    ensures
        strs(r@) == config_paths_spec(
            match xdg {
                Some(x) => Some(x@),
                None => None,
            },
            match home {
                Some(h) => Some(h@),
                None => None,
            },
        ),
{
    let mut r: Vec<String> = Vec::new();
    assert(strs(r@) =~= Seq::<Seq<char>>::empty());
    if let Some(x) = xdg {
        let p = cat(x, "/waka/waka.conf");
        proof {
            lemma_strs_push(r@, p);
        }
        r.push(p);
    }
    let ghost user = strs(r@);
    if let Some(h) = home {
        let p = cat(h, "/.config/waka/waka.conf");
        proof {
            lemma_strs_push(r@, p);
        }
        r.push(p);
        let q = cat(h, "/.waka.conf");
        proof {
            lemma_strs_push(r@, q);
        }
        r.push(q);
    }
    let ghost both = strs(r@);
    let a = copy_str("/etc/waka/waka.conf");
    proof {
        lemma_strs_push(r@, a);
    }
    r.push(a);
    let b = copy_str("/usr/etc/waka/waka.conf");
    proof {
        lemma_strs_push(r@, b);
    }
    r.push(b);
    r
}

} // verus!
