//! The reading of pacman.conf.
//!
//! The file is fed to a [`ConfParser`] line by line.  Each line may ask for
//! work that only the caller can do: read an included file, register a
//! repository with libalpm, or apply an option; the parser says which in the
//! [`ConfAction`] it returns.
use vstd::prelude::*;
use crate::siglevel::{parse_siglevel, siglevel_spec};
use crate::text::{
    cat, copy_str, ends_with, lemma_strs_push, strs, has_prefix, has_suffix, lines_of, parse_u32, parse_u32_spec,
    replace_all, replace_str, split_lines, starts_with, str_eq, strip_prefix, to_chars, trim,
    trim_str,
};

verus! {

/// A repository section that has ended, with what it listed.
pub struct RepoSection {
    pub name: String,
    /// The `Server` values, as written.
    pub servers: Vec<String>,
    /// The `Include` values, as written.
    pub includes: Vec<String>,
    /// The repository's own `SigLevel`, or the default level in force when
    /// the section ended.
    pub sig: u32,
}

/// The view of a [`RepoSection`].
pub struct RepoModel {
    pub name: Seq<char>,
    pub servers: Seq<Seq<char>>,
    pub includes: Seq<Seq<char>>,
    pub sig: u32,
}

impl View for RepoSection {
    type V = RepoModel;

    open spec fn view(&self) -> RepoModel {
        RepoModel {
            name: self.name@,
            servers: strs(self.servers@),
            includes: strs(self.includes@),
            sig: self.sig,
        }
    }
}

/// What the caller has to do after a line.
pub enum ConfAction {
    Nothing,
    /// Read the file (or the files matching the pattern) that an `Include`
    /// in `[options]` names, and hand its lines to
    /// [`ConfParser::apply_options_include`].
    IncludeOptions(String),
    /// Register a sync database for a section that has just ended.
    RegisterRepo(RepoSection),
    /// `DownloadUser = ...`
    DownloadUser(String),
    /// `DisableSandbox`
    DisableSandbox,
    /// `ParallelDownloads = n`
    ParallelDownloads(u32),
}

/// The view of a [`ConfAction`].
pub enum ActionModel {
    Nothing,
    IncludeOptions(Seq<char>),
    RegisterRepo(RepoModel),
    DownloadUser(Seq<char>),
    DisableSandbox,
    ParallelDownloads(u32),
}

impl View for ConfAction {
    type V = ActionModel;

    open spec fn view(&self) -> ActionModel {
        match self {
            ConfAction::Nothing => ActionModel::Nothing,
            ConfAction::IncludeOptions(p) => ActionModel::IncludeOptions(p@),
            ConfAction::RegisterRepo(r) => ActionModel::RegisterRepo(r@),
            ConfAction::DownloadUser(u) => ActionModel::DownloadUser(u@),
            ConfAction::DisableSandbox => ActionModel::DisableSandbox,
            ConfAction::ParallelDownloads(n) => ActionModel::ParallelDownloads(*n),
        }
    }
}

/// The state of the reading of pacman.conf.
pub struct ConfParser {
    /// The section being read.
    pub current: Option<String>,
    /// `Server` values of the current section.
    pub servers: Vec<String>,
    /// `Include` values of the current section.
    pub include_paths: Vec<String>,
    /// `SigLevel` of `[options]`.
    pub default_sig: u32,
    /// `LocalFileSigLevel` of `[options]`.
    pub local_sig: u32,
    /// `RemoteFileSigLevel` of `[options]`.
    pub remote_sig: u32,
    /// Per-repository `SigLevel` values; a later entry overrides an earlier one.
    pub db_sig: Vec<(String, u32)>,
    /// `Architecture` values, `auto` already replaced.
    pub architectures: Vec<String>,
    /// `CacheDir` values.
    pub cache_dirs: Vec<String>,
    /// The architecture that `auto` stands for.
    pub native_arch: String,
}

/// The view of a [`ConfParser`].
pub struct ConfModel {
    pub current: Option<Seq<char>>,
    pub servers: Seq<Seq<char>>,
    pub includes: Seq<Seq<char>>,
    pub default_sig: u32,
    pub local_sig: u32,
    pub remote_sig: u32,
    pub db_sig: Seq<(Seq<char>, u32)>,
    pub architectures: Seq<Seq<char>>,
    pub cache_dirs: Seq<Seq<char>>,
    pub native_arch: Seq<char>,
}

impl View for ConfParser {
    type V = ConfModel;

    open spec fn view(&self) -> ConfModel {
        ConfModel {
            current: match self.current {
                Some(c) => Some(c@),
                None => None,
            },
            servers: strs(self.servers@),
            includes: strs(self.include_paths@),
            default_sig: self.default_sig,
            local_sig: self.local_sig,
            remote_sig: self.remote_sig,
            db_sig: self.db_sig@.map_values(|p: (String, u32)| (p.0@, p.1)),
            architectures: strs(self.architectures@),
            cache_dirs: strs(self.cache_dirs@),
            native_arch: self.native_arch@,
        }
    }
}

/// The level recorded last for `name`, or `dflt`.
pub open spec fn sig_lookup(m: Seq<(Seq<char>, u32)>, name: Seq<char>, dflt: u32) -> u32
    decreases m.len(),
{
    if m.len() == 0 {
        dflt
    } else if m.last().0 == name {
        m.last().1
    } else {
        sig_lookup(m.drop_last(), name, dflt)
    }
}

/// The repository that ends when the current section ends, if it is one.
pub open spec fn closed_repo(st: ConfModel) -> Option<RepoModel> {
    match st.current {
        Some(name) => if name == "options"@ {
            None
        } else {
            Some(
                RepoModel {
                    name,
                    servers: st.servers,
                    includes: st.includes,
                    sig: sig_lookup(st.db_sig, name, st.default_sig),
                },
            )
        },
        None => None,
    }
}

/// The option that an `[options]` line not otherwise understood asks for.
pub open spec fn option_action(t: Seq<char>) -> ActionModel {
    if has_prefix(t, "DownloadUser = "@) {
        ActionModel::DownloadUser(trim(t.skip("DownloadUser = "@.len() as int)))
    } else if has_prefix(t, "DisableSandbox"@) {
        let rest = t.skip("DisableSandbox"@.len() as int);
        if rest.len() == 0 || rest[0] == ' ' || rest[0] == '=' {
            ActionModel::DisableSandbox
        } else {
            ActionModel::Nothing
        }
    } else if has_prefix(t, "ParallelDownloads = "@) {
        match parse_u32_spec(trim(t.skip("ParallelDownloads = "@.len() as int))) {
            Some(n) => ActionModel::ParallelDownloads(n),
            None => ActionModel::Nothing,
        }
    } else {
        ActionModel::Nothing
    }
}

/// A trimmed line of `[options]`.
pub open spec fn option_step(st: ConfModel, t: Seq<char>) -> (ConfModel, ActionModel) {
    if has_prefix(t, "SigLevel = "@) {
        (
            ConfModel { default_sig: siglevel_spec(t.skip("SigLevel = "@.len() as int)), ..st },
            ActionModel::Nothing,
        )
    } else if has_prefix(t, "LocalFileSigLevel = "@) {
        (
            ConfModel {
                local_sig: siglevel_spec(t.skip("LocalFileSigLevel = "@.len() as int)),
                ..st
            },
            ActionModel::Nothing,
        )
    } else if has_prefix(t, "RemoteFileSigLevel = "@) {
        (
            ConfModel {
                remote_sig: siglevel_spec(t.skip("RemoteFileSigLevel = "@.len() as int)),
                ..st
            },
            ActionModel::Nothing,
        )
    } else if has_prefix(t, "CacheDir = "@) {
        (
            ConfModel {
                cache_dirs: st.cache_dirs.push(trim(t.skip("CacheDir = "@.len() as int))),
                ..st
            },
            ActionModel::Nothing,
        )
    } else if has_prefix(t, "Architecture = "@) {
        let a = trim(t.skip("Architecture = "@.len() as int));
        (
            ConfModel {
                architectures: st.architectures.push(
                    if a == "auto"@ {
                        st.native_arch
                    } else {
                        a
                    },
                ),
                ..st
            },
            ActionModel::Nothing,
        )
    } else if has_prefix(t, "Include = "@) {
        (st, ActionModel::IncludeOptions(trim(t.skip("Include = "@.len() as int))))
    } else {
        (st, option_action(t))
    }
}

/// A trimmed line of a repository section `sec`.
pub open spec fn repo_step(st: ConfModel, sec: Seq<char>, t: Seq<char>) -> ConfModel {
    if has_prefix(t, "SigLevel = "@) {
        ConfModel {
            db_sig: st.db_sig.push((sec, siglevel_spec(t.skip("SigLevel = "@.len() as int)))),
            ..st
        }
    } else if has_prefix(t, "Include = "@) {
        ConfModel { includes: st.includes.push(trim(t.skip("Include = "@.len() as int))), ..st }
    } else if has_prefix(t, "Server = "@) {
        ConfModel { servers: st.servers.push(trim(t.skip("Server = "@.len() as int))), ..st }
    } else {
        st
    }
}

/// `t` is a section header `[name]`.
pub open spec fn is_header(t: Seq<char>) -> bool {
    t.len() > 0 && t[0] == '[' && t.last() == ']'
}

/// What one line of pacman.conf does.
pub open spec fn conf_step(st: ConfModel, raw: Seq<char>) -> (ConfModel, ActionModel) {
    let t = trim(raw);
    if t.len() == 0 || t[0] == '#' {
        (st, ActionModel::Nothing)
    } else if is_header(t) {
        (
            ConfModel {
                current: Some(t.subrange(1, t.len() - 1)),
                servers: Seq::empty(),
                includes: Seq::empty(),
                ..st
            },
            match closed_repo(st) {
                Some(r) => ActionModel::RegisterRepo(r),
                None => ActionModel::Nothing,
            },
        )
    } else {
        match st.current {
            None => (st, ActionModel::Nothing),
            Some(sec) => if sec == "options"@ {
                option_step(st, t)
            } else {
                (repo_step(st, sec, t), ActionModel::Nothing)
            },
        }
    }
}

/// What one line of a file that `[options]` includes does: only the three
/// signature levels are read there.
pub open spec fn include_options_step(st: ConfModel, l: Seq<char>) -> ConfModel {
    if has_prefix(l, "SigLevel = "@) {
        ConfModel { default_sig: siglevel_spec(l.skip("SigLevel = "@.len() as int)), ..st }
    } else if has_prefix(l, "LocalFileSigLevel = "@) {
        ConfModel { local_sig: siglevel_spec(l.skip("LocalFileSigLevel = "@.len() as int)), ..st }
    } else if has_prefix(l, "RemoteFileSigLevel = "@) {
        ConfModel {
            remote_sig: siglevel_spec(l.skip("RemoteFileSigLevel = "@.len() as int)),
            ..st
        }
    } else {
        st
    }
}

/// All lines of an included file, in order.
pub open spec fn include_options_all(st: ConfModel, ls: Seq<Seq<char>>) -> ConfModel
    decreases ls.len(),
{
    if ls.len() == 0 {
        st
    } else {
        include_options_all(include_options_step(st, ls[0]), ls.drop_first())
    }
}

/// A parser that has read nothing yet.
pub open spec fn initial_model(native_arch: Seq<char>) -> ConfModel {
    ConfModel {
        current: None,
        servers: Seq::empty(),
        includes: Seq::empty(),
        default_sig: 0,
        local_sig: 0,
        remote_sig: 0,
        db_sig: Seq::empty(),
        architectures: Seq::empty(),
        cache_dirs: Seq::empty(),
        native_arch,
    }
}

/// The architectures to give libalpm: those configured, or the native one,
/// and `any` after them.
pub open spec fn architecture_list(st: ConfModel) -> Seq<Seq<char>> {
    if st.architectures.len() == 0 {
        seq![st.native_arch, "any"@]
    } else {
        st.architectures.push("any"@)
    }
}

impl ConfParser {
    /// A parser for a system whose native architecture is `native_arch`.
    pub fn new(native_arch: &str) -> (p: ConfParser)
        ensures
            p@ == initial_model(native_arch@),
    {
        let p = ConfParser {
            current: None,
            servers: Vec::new(),
            include_paths: Vec::new(),
            default_sig: 0,
            local_sig: 0,
            remote_sig: 0,
            db_sig: Vec::new(),
            architectures: Vec::new(),
            cache_dirs: Vec::new(),
            native_arch: copy_str(native_arch),
        };
        assert(p@.db_sig =~= Seq::<(Seq<char>, u32)>::empty());
        assert(p@.servers =~= Seq::<Seq<char>>::empty());
        assert(p@.includes =~= Seq::<Seq<char>>::empty());
        assert(p@.architectures =~= Seq::<Seq<char>>::empty());
        assert(p@.cache_dirs =~= Seq::<Seq<char>>::empty());
        p
    }

    /// The level recorded for `name`, or the default level.
    fn lookup_sig(&self, name: &str) -> (s: u32)
        ensures
            s == sig_lookup(self@.db_sig, name@, self.default_sig),
    {
        let ghost m = self@.db_sig;
        let mut i = self.db_sig.len();
        assert(m.take(i as int) =~= m);
        while i > 0
            invariant
                i <= self.db_sig@.len(),
                m == self@.db_sig,
                m.len() == self.db_sig@.len(),
                sig_lookup(m, name@, self.default_sig) == sig_lookup(
                    m.take(i as int),
                    name@,
                    self.default_sig,
                ),
            decreases i,
        {
            let (n, s) = (&self.db_sig[i - 1].0, self.db_sig[i - 1].1);
            assert(m.take(i as int).last() == (n@, s));
            if str_eq(n.as_str(), name) {
                return s;
            }
            assert(m.take(i as int).drop_last() =~= m.take(i - 1));
            i = i - 1;
        }
        self.default_sig
    }

    /// The repository that the current section describes, if it is one.
    pub fn finish(&self) -> (r: Option<RepoSection>)
        ensures
            match r {
                Some(s) => closed_repo(self@) == Some(s@),
                None => closed_repo(self@) is None,
            },
    {
        match &self.current {
            Some(name) => {
                if str_eq(name.as_str(), "options") {
                    None
                } else {
                    let sig = self.lookup_sig(name.as_str());
                    Some(
                        RepoSection {
                            name: name.clone(),
                            servers: self.servers.clone(),
                            includes: self.include_paths.clone(),
                            sig,
                        },
                    )
                }
            },
            None => None,
        }
    }

    /// Reads one line of pacman.conf.
    pub fn feed_line(&mut self, raw: &str) -> (a: ConfAction)
        ensures
            (final(self)@, a@) == conf_step(old(self)@, raw@),
    {
        let t = trim_str(raw);
        let tv = to_chars(t.as_str());
        if tv.len() == 0 || tv[0] == '#' {
            return ConfAction::Nothing;
        }
        if tv[0] == '[' && tv[tv.len() - 1] == ']' {
            let closed = self.finish();
            let name = crate::text::string_of_range(&tv, 1, tv.len() - 1);
            self.current = Some(name);
            self.servers = Vec::new();
            self.include_paths = Vec::new();
            assert(self@.servers =~= Seq::<Seq<char>>::empty());
            assert(self@.includes =~= Seq::<Seq<char>>::empty());
            return match closed {
                Some(r) => ConfAction::RegisterRepo(r),
                None => ConfAction::Nothing,
            };
        }
        let is_options = match &self.current {
            None => {
                return ConfAction::Nothing;
            },
            Some(sec) => str_eq(sec.as_str(), "options"),
        };
        if is_options {
            self.option_line(t.as_str())
        } else {
            let sec = match &self.current {
                Some(sec) => sec.clone(),
                None => String::new(),
            };
            self.repo_line(sec.as_str(), t.as_str());
            ConfAction::Nothing
        }
    }

    fn option_line(&mut self, t: &str) -> (a: ConfAction)
        ensures
            (final(self)@, a@) == option_step(old(self)@, t@),
    {
        if let Some(v) = strip_prefix(t, "SigLevel = ") {
            self.default_sig = parse_siglevel(v.as_str());
            ConfAction::Nothing
        } else if let Some(v) = strip_prefix(t, "LocalFileSigLevel = ") {
            self.local_sig = parse_siglevel(v.as_str());
            ConfAction::Nothing
        } else if let Some(v) = strip_prefix(t, "RemoteFileSigLevel = ") {
            self.remote_sig = parse_siglevel(v.as_str());
            ConfAction::Nothing
        } else if let Some(v) = strip_prefix(t, "CacheDir = ") {
            let d = trim_str(v.as_str());
            proof {
                lemma_strs_push(self.cache_dirs@, d);
            }
            self.cache_dirs.push(d);
            ConfAction::Nothing
        } else if let Some(v) = strip_prefix(t, "Architecture = ") {
            let a = trim_str(v.as_str());
            let actual = if str_eq(a.as_str(), "auto") {
                self.native_arch.clone()
            } else {
                a
            };
            proof {
                lemma_strs_push(self.architectures@, actual);
            }
            self.architectures.push(actual);
            ConfAction::Nothing
        } else if let Some(v) = strip_prefix(t, "Include = ") {
            ConfAction::IncludeOptions(trim_str(v.as_str()))
        } else {
            handle_option(t)
        }
    }

    fn repo_line(&mut self, sec: &str, t: &str)
        requires
            old(self)@.current == Some(sec@),
        ensures
            final(self)@ == repo_step(old(self)@, sec@, t@),
    {
        if let Some(v) = strip_prefix(t, "SigLevel = ") {
            let s = parse_siglevel(v.as_str());
            let entry = (copy_str(sec), s);
            assert(self.db_sig@.push(entry).map_values(|p: (String, u32)| (p.0@, p.1))
                =~= self@.db_sig.push((sec@, s)));
            self.db_sig.push(entry);
        } else if let Some(v) = strip_prefix(t, "Include = ") {
            let p = trim_str(v.as_str());
            proof {
                lemma_strs_push(self.include_paths@, p);
            }
            self.include_paths.push(p);
        } else {
            handle_repo_line(t, &mut self.servers);
        }
    }

    /// Reads the lines of a file that an `Include` in `[options]` names.
    pub fn apply_options_include(&mut self, lines: &Vec<String>)
        ensures
            final(self)@ == include_options_all(old(self)@, strs(lines@)),
    {
        let ghost ls = strs(lines@);
        let mut i: usize = 0;
        assert(ls.skip(0) =~= ls);
        while i < lines.len()
            invariant
                ls == strs(lines@),
                i <= lines@.len(),
                include_options_all(old(self)@, ls) == include_options_all(
                    self@,
                    ls.skip(i as int),
                ),
            decreases lines@.len() - i,
        {
            let l = lines[i].as_str();
            assert(ls.skip(i as int)[0] == l@);
            assert(ls.skip(i as int).drop_first() =~= ls.skip(i + 1));
            if let Some(v) = strip_prefix(l, "SigLevel = ") {
                self.default_sig = parse_siglevel(v.as_str());
            } else if let Some(v) = strip_prefix(l, "LocalFileSigLevel = ") {
                self.local_sig = parse_siglevel(v.as_str());
            } else if let Some(v) = strip_prefix(l, "RemoteFileSigLevel = ") {
                self.remote_sig = parse_siglevel(v.as_str());
            }
            i = i + 1;
        }
        assert(ls.skip(i as int) =~= Seq::<Seq<char>>::empty());
    }

    /// The architectures to set: those configured (or the native one), then `any`.
    pub fn architecture_list(&self) -> (r: Vec<String>)
        ensures
            strs(r@) == architecture_list(self@),
    {
        let mut r: Vec<String> = Vec::new();
        if self.architectures.len() == 0 {
            r.push(self.native_arch.clone());
        } else {
            let mut i: usize = 0;
            while i < self.architectures.len()
                invariant
                    i <= self.architectures@.len(),
                    strs(r@) == strs(self.architectures@).take(i as int),
                decreases self.architectures@.len() - i,
            {
                proof {
                    lemma_strs_push(r@, self.architectures@[i as int]);
                }
                assert(strs(self.architectures@).take(i + 1) =~= strs(
                    self.architectures@,
                ).take(i as int).push(self.architectures@[i as int]@));
                r.push(self.architectures[i].clone());
                i = i + 1;
            }
            assert(strs(self.architectures@).take(i as int) =~= strs(self.architectures@));
        }
        let any = copy_str("any");
        proof {
            lemma_strs_push(r@, any);
        }
        r.push(any);
        proof {
            if self.architectures@.len() == 0 {
                assert(strs(r@) =~= seq![self.native_arch@, "any"@]);
            }
        }
        r
    }
}

/// An `[options]` line that names no setting of this parser.
pub fn handle_option(t: &str) -> (a: ConfAction)
    ensures
        a@ == option_action(t@),
{
    if let Some(v) = strip_prefix(t, "DownloadUser = ") {
        ConfAction::DownloadUser(trim_str(v.as_str()))
    } else if let Some(rest) = strip_prefix(t, "DisableSandbox") {
        proof {
            reveal_strlit(" ");
            reveal_strlit("=");
        }
        let sp = starts_with(rest.as_str(), " ");
        let eq = starts_with(rest.as_str(), "=");
        proof {
            if rest@.len() > 0 && rest@[0] == ' ' {
                assert(rest@.take(1) =~= " "@);
            }
            if rest@.len() > 0 && rest@[0] == '=' {
                assert(rest@.take(1) =~= "="@);
            }
            if sp {
                assert(rest@.take(1)[0] == ' ');
            }
            if eq {
                assert(rest@.take(1)[0] == '=');
            }
        }
        if rest.as_str().is_empty() || sp || eq {
            ConfAction::DisableSandbox
        } else {
            ConfAction::Nothing
        }
    } else if let Some(v) = strip_prefix(t, "ParallelDownloads = ") {
        match parse_u32(trim_str(v.as_str()).as_str()) {
            Some(n) => ConfAction::ParallelDownloads(n),
            None => ConfAction::Nothing,
        }
    } else {
        ConfAction::Nothing
    }
}

/// A repository line that is neither `SigLevel` nor `Include`: a `Server`
/// adds its value to `servers`.
pub fn handle_repo_line(t: &str, servers: &mut Vec<String>)
    ensures
        strs(final(servers)@) == (if has_prefix(t@, "Server = "@) {
            strs(old(servers)@).push(trim(t@.skip("Server = "@.len() as int)))
        } else {
            strs(old(servers)@)
        }),
{
    if let Some(v) = strip_prefix(t, "Server = ") {
        let s = trim_str(v.as_str());
        proof {
            lemma_strs_push(servers@, s);
        }
        servers.push(s);
    }
}

} // verus!

verus! {

/// Which of the three signature-level directives a line that starts with
/// one of them is, and what its value is.
proof fn lemma_level_prefixes(t: Seq<char>, v: Seq<char>)
    ensures
        t == "SigLevel = "@ + v ==> has_prefix(t, "SigLevel = "@) && t.skip(
            "SigLevel = "@.len() as int,
        ) == v,
        t == "LocalFileSigLevel = "@ + v ==> !has_prefix(t, "SigLevel = "@) && has_prefix(
            t,
            "LocalFileSigLevel = "@,
        ) && t.skip("LocalFileSigLevel = "@.len() as int) == v,
        t == "RemoteFileSigLevel = "@ + v ==> !has_prefix(t, "SigLevel = "@) && !has_prefix(
            t,
            "LocalFileSigLevel = "@,
        ) && has_prefix(t, "RemoteFileSigLevel = "@) && t.skip("RemoteFileSigLevel = "@.len() as int)
            == v,
        (t == "SigLevel = "@ + v || t == "LocalFileSigLevel = "@ + v || t == "RemoteFileSigLevel = "@
            + v) ==> t.len() > 0 && t[0] != '#' && t[0] != '[',
{
    reveal_strlit("SigLevel = ");
    reveal_strlit("LocalFileSigLevel = ");
    reveal_strlit("RemoteFileSigLevel = ");
    let ps = "SigLevel = "@;
    let pl = "LocalFileSigLevel = "@;
    let pr = "RemoteFileSigLevel = "@;
    if t == ps + v {
        assert(t.take(ps.len() as int) =~= ps);
        assert(t.skip(ps.len() as int) =~= v);
        assert(t[0] == ps[0]);
    }
    if t == pl + v {
        assert(t.take(pl.len() as int) =~= pl);
        assert(t.skip(pl.len() as int) =~= v);
        assert(t[0] == pl[0]);
        assert(!has_prefix(t, ps)) by {
            if has_prefix(t, ps) {
                assert(t.take(ps.len() as int)[0] == t[0]);
            }
        }
    }
    if t == pr + v {
        assert(t.take(pr.len() as int) =~= pr);
        assert(t.skip(pr.len() as int) =~= v);
        assert(t[0] == pr[0]);
        assert(!has_prefix(t, ps)) by {
            if has_prefix(t, ps) {
                assert(t.take(ps.len() as int)[0] == t[0]);
            }
        }
        assert(!has_prefix(t, pl)) by {
            if has_prefix(t, pl) {
                assert(t.take(pl.len() as int)[0] == t[0]);
            }
        }
    }
}

/// In `[options]`, each of the three signature-level directives sets its own
/// level to the level of its value and changes nothing else: `SigLevel` the
/// default level, `LocalFileSigLevel` that of package files installed from
/// disk, `RemoteFileSigLevel` that of downloaded ones.
pub proof fn lemma_options_siglevels(st: ConfModel, raw: Seq<char>, v: Seq<char>)
    requires
        st.current == Some("options"@),
    ensures
        trim(raw) == "SigLevel = "@ + v ==> conf_step(st, raw) == (
        (ConfModel { default_sig: siglevel_spec(v), ..st }),
        ActionModel::Nothing,
        ),
        trim(raw) == "LocalFileSigLevel = "@ + v ==> conf_step(st, raw) == (
        (ConfModel { local_sig: siglevel_spec(v), ..st }),
        ActionModel::Nothing,
        ),
        trim(raw) == "RemoteFileSigLevel = "@ + v ==> conf_step(st, raw) == (
        (ConfModel { remote_sig: siglevel_spec(v), ..st }),
        ActionModel::Nothing,
        ),
{
    reveal_strlit("options");
    lemma_level_prefixes(trim(raw), v);
}

/// In a repository section, `SigLevel` records the level of its value for
/// that repository, after any recorded before, and changes nothing else.
pub proof fn lemma_section_siglevel(st: ConfModel, sec: Seq<char>, raw: Seq<char>, v: Seq<char>)
    requires
        st.current == Some(sec),
        sec != "options"@,
        trim(raw) == "SigLevel = "@ + v,
    ensures
        conf_step(st, raw) == (
        (ConfModel { db_sig: st.db_sig.push((sec, siglevel_spec(v))), ..st }),
        ActionModel::Nothing,
        ),
{
    lemma_level_prefixes(trim(raw), v);
}

/// The same holds of the lines of a file that `[options]` includes: each of
/// the three directives there sets its own level, and nothing else.
pub proof fn lemma_included_siglevels(st: ConfModel, l: Seq<char>, v: Seq<char>)
    ensures
        l == "SigLevel = "@ + v ==> include_options_step(st, l) == (ConfModel {
            default_sig: siglevel_spec(v),
            ..st
        }),
        l == "LocalFileSigLevel = "@ + v ==> include_options_step(st, l) == (ConfModel {
            local_sig: siglevel_spec(v),
            ..st
        }),
        l == "RemoteFileSigLevel = "@ + v ==> include_options_step(st, l) == (ConfModel {
            remote_sig: siglevel_spec(v),
            ..st
        }),
{
    lemma_level_prefixes(l, v);
}

/// `$repo` and `$arch` in a server URL replaced by a repository name and an
/// architecture.
pub open spec fn expand(s: Seq<char>, repo: Seq<char>, arch: Seq<char>) -> Seq<char> {
    replace_all(replace_all(s, "$repo"@, repo), "$arch"@, arch)
}

/// A server URL without `$repo` and `$arch` is used as it is written.
pub proof fn lemma_expand_plain(s: Seq<char>, repo: Seq<char>, arch: Seq<char>)
    requires
        !crate::text::contains(s, "$repo"@),
        !crate::text::contains(s, "$arch"@),
    ensures
        expand(s, repo, arch) == s,
{
    reveal_strlit("$repo");
    reveal_strlit("$arch");
    crate::text::lemma_replace_absent(s, "$repo"@, repo);
    crate::text::lemma_replace_absent(s, "$arch"@, arch);
}

/// A repository's own `SigLevel` wins over the default, the last one
/// given where there are several; a repository without one gets the default.
pub proof fn lemma_repo_siglevel(m: Seq<(Seq<char>, u32)>, sec: Seq<char>, v: u32, dflt: u32)
    ensures
        sig_lookup(m.push((sec, v)), sec, dflt) == v,
        (forall|i: int| 0 <= i < m.len() ==> (#[trigger] m[i]).0 != sec) ==> sig_lookup(m, sec, dflt) == dflt,
    decreases m.len(),
{
    assert(m.push((sec, v)).last() == (sec, v));
    if m.len() > 0 && (forall|i: int| 0 <= i < m.len() ==> (#[trigger] m[i]).0 != sec) {
        assert(m.last() == m[m.len() - 1]);
        lemma_repo_siglevel(m.drop_last(), sec, v, dflt);
        assert forall|i: int| 0 <= i < m.drop_last().len() implies (#[trigger] m.drop_last()[i]).0 != sec by {
            assert(m.drop_last()[i] == m[i]);
        }
    }
}

/// `$repo` and `$arch` in a server URL replaced.
pub fn expand_server(s: &str, repo: &str, arch: &str) -> (r: String)
    ensures
        r@ == expand(s@, repo@, arch@),
{
    proof {
        reveal_strlit("$repo");
        reveal_strlit("$arch");
    }
    let a = replace_str(s, "$repo", repo);
    replace_str(a.as_str(), "$arch", arch)
}

/// The servers to add to a repository: those of its section, then those
/// that its includes gave, each expanded for this repository.
pub open spec fn repo_server_list(
    r: RepoModel,
    included: Seq<Seq<char>>,
    arch: Seq<char>,
) -> Seq<Seq<char>> {
    let all = r.servers + included;
    Seq::new(all.len(), |i: int| expand(all[i], r.name, arch))
}

/// The servers to add to a finished repository section, given the servers
/// that its `Include` files gave (in order).
pub fn repo_servers(r: &RepoSection, included: &Vec<String>, arch: &str) -> (out: Vec<String>)
    ensures
        strs(out@) == repo_server_list(r@, strs(included@), arch@),
{
    let ghost all = r@.servers + strs(included@);
    let mut out: Vec<String> = Vec::new();
    let mut i: usize = 0;
    while i < r.servers.len()
        invariant
            all == r@.servers + strs(included@),
            i <= r.servers@.len(),
            strs(out@) =~= Seq::new(i as nat, |k: int| expand(all[k], r@.name, arch@)),
        decreases r.servers@.len() - i,
    {
        let e = expand_server(r.servers[i].as_str(), r.name.as_str(), arch);
        proof {
            lemma_strs_push(out@, e);
        }
        out.push(e);
        i = i + 1;
    }
    let mut j: usize = 0;
    while j < included.len()
        invariant
            all == r@.servers + strs(included@),
            j <= included@.len(),
            strs(out@) =~= Seq::new(
                (r.servers@.len() + j) as nat,
                |k: int| expand(all[k], r@.name, arch@),
            ),
        decreases included@.len() - j,
    {
        let e = expand_server(included[j].as_str(), r.name.as_str(), arch);
        proof {
            lemma_strs_push(out@, e);
            assert(all[r.servers@.len() + j] == included@[j as int]@);
        }
        out.push(e);
        j = j + 1;
    }
    out
}

/// What a line of a file included by a repository section gives.
pub enum IncludeEntry {
    /// A `Server` value, already expanded.
    Server(String),
    /// A nested `Include` path.
    Include(String),
}

/// The view of an [`IncludeEntry`].
pub enum EntryModel {
    Server(Seq<char>),
    Include(Seq<char>),
}

impl View for IncludeEntry {
    type V = EntryModel;

    open spec fn view(&self) -> EntryModel {
        match self {
            IncludeEntry::Server(s) => EntryModel::Server(s@),
            IncludeEntry::Include(p) => EntryModel::Include(p@),
        }
    }
}

/// The entry of one line; nested includes are read only where `nested`.
pub open spec fn include_line_entry(
    l: Seq<char>,
    repo: Seq<char>,
    arch: Seq<char>,
    nested: bool,
) -> Option<EntryModel> {
    let t = trim(l);
    if has_prefix(t, "Server = "@) {
        Some(EntryModel::Server(expand(t.skip("Server = "@.len() as int), repo, arch)))
    } else if nested && has_prefix(t, "Include = "@) {
        Some(EntryModel::Include(trim(t.skip("Include = "@.len() as int))))
    } else {
        None
    }
}

/// The entries of a sequence of lines, in order.
pub open spec fn include_entries_spec(
    ls: Seq<Seq<char>>,
    repo: Seq<char>,
    arch: Seq<char>,
    nested: bool,
) -> Seq<EntryModel>
    decreases ls.len(),
{
    if ls.len() == 0 {
        Seq::empty()
    } else {
        let rest = include_entries_spec(ls.drop_first(), repo, arch, nested);
        match include_line_entry(ls[0], repo, arch, nested) {
            Some(e) => seq![e] + rest,
            None => rest,
        }
    }
}

/// The entries of one line.
fn line_entry(l: &str, repo: &str, arch: &str, nested: bool) -> (r: Option<IncludeEntry>)
    ensures
        match r {
            Some(e) => include_line_entry(l@, repo@, arch@, nested) == Some(e@),
            None => include_line_entry(l@, repo@, arch@, nested) is None,
        },
{
    let t = trim_str(l);
    if let Some(v) = strip_prefix(t.as_str(), "Server = ") {
        Some(IncludeEntry::Server(expand_server(v.as_str(), repo, arch)))
    } else if nested {
        match strip_prefix(t.as_str(), "Include = ") {
            Some(v) => Some(IncludeEntry::Include(trim_str(v.as_str()))),
            None => None,
        }
    } else {
        None
    }
}

/// The servers and nested includes of a file included by the repository
/// `repo`.  A file reached through a glob pattern is read with
/// `nested == false`: its `Include` lines are not followed.
pub fn include_entries(content: &str, repo: &str, arch: &str, nested: bool) -> (r: Vec<IncludeEntry>)
    ensures
        r@.map_values(|e: IncludeEntry| e@) == include_entries_spec(
            lines_of(content@),
            repo@,
            arch@,
            nested,
        ),
{
    let ls = split_lines(content);
    let ghost lv = lines_of(content@);
    assert(strs(ls@) =~= lv);
    let mut r: Vec<IncludeEntry> = Vec::new();
    let mut i: usize = 0;
    assert(lv.skip(0) =~= lv);
    assert(r@.map_values(|e: IncludeEntry| e@) + include_entries_spec(lv, repo@, arch@, nested)
        =~= include_entries_spec(lv, repo@, arch@, nested));
    while i < ls.len()
        invariant
            lv == lines_of(content@),
            strs(ls@) == lv,
            i <= ls@.len(),
            r@.map_values(|e: IncludeEntry| e@) + include_entries_spec(
                lv.skip(i as int),
                repo@,
                arch@,
                nested,
            ) == include_entries_spec(lv, repo@, arch@, nested),
        decreases ls@.len() - i,
    {
        let ghost rest = lv.skip(i as int);
        assert(rest[0] == ls@[i as int]@);
        assert(rest.drop_first() =~= lv.skip(i + 1));
        match line_entry(ls[i].as_str(), repo, arch, nested) {
            Some(e) => {
                assert(r@.push(e).map_values(|x: IncludeEntry| x@) + include_entries_spec(
                    lv.skip(i + 1),
                    repo@,
                    arch@,
                    nested,
                ) =~= r@.map_values(|x: IncludeEntry| x@) + (seq![e@] + include_entries_spec(
                    rest.drop_first(),
                    repo@,
                    arch@,
                    nested,
                )));
                r.push(e);
            },
            None => {},
        }
        i = i + 1;
    }
    assert(lv.skip(i as int) =~= Seq::<Seq<char>>::empty());
    assert(r@.map_values(|e: IncludeEntry| e@) + Seq::<EntryModel>::empty() =~= r@.map_values(
        |e: IncludeEntry| e@,
    ));
    r
}

/// The path that an `Include` value names: as written where absolute,
/// else under `/etc/pacman.d/`.
pub open spec fn include_target_spec(path: Seq<char>) -> Seq<char> {
    if has_prefix(path, "/"@) {
        path
    } else {
        "/etc/pacman.d/"@ + path
    }
}

/// The path that an `Include` value names.
pub fn include_target(path: &str) -> (r: String)
    ensures
        r@ == include_target_spec(path@),
{
    if starts_with(path, "/") {
        copy_str(path)
    } else {
        cat("/etc/pacman.d/", path)
    }
}

/// Whether an include file name matches a pattern: `*` matches every name;
/// `prefix*` the names that begin with `prefix`; `*suffix` those that end
/// with `suffix`; any other pattern only itself.
pub open spec fn glob_match_spec(pattern: Seq<char>, filename: Seq<char>) -> bool {
    if pattern == "*"@ {
        true
    } else if has_suffix(pattern, "*"@) {
        has_prefix(filename, pattern.drop_last())
    } else if has_prefix(pattern, "*"@) {
        has_suffix(filename, pattern.drop_first())
    } else {
        pattern == filename
    }
}

/// The pattern `*` matches every file name, and a pattern without `*`
/// matches only itself.
pub proof fn lemma_glob_laws(pattern: Seq<char>, filename: Seq<char>)
    ensures
        glob_match_spec("*"@, filename),
        !crate::text::has_char(pattern, '*') ==> (glob_match_spec(pattern, filename) <==> pattern == filename),
{
    reveal_strlit("*");
    if !crate::text::has_char(pattern, '*') {
        if pattern == "*"@ {
            assert(pattern[0] == '*');
        }
        if has_suffix(pattern, "*"@) {
            assert(pattern.skip(pattern.len() - 1)[0] == pattern[pattern.len() - 1]);
        }
        if has_prefix(pattern, "*"@) {
            assert(pattern.take(1)[0] == pattern[0]);
        }
    }
}

/// Matches a file name against the pattern of a globbed `Include`.
pub fn glob_match(pattern: &str, filename: &str) -> (r: bool)
    ensures
        r == glob_match_spec(pattern@, filename@),
{
    proof {
        reveal_strlit("*");
    }
    if str_eq(pattern, "*") {
        return true;
    }
    let pv = to_chars(pattern);
    if ends_with(pattern, "*") {
        assert(pattern@.skip(pattern@.len() - 1) =~= seq![pattern@.last()]);
        let prefix = crate::text::string_of_range(&pv, 0, pv.len() - 1);
        assert(pattern@.drop_last() =~= pv@.subrange(0, pv@.len() - 1));
        return starts_with(filename, prefix.as_str());
    }
    if starts_with(pattern, "*") {
        let suffix = crate::text::string_of_range(&pv, 1, pv.len());
        assert(pattern@.drop_first() =~= pv@.subrange(1, pv@.len() as int));
        return ends_with(filename, suffix.as_str());
    }
    str_eq(pattern, filename)
}

} // verus!
