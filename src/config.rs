//! Settings: the per-repository build plan and the base directories to scan.
use vstd::prelude::*;
use vstd::string::*;
use crate::document::{DocView, TomlNode, entries_view, parse_document, shallow, toml_parse, TOO_DEEP, toml_node, value_view};

verus! {

// ---------------------------------------------------------------- lookup

/// `i` is the first position of `key` among the entries.
pub open spec fn first_index(es: Seq<(Seq<char>, DocView)>, key: Seq<char>, i: int) -> bool {
    0 <= i < es.len() && es[i].0 == key && forall|j: int| 0 <= j < i ==> es[j].0 != key
}

/// The value under `key` in a table's entries.
pub open spec fn lookup(es: Seq<(Seq<char>, DocView)>, key: Seq<char>) -> Option<DocView> {
    if exists|i: int| first_index(es, key, i) {
        Some(es[choose|i: int| first_index(es, key, i)].1)
    } else {
        None
    }
}

/// A flag: `default` when absent, `None` when the value is not a boolean.
pub open spec fn flag_field(es: Seq<(Seq<char>, DocView)>, key: Seq<char>, default: bool) -> Option<bool> {
    match lookup(es, key) {
        None => Some(default),
        Some(DocView::Bool(b)) => Some(b),
        _ => None,
    }
}

pub open spec fn str_of(x: DocView) -> Seq<char> {
    match x {
        DocView::Str(s) => s,
        _ => seq![],
    }
}

pub open spec fn strs(v: Seq<String>) -> Seq<Seq<char>> {
    v.map_values(|s: String| s@)
}

/// A list of strings: empty when absent, `None` when the value is not an
/// array of strings.
pub open spec fn list_field(es: Seq<(Seq<char>, DocView)>, key: Seq<char>) -> Option<Seq<Seq<char>>> {
    match lookup(es, key) {
        None => Some(seq![]),
        Some(DocView::Array(xs)) => if forall|i: int| 0 <= i < xs.len() ==> xs[i] is Str {
            Some(xs.map_values(|x: DocView| str_of(x)))
        } else {
            None
        },
        _ => None,
    }
}

/// An optional string: `Some(None)` when absent, `None` when not a string.
pub open spec fn str_field(es: Seq<(Seq<char>, DocView)>, key: Seq<char>) -> Option<Option<Seq<char>>> {
    match lookup(es, key) {
        None => Some(None),
        Some(DocView::Str(s)) => Some(Some(s)),
        _ => None,
    }
}

/// Whether two strings hold the same characters.
pub fn text_eq(a: &str, b: &str) -> (r: bool)
    ensures
        r == (a@ == b@),
{
    let n = a.unicode_len();
    if n != b.unicode_len() {
        return false;
    }
    let mut i: usize = 0;
    while i < n
        invariant
            n == a@.len() == b@.len(),
            i <= n,
            forall|j: int| 0 <= j < i ==> a@[j] == b@[j],
        decreases n - i,
    {
        if a.get_char(i) != b.get_char(i) {
            return false;
        }
        i = i + 1;
    }
    assert(a@ =~= b@);
    true
}

/// The position of `key` among a table's entries.
fn find_entry(es: &Vec<(String, toml::Value)>, key: &str) -> (r: Option<usize>)
    ensures
        match r {
            Some(i) => i < es@.len() && lookup(entries_view(es@), key@) == Some(
                value_view(es@[i as int].1),
            ),
            None => lookup(entries_view(es@), key@) is None,
        },
{
    let ghost ev = entries_view(es@);
    let mut i: usize = 0;
    while i < es.len()
        invariant
            ev == entries_view(es@),
            i <= es@.len(),
            forall|j: int| 0 <= j < i ==> ev[j].0 != key@,
        decreases es.len() - i,
    {
        if text_eq(es[i].0.as_str(), key) {
            assert(first_index(ev, key@, i as int));
            let ghost c = choose|c: int| first_index(ev, key@, c);
            assert(c == i) by {
                if c < i {
                } else if c > i {
                    assert(ev[i as int].0 == key@);
                }
            }
            return Some(i);
        }
        i = i + 1;
    }
    None
}

fn read_flag(es: &Vec<(String, toml::Value)>, key: &str, default: bool) -> (r: Option<bool>)
    ensures
        r == flag_field(entries_view(es@), key@, default),
{
    match find_entry(es, key) {
        None => Some(default),
        Some(i) => match toml_node(&es[i].1) {
            TomlNode::Bool(b) => Some(b),
            _ => None,
        },
    }
}

fn read_str(es: &Vec<(String, toml::Value)>, key: &str) -> (r: Option<Option<String>>)
    ensures
        match str_field(entries_view(es@), key@) {
            None => r is None,
            Some(None) => r == Some(None::<String>),
            Some(Some(s)) => r is Some && r->0 is Some && r->0->0@ == s,
        },
{
    match find_entry(es, key) {
        None => Some(None),
        Some(i) => match toml_node(&es[i].1) {
            TomlNode::Str(s) => Some(Some(s)),
            _ => None,
        },
    }
}

fn read_list(es: &Vec<(String, toml::Value)>, key: &str) -> (r: Option<Vec<String>>)
    ensures
        match list_field(entries_view(es@), key@) {
            None => r is None,
            Some(l) => r is Some && strs(r->0@) == l,
        },
{
    match find_entry(es, key) {
        None => {
            let out: Vec<String> = Vec::new();
            assert(strs(out@) =~= seq![]);
            Some(out)
        },
        Some(k) => match toml_node(&es[k].1) {
            TomlNode::Array(xs) => {
                let ghost xv = xs@.map_values(|x: toml::Value| value_view(x));
                let mut out: Vec<String> = Vec::new();
                let mut i: usize = 0;
                while i < xs.len()
                    invariant
                        xv == xs@.map_values(|x: toml::Value| value_view(x)),
                        lookup(entries_view(es@), key@) == Some(DocView::Array(xv)),
                        i <= xs@.len(),
                        forall|j: int| 0 <= j < i ==> xv[j] is Str,
                        strs(out@) =~= xv.take(i as int).map_values(|x: DocView| str_of(x)),
                    decreases xs.len() - i,
                {
                    let ghost before = out@;
                    match toml_node(&xs[i]) {
                        TomlNode::Str(s) => {
                            out.push(s);
                            assert(strs(out@) =~= strs(before).push(s@));
                        },
                        _ => {
                            assert(!(xv[i as int] is Str));
                            assert(!(forall|j: int| 0 <= j < xv.len() ==> xv[j] is Str));
                            return None;
                        },
                    }
                    assert(xv.take(i + 1) =~= xv.take(i as int).push(xv[i as int]));
                    assert(xv.take(i + 1).map_values(|x: DocView| str_of(x)) =~= xv.take(
                        i as int,
                    ).map_values(|x: DocView| str_of(x)).push(str_of(xv[i as int])));
                    i = i + 1;
                }
                assert(xv.take(i as int) =~= xv);
                Some(out)
            },
            _ => None,
        },
    }
}

// ---------------------------------------------------------------- errors

/// Why the settings could not be resolved.
#[derive(Clone, Debug, PartialEq, Eq)]
pub enum ConfigError {
    /// A base directory's path, after expansion, is relative.
    BaseDirRelative(String),
    /// A base directory's path does not name an existing directory.
    BaseDirNotDir(String),
    /// A settings file could not be read; the reason.
    File(String),
    /// A settings file is not a TOML document; the parser's message.
    Toml(String),
    /// A key of the settings holds a value of the wrong kind (empty: the
    /// document itself is not a table).
    Invalid(String),
    /// A base directory table, by label, gives no `path`.
    MissingPath(String),
    /// A key of a base directory table, by label, holds a value of the wrong
    /// kind (empty key: the entry is not a table).
    InvalidDir(String, String),
}

/// The content of a `ConfigError`.
pub enum Fault {
    BaseDirRelative(Seq<char>),
    BaseDirNotDir(Seq<char>),
    File(Seq<char>),
    Toml(Seq<char>),
    Invalid(Seq<char>),
    MissingPath(Seq<char>),
    InvalidDir(Seq<char>, Seq<char>),
}

impl View for ConfigError {
    type V = Fault;

    open spec fn view(&self) -> Fault {
        match self {
            ConfigError::BaseDirRelative(p) => Fault::BaseDirRelative(p@),
            ConfigError::BaseDirNotDir(p) => Fault::BaseDirNotDir(p@),
            ConfigError::File(m) => Fault::File(m@),
            ConfigError::Toml(m) => Fault::Toml(m@),
            ConfigError::Invalid(k) => Fault::Invalid(k@),
            ConfigError::MissingPath(l) => Fault::MissingPath(l@),
            ConfigError::InvalidDir(l, k) => Fault::InvalidDir(l@, k@),
        }
    }
}

// ---------------------------------------------------------------- per repository

/// The settings of one repository, as values.
pub struct RepoSettings {
    pub path: Seq<char>,
    pub name: Seq<char>,
    pub build: Seq<Seq<char>>,
    pub clean: Seq<Seq<char>>,
    pub autoclean: bool,
    pub autoupdate: bool,
}

/// The build plan of a repository: its commands and when they run.
#[derive(Clone, Debug, PartialEq, Eq)]
pub struct RemaConfig {
    /// Working tree of the repository.
    pub path: String,
    /// Display label.
    pub name: String,
    /// Command lines that build the repository, in order.
    pub build: Vec<String>,
    /// Command lines that clean the repository, in order.
    pub clean: Vec<String>,
    /// Clean after every completed build.
    pub autoclean: bool,
    /// Build right after a pull that brought new content.
    pub autoupdate: bool,
}

impl View for RemaConfig {
    type V = RepoSettings;

    open spec fn view(&self) -> RepoSettings {
        RepoSettings {
            path: self.path@,
            name: self.name@,
            build: strs(self.build@),
            clean: strs(self.clean@),
            autoclean: self.autoclean,
            autoupdate: self.autoupdate,
        }
    }
}

/// The settings of a repository without a settings file.
pub open spec fn default_settings(path: Seq<char>) -> RepoSettings {
    RepoSettings {
        path,
        name: path,
        build: seq![],
        clean: seq![],
        autoclean: false,
        autoupdate: false,
    }
}

/// The settings that a repository's document gives, or the key at fault.
pub open spec fn repo_settings(doc: DocView, path: Seq<char>) -> Result<RepoSettings, Seq<char>> {
    match doc {
        DocView::Table(es) => {
            if str_field(es, "name"@) is None {
                Err("name"@)
            } else if list_field(es, "build"@) is None {
                Err("build"@)
            } else if list_field(es, "clean"@) is None {
                Err("clean"@)
            } else if flag_field(es, "autoclean"@, false) is None {
                Err("autoclean"@)
            } else if flag_field(es, "autoupdate"@, false) is None {
                Err("autoupdate"@)
            } else {
                Ok(
                    RepoSettings {
                        path,
                        name: match str_field(es, "name"@)->0 {
                            Some(n) => n,
                            None => path,
                        },
                        build: list_field(es, "build"@)->0,
                        clean: list_field(es, "clean"@)->0,
                        autoclean: flag_field(es, "autoclean"@, false)->0,
                        autoupdate: flag_field(es, "autoupdate"@, false)->0,
                    },
                )
            }
        },
        _ => Err(seq![]),
    }
}

impl RemaConfig {
    /// The settings of a repository at `path` that has no settings file.
    pub fn default_for(path: &str) -> (r: RemaConfig)
        ensures
            r@ == default_settings(path@),
    {
        let r = RemaConfig {
            path: path.to_owned(),
            name: path.to_owned(),
            build: Vec::new(),
            clean: Vec::new(),
            autoclean: false,
            autoupdate: false,
        };
        assert(r@.build =~= seq![]);
        assert(r@.clean =~= seq![]);
        r
    }

    /// The settings that a parsed settings document gives for the repository
    /// at `path`; unset keys take their defaults, unknown keys are ignored.
    pub fn from_item(doc: &toml::Value, path: &str) -> (r: Result<RemaConfig, ConfigError>)
        ensures
            match repo_settings(value_view(*doc), path@) {
                Ok(s) => r is Ok && r->Ok_0@ == s,
                Err(k) => r is Err && r->Err_0@ == Fault::Invalid(k),
            },
    {
        let es = match toml_node(doc) {
            TomlNode::Table(es) => es,
            _ => {
                return Err(ConfigError::Invalid(String::new()));
            },
        };
        let es = &es;
        let name = match read_str(es, "name") {
            Some(n) => n,
            None => {
                return Err(ConfigError::Invalid("name".to_owned()));
            },
        };
        let build = match read_list(es, "build") {
            Some(b) => b,
            None => {
                return Err(ConfigError::Invalid("build".to_owned()));
            },
        };
        let clean = match read_list(es, "clean") {
            Some(c) => c,
            None => {
                return Err(ConfigError::Invalid("clean".to_owned()));
            },
        };
        let autoclean = match read_flag(es, "autoclean", false) {
            Some(b) => b,
            None => {
                return Err(ConfigError::Invalid("autoclean".to_owned()));
            },
        };
        let autoupdate = match read_flag(es, "autoupdate", false) {
            Some(b) => b,
            None => {
                return Err(ConfigError::Invalid("autoupdate".to_owned()));
            },
        };
        let name = match name {
            Some(n) => n,
            None => path.to_owned(),
        };
        Ok(RemaConfig { path: path.to_owned(), name, build, clean, autoclean, autoupdate })
    }

    /// The settings of the repository at `path`, from the text of its settings
    /// file, or the defaults where it has none. A file that is not a TOML
    /// document is an error, never taken for a missing one.
    pub fn resolve(path: &str, file: Option<&str>) -> (r: Result<RemaConfig, ConfigError>)
        ensures
            file is None ==> r is Ok && r->Ok_0@ == default_settings(path@),
            file is Some && !shallow(file->0@) ==> r is Err && r->Err_0@ == Fault::Toml(TOO_DEEP@),
            file is Some && shallow(file->0@) ==> match toml_parse(file->0@) {
                Err(m) => r is Err && r->Err_0@ == Fault::Toml(m),
                Ok(d) => match repo_settings(d, path@) {
                    Ok(s) => r is Ok && r->Ok_0@ == s,
                    Err(k) => r is Err && r->Err_0@ == Fault::Invalid(k),
                },
            },
            r is Ok ==> r->Ok_0@.path == path@,
    {
        match file {
            None => Ok(RemaConfig::default_for(path)),
            Some(text) => match parse_document(text) {
                Ok(doc) => RemaConfig::from_item(&doc, path),
                Err(m) => Err(ConfigError::Toml(m)),
            },
        }
    }

    /// Working tree of the repository.
    pub fn path(&self) -> (r: &str)
        ensures
            r@ == self.path@,
    {
        self.path.as_str()
    }
}


// ---------------------------------------------------------------- base directories

/// `~` alone, or a leading `~/`, stands for the home directory when one is known.
pub open spec fn expand_home(p: Seq<char>, home: Option<Seq<char>>) -> Seq<char> {
    match home {
        Some(h) => if p == seq!['~'] {
            h
        } else if p.len() >= 2 && p[0] == '~' && p[1] == '/' {
            h + p.skip(1)
        } else {
            p
        },
        None => p,
    }
}

pub open spec fn is_absolute(p: Seq<char>) -> bool {
    p.len() > 0 && p[0] == '/'
}

/// Expands a leading `~` of a path.
pub fn expand_path(p: &str, home: Option<&str>) -> (r: String)
    ensures
        r@ == expand_home(p@, match home {
            Some(h) => Some(h@),
            None => None,
        }),
{
    match home {
        None => p.to_owned(),
        Some(h) => {
            let n = p.unicode_len();
            if n == 1 && p.get_char(0) == '~' {
                assert(p@ =~= seq!['~']);
                h.to_owned()
            } else if n >= 2 && p.get_char(0) == '~' && p.get_char(1) == '/' {
                let mut out = h.to_owned();
                out.append(p.substring_char(1, n));
                assert(p@.skip(1) =~= p@.subrange(1, n as int));
                out
            } else {
                assert(n == 1 ==> p@ != seq!['~']) by {
                    if n == 1 && p@ == seq!['~'] {
                        assert(p@[0] == '~');
                    }
                }
                p.to_owned()
            }
        },
    }
}

/// A character that can stand in a variable's name.
pub open spec fn is_name_char(c: char) -> bool {
    ('a' <= c && c <= 'z') || ('A' <= c && c <= 'Z') || ('0' <= c && c <= '9') || c == '_'
}

/// The length of the variable name that `t` begins with.
pub open spec fn name_len(t: Seq<char>) -> nat
    decreases t.len(),
{
    if t.len() > 0 && is_name_char(t[0]) {
        1 + name_len(t.drop_first())
    } else {
        0
    }
}

/// The value of the first variable named `name`.
pub open spec fn var_lookup(vars: Seq<(Seq<char>, Seq<char>)>, name: Seq<char>) -> Option<Seq<char>>
    decreases vars.len(),
{
    if vars.len() == 0 {
        None
    } else if vars[0].0 == name {
        Some(vars[0].1)
    } else {
        var_lookup(vars.drop_first(), name)
    }
}

pub open spec fn vars_view(vars: Seq<(String, String)>) -> Seq<(Seq<char>, Seq<char>)> {
    vars.map_values(|v: (String, String)| (v.0@, v.1@))
}

/// `s` with each `$NAME` replaced by the value of variable `NAME`; a name
/// without a value, or a `$` that no name follows, stays as it is.
pub open spec fn expand_vars(s: Seq<char>, vars: Seq<(Seq<char>, Seq<char>)>) -> Seq<char>
    decreases s.len(),
{
    if s.len() == 0 {
        seq![]
    } else if s[0] == '$' && 0 < name_len(s.drop_first()) && name_len(s.drop_first()) < s.len() {
        let end = 1 + name_len(s.drop_first()) as int;
        (match var_lookup(vars, s.subrange(1, end)) {
            Some(v) => v,
            None => s.take(end),
        }) + expand_vars(s.skip(end), vars)
    } else {
        seq![s[0]] + expand_vars(s.drop_first(), vars)
    }
}

proof fn lemma_name_len(t: Seq<char>, k: int)
    requires
        0 <= k <= t.len(),
        forall|x: int| 0 <= x < k ==> is_name_char(t[x]),
        k == t.len() || !is_name_char(t[k]),
    ensures
        name_len(t) == k,
    decreases k,
{
    if k > 0 {
        lemma_name_len(t.drop_first(), k - 1);
    }
}

fn is_name_character(c: char) -> (r: bool)
    ensures
        r == is_name_char(c),
{
    ('a' <= c && c <= 'z') || ('A' <= c && c <= 'Z') || ('0' <= c && c <= '9') || c == '_'
}

/// The position of the first variable named `name`.
fn find_var(vars: &Vec<(String, String)>, name: &str) -> (r: Option<usize>)
    ensures
        match r {
            Some(i) => i < vars@.len() && var_lookup(vars_view(vars@), name@) == Some(
                vars@[i as int].1@,
            ),
            None => var_lookup(vars_view(vars@), name@) is None,
        },
{
    let ghost vv = vars_view(vars@);
    let mut i: usize = 0;
    assert(vv.skip(0) =~= vv);
    while i < vars.len()
        invariant
            vv == vars_view(vars@),
            i <= vars@.len(),
            var_lookup(vv, name@) == var_lookup(vv.skip(i as int), name@),
        decreases vars.len() - i,
    {
        assert(vv.skip(i as int)[0] == (vars@[i as int].0@, vars@[i as int].1@));
        if text_eq(vars[i].0.as_str(), name) {
            return Some(i);
        }
        assert(vv.skip(i as int).drop_first() =~= vv.skip(i + 1));
        i = i + 1;
    }
    None
}

/// Replaces each `$NAME` of `p` by the value of variable `NAME` in `vars`.
pub fn expand_variables(p: &str, vars: &Vec<(String, String)>) -> (r: String)
    ensures
        r@ == expand_vars(p@, vars_view(vars@)),
{
    let ghost vv = vars_view(vars@);
    let n = p.unicode_len();
    let mut out = String::new();
    let mut i: usize = 0;
    assert(p@.skip(0) =~= p@);
    while i < n
        invariant
            vv == vars_view(vars@),
            n == p@.len(),
            i <= n,
            out@ + expand_vars(p@.skip(i as int), vv) == expand_vars(p@, vv),
        decreases n - i,
    {
        let ghost rest = p@.skip(i as int);
        assert(rest.drop_first() =~= p@.skip(i + 1));
        let c = p.get_char(i);
        let mut j: usize = i + 1;
        if c == '$' {
            while j < n && is_name_character(p.get_char(j))
                invariant
                    n == p@.len(),
                    i < j <= n,
                    forall|x: int| i + 1 <= x < j ==> is_name_char(p@[x]),
                decreases n - j,
            {
                j = j + 1;
            }
            proof {
                let t = p@.skip(i + 1);
                assert forall|x: int| 0 <= x < j - i - 1 implies is_name_char(t[x]) by {
                    assert(t[x] == p@[i + 1 + x]);
                }
                if j < n {
                    assert(t[j - i - 1] == p@[j as int]);
                }
                lemma_name_len(t, j - i - 1);
            }
        }
        if c == '$' && j > i + 1 {
            assert(rest.subrange(1, (j - i) as int) =~= p@.subrange(i + 1, j as int));
            assert(rest.take((j - i) as int) =~= p@.subrange(i as int, j as int));
            assert(rest.skip((j - i) as int) =~= p@.skip(j as int));
            let name = p.substring_char(i + 1, j);
            match find_var(vars, name) {
                Some(k) => out.append(vars[k].1.as_str()),
                None => out.append(p.substring_char(i, j)),
            }
            i = j;
        } else {
            assert(p@.subrange(i as int, i + 1) =~= seq![rest[0]]);
            out.append(p.substring_char(i, i + 1));
            i = i + 1;
        }
    }
    assert(p@.skip(n as int) =~= seq![]);
    assert(out@ + seq![] =~= out@);
    out
}

/// The key of a base directory table that lists the only names to keep.
pub const KEEP_KEY: &'static str = "\u{69}nclude";

/// The settings of one base directory, as values.
pub struct DirSettings {
    pub label: Seq<char>,
    pub path: Seq<char>,
    pub only: Seq<Seq<char>>,
    pub ignore: Seq<Seq<char>>,
    pub autoclean: bool,
    pub autoupdate: bool,
}

/// The settings of the whole tool, as values.
pub struct GlobalSettings {
    pub dirs: Seq<DirSettings>,
    pub autoclean: bool,
    pub autoupdate: bool,
}

/// A directory whose children are candidate repositories.
#[derive(Clone, Debug, PartialEq, Eq)]
pub struct BaseDirEntry {
    /// The label of its table under `dir`.
    pub label: String,
    /// Absolute path, expanded.
    pub path: String,
    /// Names to keep (empty: all).
    pub only: Vec<String>,
    /// Names to leave out.
    pub ignore: Vec<String>,
    pub autoclean: bool,
    pub autoupdate: bool,
}

impl View for BaseDirEntry {
    type V = DirSettings;

    open spec fn view(&self) -> DirSettings {
        DirSettings {
            label: self.label@,
            path: self.path@,
            only: strs(self.only@),
            ignore: strs(self.ignore@),
            autoclean: self.autoclean,
            autoupdate: self.autoupdate,
        }
    }
}

/// The top-level settings: base directories and default flags.
#[derive(Clone, Debug, PartialEq, Eq)]
pub struct GlobalConfig {
    pub base_dirs: Vec<BaseDirEntry>,
    pub autoclean: bool,
    pub autoupdate: bool,
}

impl View for GlobalConfig {
    type V = GlobalSettings;

    open spec fn view(&self) -> GlobalSettings {
        GlobalSettings {
            dirs: self.base_dirs@.map_values(|d: BaseDirEntry| d@),
            autoclean: self.autoclean,
            autoupdate: self.autoupdate,
        }
    }
}

/// The settings of the base directory labelled `label`, whose flags default
/// to `clean` and `update`. Its path has a leading `~` expanded with `home`,
/// then each `$NAME` with `vars`, and must then be absolute.
pub open spec fn dir_settings(
    label: Seq<char>,
    item: DocView,
    clean: bool,
    update: bool,
    home: Option<Seq<char>>,
    vars: Seq<(Seq<char>, Seq<char>)>,
) -> Result<DirSettings, Fault> {
    match item {
        DocView::Table(es) => {
            let full = expand_vars(expand_home(str_field(es, "path"@)->0->0, home), vars);
            if str_field(es, "path"@) is None {
                Err(Fault::InvalidDir(label, "path"@))
            } else if str_field(es, "path"@)->0 is None {
                Err(Fault::MissingPath(label))
            } else if !is_absolute(full) {
                Err(Fault::BaseDirRelative(full))
            } else if list_field(es, KEEP_KEY@) is None {
                Err(Fault::InvalidDir(label, KEEP_KEY@))
            } else if list_field(es, "ignore"@) is None {
                Err(Fault::InvalidDir(label, "ignore"@))
            } else if flag_field(es, "autoclean"@, clean) is None {
                Err(Fault::InvalidDir(label, "autoclean"@))
            } else if flag_field(es, "autoupdate"@, update) is None {
                Err(Fault::InvalidDir(label, "autoupdate"@))
            } else {
                Ok(
                    DirSettings {
                        label,
                        path: full,
                        only: list_field(es, KEEP_KEY@)->0,
                        ignore: list_field(es, "ignore"@)->0,
                        autoclean: flag_field(es, "autoclean"@, clean)->0,
                        autoupdate: flag_field(es, "autoupdate"@, update)->0,
                    },
                )
            }
        },
        _ => Err(Fault::InvalidDir(label, seq![])),
    }
}

/// The settings of the base directories of the `dir` table, in its order; the
/// first fault, if any.
pub open spec fn dirs_settings(
    es: Seq<(Seq<char>, DocView)>,
    clean: bool,
    update: bool,
    home: Option<Seq<char>>,
    vars: Seq<(Seq<char>, Seq<char>)>,
) -> Result<Seq<DirSettings>, Fault>
    decreases es.len(),
{
    if es.len() == 0 {
        Ok(seq![])
    } else {
        match dirs_settings(es.drop_last(), clean, update, home, vars) {
            Err(f) => Err(f),
            Ok(ds) => match dir_settings(es.last().0, es.last().1, clean, update, home, vars) {
                Err(f) => Err(f),
                Ok(d) => Ok(ds.push(d)),
            },
        }
    }
}

/// The settings that a parsed global settings document gives.
pub open spec fn global_settings(
    doc: DocView,
    home: Option<Seq<char>>,
    vars: Seq<(Seq<char>, Seq<char>)>,
) -> Result<GlobalSettings, Fault> {
    match doc {
        DocView::Table(es) => {
            let clean = flag_field(es, "autoclean"@, false)->0;
            let update = flag_field(es, "autoupdate"@, false)->0;
            if flag_field(es, "autoclean"@, false) is None {
                Err(Fault::Invalid("autoclean"@))
            } else if flag_field(es, "autoupdate"@, false) is None {
                Err(Fault::Invalid("autoupdate"@))
            } else {
                match lookup(es, "dir"@) {
                    None => Ok(GlobalSettings { dirs: seq![], autoclean: clean, autoupdate: update }),
                    Some(DocView::Table(ds)) => match dirs_settings(ds, clean, update, home, vars) {
                        Ok(dirs) => Ok(GlobalSettings { dirs, autoclean: clean, autoupdate: update }),
                        Err(f) => Err(f),
                    },
                    _ => Err(Fault::Invalid("dir"@)),
                }
            }
        },
        _ => Err(Fault::Invalid(seq![])),
    }
}

proof fn lemma_dirs_fault_stays(
    es: Seq<(Seq<char>, DocView)>,
    i: int,
    clean: bool,
    update: bool,
    home: Option<Seq<char>>,
    vars: Seq<(Seq<char>, Seq<char>)>,
)
    requires
        0 <= i <= es.len(),
        dirs_settings(es.take(i), clean, update, home, vars) is Err,
    ensures
        dirs_settings(es, clean, update, home, vars) == dirs_settings(es.take(i), clean, update, home, vars),
    decreases es.len(),
{
    if i == es.len() {
        assert(es.take(i) =~= es);
    } else {
        assert(es.drop_last().take(i) =~= es.take(i));
        lemma_dirs_fault_stays(es.drop_last(), i, clean, update, home, vars);
    }
}

pub open spec fn home_view(home: Option<&str>) -> Option<Seq<char>> {
    match home {
        Some(h) => Some(h@),
        None => None,
    }
}

impl BaseDirEntry {
    /// The base directory labelled `label` from its table, with flags
    /// defaulting to `clean` and `update`, and its path expanded.
    pub fn from_item(
        label: &str,
        item: &toml::Value,
        clean: bool,
        update: bool,
        home: Option<&str>,
        vars: &Vec<(String, String)>,
    ) -> (r: Result<BaseDirEntry, ConfigError>)
        ensures
            match dir_settings(label@, value_view(*item), clean, update, home_view(home), vars_view(vars@)) {
                Ok(d) => r is Ok && r->Ok_0@ == d,
                Err(f) => r is Err && r->Err_0@ == f,
            },
    {
        let es = match toml_node(item) {
            TomlNode::Table(es) => es,
            _ => {
                return Err(ConfigError::InvalidDir(label.to_owned(), String::new()));
            },
        };
        let es = &es;
        let raw = match read_str(es, "path") {
            None => {
                return Err(ConfigError::InvalidDir(label.to_owned(), "path".to_owned()));
            },
            Some(None) => {
                return Err(ConfigError::MissingPath(label.to_owned()));
            },
            Some(Some(p)) => p,
        };
        let path = expand_variables(expand_path(raw.as_str(), home).as_str(), vars);
        if !(path.as_str().unicode_len() > 0 && path.as_str().get_char(0) == '/') {
            return Err(ConfigError::BaseDirRelative(path));
        }
        let only = match read_list(es, KEEP_KEY) {
            Some(l) => l,
            None => {
                return Err(ConfigError::InvalidDir(label.to_owned(), KEEP_KEY.to_owned()));
            },
        };
        let ignore = match read_list(es, "ignore") {
            Some(l) => l,
            None => {
                return Err(ConfigError::InvalidDir(label.to_owned(), "ignore".to_owned()));
            },
        };
        let autoclean = match read_flag(es, "autoclean", clean) {
            Some(b) => b,
            None => {
                return Err(ConfigError::InvalidDir(label.to_owned(), "autoclean".to_owned()));
            },
        };
        let autoupdate = match read_flag(es, "autoupdate", update) {
            Some(b) => b,
            None => {
                return Err(ConfigError::InvalidDir(label.to_owned(), "autoupdate".to_owned()));
            },
        };
        Ok(BaseDirEntry { label: label.to_owned(), path, only, ignore, autoclean, autoupdate })
    }
}

impl GlobalConfig {
    /// Every base directory's path is absolute.
    pub open spec fn wf(&self) -> bool {
        forall|i: int| 0 <= i < self.base_dirs@.len() ==> is_absolute(#[trigger] self.base_dirs@[i].path@)
    }

    /// The settings that a parsed global settings document gives; `home`
    /// expands a leading `~` of the base directories' paths, `vars` their
    /// `$NAME`s.
    pub fn from_item(doc: &toml::Value, home: Option<&str>, vars: &Vec<(String, String)>) -> (r:
        Result<GlobalConfig, ConfigError>)
        ensures
            match global_settings(value_view(*doc), home_view(home), vars_view(vars@)) {
                Ok(g) => r is Ok && r->Ok_0@ == g,
                Err(f) => r is Err && r->Err_0@ == f,
            },
            r is Ok ==> r->Ok_0.wf(),
    {
        let es = match toml_node(doc) {
            TomlNode::Table(es) => es,
            _ => {
                return Err(ConfigError::Invalid(String::new()));
            },
        };
        let es = &es;
        let clean = match read_flag(es, "autoclean", false) {
            Some(b) => b,
            None => {
                return Err(ConfigError::Invalid("autoclean".to_owned()));
            },
        };
        let update = match read_flag(es, "autoupdate", false) {
            Some(b) => b,
            None => {
                return Err(ConfigError::Invalid("autoupdate".to_owned()));
            },
        };
        let mut base_dirs: Vec<BaseDirEntry> = Vec::new();
        let k = match find_entry(es, "dir") {
            None => {
                let r = GlobalConfig { base_dirs, autoclean: clean, autoupdate: update };
                assert(r@.dirs =~= seq![]);
                return Ok(r);
            },
            Some(k) => k,
        };
        let ds = match toml_node(&es[k].1) {
            TomlNode::Table(ds) => ds,
            _ => {
                return Err(ConfigError::Invalid("dir".to_owned()));
            },
        };
        let ghost h = home_view(home);
        let ghost dv = entries_view(ds@);
        let mut i: usize = 0;
        assert(dv.take(0) =~= seq![]);
        assert(base_dirs@.map_values(|d: BaseDirEntry| d@) =~= seq![]);
        while i < ds.len()
            invariant
                value_view(*doc) == DocView::Table(entries_view(es@)),
                flag_field(entries_view(es@), "autoclean"@, false) == Some(clean),
                flag_field(entries_view(es@), "autoupdate"@, false) == Some(update),
                lookup(entries_view(es@), "dir"@) == Some(DocView::Table(dv)),
                dv == entries_view(ds@),
                h == home_view(home),
                i <= ds@.len(),
                forall|j: int| 0 <= j < base_dirs@.len() ==> is_absolute(#[trigger] base_dirs@[j].path@),
                dirs_settings(dv.take(i as int), clean, update, h, vars_view(vars@)) == Ok::<Seq<DirSettings>, Fault>(
                    base_dirs@.map_values(|d: BaseDirEntry| d@),
                ),
            decreases ds.len() - i,
        {
            assert(dv.take(i + 1).drop_last() =~= dv.take(i as int));
            assert(dv.take(i + 1).last() == (ds@[i as int].0@, value_view(ds@[i as int].1)));
            let ghost before = base_dirs@;
            match BaseDirEntry::from_item(ds[i].0.as_str(), &ds[i].1, clean, update, home, vars) {
                Ok(d) => {
                    base_dirs.push(d);
                    assert(base_dirs@.map_values(|d: BaseDirEntry| d@) =~= before.map_values(
                        |d: BaseDirEntry| d@,
                    ).push(d@));
                },
                Err(e) => {
                    proof {
                        lemma_dirs_fault_stays(dv, i + 1, clean, update, h, vars_view(vars@));
                    }
                    return Err(e);
                },
            }
            i = i + 1;
        }
        assert(dv.take(i as int) =~= dv);
        Ok(GlobalConfig { base_dirs, autoclean: clean, autoupdate: update })
    }

    /// The global settings from the text of the settings file.
    pub fn resolve(text: &str, home: Option<&str>, vars: &Vec<(String, String)>) -> (r: Result<
        GlobalConfig,
        ConfigError,
    >)
        ensures
            !shallow(text@) ==> r is Err && r->Err_0@ == Fault::Toml(TOO_DEEP@),
            shallow(text@) ==> match toml_parse(text@) {
                Err(m) => r is Err && r->Err_0@ == Fault::Toml(m),
                Ok(d) => match global_settings(d, home_view(home), vars_view(vars@)) {
                    Ok(g) => r is Ok && r->Ok_0@ == g,
                    Err(f) => r is Err && r->Err_0@ == f,
                },
            },
            r is Ok ==> r->Ok_0.wf(),
    {
        match parse_document(text) {
            Ok(doc) => GlobalConfig::from_item(&doc, home, vars),
            Err(m) => Err(ConfigError::Toml(m)),
        }
    }
}

} // verus!
