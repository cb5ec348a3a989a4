use vstd::prelude::*;

use crate::config::AppConfig;
use crate::text::{chars_of, push_char, push_str};

verus! {

/// An absolute path: it starts at the root `/`.
pub open spec fn is_absolute(p: Seq<char>) -> bool {
    p.len() > 0 && p[0] == '/'
}

/// `base` joined with `part` as `PathBuf::push` does on Unix: an absolute
/// `part` replaces `base`; otherwise `part` follows `base`, with a `/`
/// between them unless `base` is empty or already ends in one.
pub open spec fn join_path(base: Seq<char>, part: Seq<char>) -> Seq<char> {
    if is_absolute(part) {
        part
    } else if base.len() == 0 || base.last() == '/' {
        base + part
    } else {
        base + seq!['/'] + part
    }
}

/// `base` joined with `part` (see `join_path`).
pub fn join(base: &str, part: &str) -> (p: String)
    ensures
        p@ == join_path(base@, part@),
{
    let part_chars = chars_of(part);
    if part_chars.len() > 0 && part_chars[0] == '/' {
        let mut p = String::new();
        push_str(&mut p, part);
        assert(p@ =~= part@);
        return p;
    }
    let base_chars = chars_of(base);
    let mut p = String::new();
    push_str(&mut p, base);
    if base_chars.len() > 0 && base_chars[base_chars.len() - 1] != '/' {
        push_char(&mut p, '/');
    }
    push_str(&mut p, part);
    assert(p@ =~= join_path(base@, part@));
    p
}

/// Why the paths of the tool could not be worked out.
#[derive(Clone, Copy, Debug, PartialEq, Eq, Structural)]
pub enum PathsError {
    HomeNotSet,
    HomeNotAbsolute,
    HistoryFileNotAllowed,
    BackupDirNotAllowed,
    LogPathWithoutParent,
}

/// The message of each error.
pub open spec fn paths_error_text(e: PathsError) -> Seq<char> {
    match e {
        PathsError::HomeNotSet => "HOME is not set"@,
        PathsError::HomeNotAbsolute => "HOME must be an absolute path"@,
        PathsError::HistoryFileNotAllowed => "history_file must be an absolute path or start with ~/"@,
        PathsError::BackupDirNotAllowed => "backup_dir must be a relative path inside the state directory"@,
        PathsError::LogPathWithoutParent => "log path has no parent directory"@,
    }
}

impl PathsError {
    /// The message of the error (see `paths_error_text`).
    pub fn message(&self) -> (s: String)
        ensures
            s@ == paths_error_text(*self),
    {
        match self {
            PathsError::HomeNotSet => String::from_str("HOME is not set"),
            PathsError::HomeNotAbsolute => String::from_str("HOME must be an absolute path"),
            PathsError::HistoryFileNotAllowed => String::from_str(
                "history_file must be an absolute path or start with ~/",
            ),
            PathsError::BackupDirNotAllowed => String::from_str(
                "backup_dir must be a relative path inside the state directory",
            ),
            PathsError::LogPathWithoutParent => String::from_str("log path has no parent directory"),
        }
    }
}

/// The view of an optional string.
pub open spec fn opt_view(o: Option<&str>) -> Option<Seq<char>> {
    match o {
        Some(s) => Some(s@),
        None => None,
    }
}

/// The view of an optional owned string.
pub open spec fn opt_string_view(o: Option<String>) -> Option<Seq<char>> {
    match o {
        Some(s) => Some(s@),
        None => None,
    }
}

/// What is wrong with the value of `HOME`, if anything: it must be set,
/// not empty, and absolute.
pub open spec fn home_error(home: Option<Seq<char>>) -> Option<PathsError> {
    match home {
        None => Some(PathsError::HomeNotSet),
        Some(h) => if h.len() == 0 {
            Some(PathsError::HomeNotSet)
        } else if !is_absolute(h) {
            Some(PathsError::HomeNotAbsolute)
        } else {
            None
        },
    }
}

fn check_home(home: Option<&str>) -> (r: Result<&str, PathsError>)
    ensures
        home_error(opt_view(home)) matches Some(e) ==> r == Err::<&str, PathsError>(e),
        home_error(opt_view(home)) is None ==> (r matches Ok(h) && Some(h@) == opt_view(home)),
{
    match home {
        None => Err(PathsError::HomeNotSet),
        Some(h) => {
            let cs = chars_of(h);
            if cs.len() == 0 {
                Err(PathsError::HomeNotSet)
            } else if cs[0] != '/' {
                Err(PathsError::HomeNotAbsolute)
            } else {
                Ok(h)
            }
        },
    }
}

/// Where the config file is read from, and whether it must exist.
#[derive(Debug)]
pub struct ConfigLocation {
    pub path: String,
    pub required: bool,
}

/// `config.toml` of the tool inside an XDG config directory; the directory is
/// `$XDG_CONFIG_HOME` when that is absolute, `~/.config` otherwise.
pub open spec fn default_config_path(home: Seq<char>, config_home: Option<Seq<char>>) -> Seq<char> {
    let base = match config_home {
        Some(c) => if is_absolute(c) {
            c
        } else {
            join_path(home, ".config"@)
        },
        None => join_path(home, ".config"@),
    };
    join_path(base, "zsh-history-backup/config.toml"@)
}

/// The config file to read: the one given with `--config`, which must then
/// exist, or else the default one (see `default_config_path`), which may be
/// missing.
pub fn config_location(home: Option<&str>, config_home: Option<&str>, explicit: Option<&str>) -> (r:
    Result<ConfigLocation, PathsError>)
    ensures
        home_error(opt_view(home)) matches Some(e) ==> (r matches Err(x) && x == e),
        home_error(opt_view(home)) is None ==> (r matches Ok(loc) && (match explicit {
            Some(p) => loc.path@ == p@ && loc.required,
            None => loc.path@ == default_config_path(opt_view(home)->0, opt_view(config_home))
                && !loc.required,
        })),
{
    let h = match check_home(home) {
        Ok(h) => h,
        Err(e) => {
            return Err(e);
        },
    };
    match explicit {
        Some(p) => {
            let mut path = String::new();
            push_str(&mut path, p);
            assert(path@ =~= p@);
            Ok(ConfigLocation { path, required: true })
        },
        None => {
            let base = match config_home {
                Some(c) => {
                    let cs = chars_of(c);
                    if cs.len() > 0 && cs[0] == '/' {
                        let mut b = String::new();
                        push_str(&mut b, c);
                        assert(b@ =~= c@);
                        b
                    } else {
                        join(h, ".config")
                    }
                },
                None => join(h, ".config"),
            };
            let path = join(base.as_str(), "zsh-history-backup/config.toml");
            Ok(ConfigLocation { path, required: false })
        },
    }
}

/// The depth below the starting directory after the path component `comp`,
/// starting at `depth`: an empty or `.` component stays, `..` goes up one
/// level (`None` when that would leave the starting directory), any other
/// name goes down one level.
pub open spec fn component_depth(comp: Seq<char>, depth: int) -> Option<int> {
    if comp.len() == 0 || comp == seq!['.'] {
        Some(depth)
    } else if comp == seq!['.', '.'] {
        if depth <= 0 {
            None
        } else {
            Some(depth - 1)
        }
    } else {
        Some(depth + 1)
    }
}

/// Walks the relative path `p` component by component from `depth`, `comp`
/// being the part of the current component already read; the final depth,
/// or `None` when the walk leaves the starting directory.
pub open spec fn walk_depth(p: Seq<char>, depth: int, comp: Seq<char>) -> Option<int>
    decreases p.len(),
{
    if p.len() == 0 {
        component_depth(comp, depth)
    } else if p[0] == '/' {
        match component_depth(comp, depth) {
            None => None,
            Some(d) => walk_depth(p.drop_first(), d, Seq::<char>::empty()),
        }
    } else {
        walk_depth(p.drop_first(), depth, comp.push(p[0]))
    }
}

/// A backup directory setting that stays inside the state directory: a
/// relative path whose `..` components never climb out of it, and that ends
/// in a directory below it.
pub open spec fn backup_dir_allowed(p: Seq<char>) -> bool {
    &&& p.len() > 0
    &&& !is_absolute(p)
    &&& walk_depth(p, 0, Seq::<char>::empty()) matches Some(d) && d >= 1
}

/// A relative path of plain directory names: not empty, no leading or
/// trailing `/`, no empty component, and no component that starts with a
/// dot (so none is `.` or `..`).
pub open spec fn plain_relative_path(p: Seq<char>) -> bool {
    &&& p.len() > 0
    &&& p[0] != '/' && p[0] != '.'
    &&& p.last() != '/'
    &&& forall|i: int| 0 <= i < p.len() - 1 && #[trigger] p[i] == '/' ==> p[i + 1] != '/' && p[i + 1] != '.'
}

proof fn lemma_walk_plain(p: Seq<char>, depth: int, comp: Seq<char>)
    requires
        depth >= 0,
        forall|i: int| 0 <= i < comp.len() ==> #[trigger] comp[i] != '/',
        comp.len() > 0 ==> comp[0] != '.',
        comp.len() == 0 ==> p.len() > 0 && p[0] != '/' && p[0] != '.',
        p.len() > 0 ==> p.last() != '/',
        forall|i: int| 0 <= i < p.len() - 1 && #[trigger] p[i] == '/' ==> p[i + 1] != '/' && p[i + 1] != '.',
    ensures
        walk_depth(p, depth, comp) matches Some(d) && d >= depth + 1,
    decreases p.len(),
{
    if p.len() == 0 {
        assert(comp != seq!['.']);
        assert(comp != seq!['.', '.']);
    } else {
        let rest = p.drop_first();
        assert forall|i: int| 0 <= i < rest.len() - 1 && #[trigger] rest[i] == '/' implies rest[i + 1]
            != '/' && rest[i + 1] != '.' by {
            assert(rest[i] == p[i + 1]);
            assert(rest[i + 1] == p[i + 2]);
        }
        if rest.len() > 0 {
            assert(rest.last() == p.last());
        }
        if p[0] == '/' {
            assert(comp.len() > 0);
            assert(comp != seq!['.']);
            assert(comp != seq!['.', '.']);
            assert(p.len() >= 2);
            assert(rest[0] == p[1]);
            lemma_walk_plain(rest, depth + 1, Seq::<char>::empty());
        } else {
            let next = comp.push(p[0]);
            assert forall|i: int| 0 <= i < next.len() implies #[trigger] next[i] != '/' by {
                if i < comp.len() {
                    assert(next[i] == comp[i]);
                }
            }
            lemma_walk_plain(rest, depth, next);
        }
    }
}

/// Every relative path of plain directory names (`backups`, `daily/backups`,
/// ...) is an allowed backup directory.
pub proof fn lemma_plain_backup_dirs_are_allowed(p: Seq<char>)
    requires
        plain_relative_path(p),
    ensures
        backup_dir_allowed(p),
{
    lemma_walk_plain(p, 0, Seq::<char>::empty());
}

fn component_step(comp: &Vec<char>, depth: u64) -> (r: Option<u64>)
    requires
        depth < u64::MAX,
    ensures
        match component_depth(comp@, depth as int) {
            None => r is None,
            Some(d) => r matches Some(x) && x == d,
        },
{
    let n = comp.len();
    if n == 0 || (n == 1 && comp[0] == '.') {
        proof {
            if n == 1 {
                assert(comp@ =~= seq!['.']);
            }
        }
        Some(depth)
    } else if n == 2 && comp[0] == '.' && comp[1] == '.' {
        assert(comp@ =~= seq!['.', '.']);
        if depth == 0 {
            None
        } else {
            Some(depth - 1)
        }
    } else {
        assert(comp@ != seq!['.']) by {
            if n == 1 {
                assert(comp@[0] == seq!['.'][0] ==> comp@[0] == '.');
            }
        }
        assert(comp@ != seq!['.', '.']) by {
            if n == 2 && comp@ == seq!['.', '.'] {
                assert(comp@[0] == '.' && comp@[1] == '.');
            }
        }
        Some(depth + 1)
    }
}

fn check_backup_dir(p: &str) -> (ok: bool)
    ensures
        ok == backup_dir_allowed(p@),
{
    let cs = chars_of(p);
    let n = cs.len();
    if n == 0 || cs[0] == '/' {
        return false;
    }
    let mut depth: u64 = 0;
    let mut comp: Vec<char> = Vec::new();
    let mut i: usize = 0;
    assert(p@.skip(0) =~= p@);
    while i < n
        invariant
            i <= n == cs@.len(),
            cs@ == p@,
            depth <= i,
            i > 0 ==> depth < i,
            cs@[0] != '/',
            comp@.len() <= i,
            walk_depth(p@, 0, Seq::<char>::empty()) == walk_depth(p@.skip(i as int), depth as int, comp@),
        decreases n - i,
    {
        let ghost rest = p@.skip(i as int);
        assert(rest.drop_first() =~= p@.skip(i + 1));
        assert(rest[0] == cs@[i as int]);
        if cs[i] == '/' {
            match component_step(&comp, depth) {
                None => {
                    return false;
                },
                Some(d) => {
                    depth = d;
                    comp = Vec::new();
                },
            }
        } else {
            comp.push(cs[i]);
        }
        i = i + 1;
    }
    assert(p@.skip(n as int) =~= Seq::<char>::empty());
    match component_step(&comp, depth) {
        None => false,
        Some(d) => d >= 1,
    }
}

/// The history file: the default `~/.zsh_history`, an absolute setting as
/// it is, or `~/rest` as `rest` inside `HOME`; `None` for any other setting.
pub open spec fn history_file_path(home: Seq<char>, configured: Option<Seq<char>>) -> Option<
    Seq<char>,
> {
    match configured {
        None => Some(join_path(home, ".zsh_history"@)),
        Some(p) => if is_absolute(p) {
            Some(p)
        } else if p.len() >= 2 && p[0] == '~' && p[1] == '/' {
            Some(join_path(home, p.skip(2)))
        } else {
            None
        },
    }
}

fn resolve_history_file(home: &str, configured: Option<&str>) -> (r: Option<String>)
    ensures
        opt_string_view(r) == history_file_path(home@, opt_view(configured)),
{
    match configured {
        None => Some(join(home, ".zsh_history")),
        Some(p) => {
            let cs = chars_of(p);
            if cs.len() > 0 && cs[0] == '/' {
                let mut s = String::new();
                push_str(&mut s, p);
                assert(s@ =~= p@);
                Some(s)
            } else if cs.len() >= 2 && cs[0] == '~' && cs[1] == '/' {
                let mut rest = String::new();
                let mut i: usize = 2;
                while i < cs.len()
                    invariant
                        2 <= i <= cs@.len(),
                        cs@ == p@,
                        rest@ == p@.subrange(2, i as int),
                    decreases cs.len() - i,
                {
                    push_char(&mut rest, cs[i]);
                    i = i + 1;
                    assert(rest@ =~= p@.subrange(2, i as int));
                }
                assert(rest@ =~= p@.skip(2));
                Some(join(home, rest.as_str()))
            } else {
                None
            }
        },
    }
}

/// The state directory of the tool: `zsh-history-backup` inside
/// `$XDG_STATE_HOME` when that is absolute, inside `~/.local/state` otherwise.
pub open spec fn state_dir_path(home: Seq<char>, state_home: Option<Seq<char>>) -> Seq<char> {
    let base = match state_home {
        Some(s) => if is_absolute(s) {
            s
        } else {
            join_path(home, ".local/state"@)
        },
        None => join_path(home, ".local/state"@),
    };
    join_path(base, "zsh-history-backup"@)
}

/// The files and directories the tool works with.
#[derive(Debug)]
pub struct AppPaths {
    pub history_file: String,
    pub state_dir: String,
    pub backups_dir: String,
    pub exports_dir: String,
    pub log_file: String,
}

/// `q` lies below the directory `dir`.
pub open spec fn lies_below(q: Seq<char>, dir: Seq<char>) -> bool {
    q.len() > dir.len() && q.take(dir.len() as int) == dir
}

/// Joining onto an absolute path gives an absolute path.
pub proof fn lemma_join_absolute(base: Seq<char>, part: Seq<char>)
    requires
        is_absolute(base),
    ensures
        is_absolute(join_path(base, part)),
{
    if !is_absolute(part) {
        if base.last() == '/' {
            assert((base + part)[0] == base[0]);
        } else {
            assert((base + seq!['/'] + part)[0] == base[0]);
        }
    }
}

/// Joining a relative, non-empty path onto `base` stays below `base`.
pub proof fn lemma_join_below(base: Seq<char>, part: Seq<char>)
    requires
        !is_absolute(part),
        part.len() > 0,
    ensures
        lies_below(join_path(base, part), base),
{
    if base.len() == 0 || base.last() == '/' {
        assert((base + part).take(base.len() as int) =~= base);
    } else {
        assert((base + seq!['/'] + part).take(base.len() as int) =~= base);
    }
}

impl AppPaths {
    /// Works out the paths from `HOME`, `XDG_STATE_HOME` and the config:
    /// the history file (see `history_file_path`), the state directory (see
    /// `state_dir_path`), and in it the backups directory (`backups`, or the
    /// configured `backup_dir`), `exports` and `logs/backup.log`.
    pub fn discover(home: Option<&str>, state_home: Option<&str>, config: &AppConfig) -> (r: Result<
        AppPaths,
        PathsError,
    >)
        ensures
            home_error(opt_view(home)) matches Some(e) ==> (r matches Err(x) && x == e),
            home_error(opt_view(home)) is None ==> ({
                let h = opt_view(home)->0;
                let state = state_dir_path(h, opt_view(state_home));
                let configured_dir = opt_string_view(config.backup_dir);
                if history_file_path(h, opt_string_view(config.history_file)) is None {
                    r matches Err(x) && x == PathsError::HistoryFileNotAllowed
                } else if configured_dir matches Some(d) && !backup_dir_allowed(d) {
                    r matches Err(x) && x == PathsError::BackupDirNotAllowed
                } else {
                    r matches Ok(p) && {
                        &&& p.history_file@ == history_file_path(h, opt_string_view(config.history_file))->0
                        &&& p.state_dir@ == state
                        &&& p.backups_dir@ == join_path(
                            state,
                            match configured_dir {
                                Some(d) => d,
                                None => "backups"@,
                            },
                        )
                        &&& p.exports_dir@ == join_path(state, "exports"@)
                        &&& p.log_file@ == join_path(state, "logs/backup.log"@)
                    }
                }
            }),
            r matches Ok(p) ==> {
                &&& is_absolute(p.history_file@)
                &&& is_absolute(p.state_dir@)
                &&& lies_below(p.backups_dir@, p.state_dir@)
                &&& lies_below(p.exports_dir@, p.state_dir@)
                &&& lies_below(p.log_file@, p.state_dir@)
            },
    {
        let h = match check_home(home) {
            Ok(h) => h,
            Err(e) => {
                return Err(e);
            },
        };
        let configured_history = match &config.history_file {
            Some(s) => Some(s.as_str()),
            None => None,
        };
        let history_file = match resolve_history_file(h, configured_history) {
            Some(f) => f,
            None => {
                return Err(PathsError::HistoryFileNotAllowed);
            },
        };
        let state_base = match state_home {
            Some(s) => {
                let cs = chars_of(s);
                if cs.len() > 0 && cs[0] == '/' {
                    let mut b = String::new();
                    push_str(&mut b, s);
                    assert(b@ =~= s@);
                    b
                } else {
                    join(h, ".local/state")
                }
            },
            None => join(h, ".local/state"),
        };
        let state_dir = join(state_base.as_str(), "zsh-history-backup");
        let backups_dir = match &config.backup_dir {
            Some(d) => {
                if !check_backup_dir(d.as_str()) {
                    return Err(PathsError::BackupDirNotAllowed);
                }
                join(state_dir.as_str(), d.as_str())
            },
            None => join(state_dir.as_str(), "backups"),
        };
        let exports_dir = join(state_dir.as_str(), "exports");
        let log_file = join(state_dir.as_str(), "logs/backup.log");
        proof {
            reveal_strlit("exports");
            reveal_strlit("logs/backup.log");
            reveal_strlit("backups");
            reveal_strlit(".local/state");
            reveal_strlit("zsh-history-backup");
            reveal_strlit(".zsh_history");
            lemma_join_absolute(h@, ".local/state"@);
            lemma_join_absolute(state_base@, "zsh-history-backup"@);
            lemma_join_absolute(h@, ".zsh_history"@);
            lemma_join_below(state_dir@, "exports"@);
            lemma_join_below(state_dir@, "logs/backup.log"@);
            match &config.backup_dir {
                Some(d) => lemma_join_below(state_dir@, d@),
                None => lemma_join_below(state_dir@, "backups"@),
            }
            match configured_history {
                Some(c) => if c@.len() >= 2 && c@[0] == '~' {
                    lemma_join_absolute(h@, c@.skip(2));
                },
                None => {},
            }
        }
        Ok(AppPaths { history_file, state_dir, backups_dir, exports_dir, log_file })
    }
}

/// What `std::path::Path::parent` gives for the path `p`: the path without
/// its final component; `None` when `p` ends in a root or is empty.
pub uninterp spec fn path_parent_of(p: Seq<char>) -> Option<Seq<char>>;

/// `std::path::Path::parent`. Besides naming its result, the contract states
/// what std documents for the empty path: it has no parent.
#[verifier::external_body]
fn path_parent(p: &str) -> (r: Option<String>)
    ensures
        opt_string_view(r) == path_parent_of(p@),
        p@.len() == 0 ==> r is None,
{
    match std::path::Path::new(p).parent() {
        Some(q) => Some(q.to_string_lossy().into_owned()),
        None => None,
    }
}

/// The private directories to make, in order, and whether the layout is
/// complete after them.
#[derive(Debug)]
pub struct Layout {
    pub directories: Vec<String>,
    pub outcome: Result<(), PathsError>,
}

impl AppPaths {
    /// The directories that must exist, private to the user, in the order
    /// they are made: the state directory, the backups, the exports, and
    /// `logs_dir`, the directory of the log file. When the log file has no
    /// directory, the first three are still made and the layout then fails.
    pub fn layout_directories(&self, logs_dir: Option<String>) -> (r: Layout)
        ensures
            r.directories@.len() == if logs_dir is Some { 4int } else { 3int },
            r.directories@[0]@ == self.state_dir@,
            r.directories@[1]@ == self.backups_dir@,
            r.directories@[2]@ == self.exports_dir@,
            logs_dir matches Some(l) ==> r.directories@[3]@ == l@ && r.outcome == Ok::<(), PathsError>(()),
            logs_dir is None ==> r.outcome == Err::<(), PathsError>(PathsError::LogPathWithoutParent),
    {
        let mut directories: Vec<String> = Vec::new();
        directories.push(self.state_dir.clone());
        directories.push(self.backups_dir.clone());
        directories.push(self.exports_dir.clone());
        match logs_dir {
            Some(l) => {
                directories.push(l);
                Layout { directories, outcome: Ok(()) }
            },
            None => Layout { directories, outcome: Err(PathsError::LogPathWithoutParent) },
        }
    }

    /// The directories the layout needs (see `layout_directories`), the
    /// directory of the log file being `Path::parent` of it.
    pub fn ensure_layout(&self) -> (r: Layout)
        ensures
            r.directories@.len() == if path_parent_of(self.log_file@) is Some { 4int } else { 3int },
            r.directories@[0]@ == self.state_dir@,
            r.directories@[1]@ == self.backups_dir@,
            r.directories@[2]@ == self.exports_dir@,
            path_parent_of(self.log_file@) matches Some(l) ==> r.directories@[3]@ == l && r.outcome
                == Ok::<(), PathsError>(()),
            path_parent_of(self.log_file@) is None ==> r.outcome == Err::<(), PathsError>(
                PathsError::LogPathWithoutParent,
            ),
    {
        let logs_dir = path_parent(self.log_file.as_str());
        self.layout_directories(logs_dir)
    }
}

} // verus!
