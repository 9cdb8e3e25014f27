//! Where the record of the current wallpaper is kept, and how the state
//! directory is chosen among an explicit path and the environment.

use vstd::prelude::*;

verus! {

/// Name of the state directory under the XDG data home.
pub const XDG_SUBDIR: &'static str = "wallpaper_controller";

/// Name of the state directory under the home directory.
pub const HOME_SUBDIR: &'static str = ".wallpaper_controller";

/// Name of the record file inside the state directory.
pub const RECORD_NAME: &'static str = "current_wallpaper";

/// Name of the symbolic link inside the state directory.
pub const SYMLINK_NAME: &'static str = "current_wallpaper.symlink";

/// `name` appended to `base` as one more path component: a separator goes
/// between them unless `base` is empty or already ends in one.
pub open spec fn join_spec(base: Seq<char>, name: Seq<char>) -> Seq<char> {
    if base.len() == 0 || base.last() == '/' {
        base + name
    } else {
        base + seq!['/'] + name
    }
}

/// Appends the relative component `name` to the path `base`.
pub fn join_path(base: &str, name: &str) -> (r: String)
    ensures
        r@ == join_spec(base@, name@),
{
    let mut r = String::from_str(base);
    let n = base.unicode_len();
    if n > 0 && base.get_char(n - 1) != '/' {
        proof {
            reveal_strlit("/");
        }
        r.append("/");
    }
    r.append(name);
    r
}

/// Path of the record file in the state directory `dir`.
pub fn record_file_path(dir: &str) -> (r: String)
    ensures
        r@ == join_spec(dir@, RECORD_NAME@),
{
    join_path(dir, RECORD_NAME)
}

/// Path of the symbolic link to the current wallpaper in the state directory `dir`.
pub fn symlink_file_path(dir: &str) -> (r: String)
    ensures
        r@ == join_spec(dir@, SYMLINK_NAME@),
{
    join_path(dir, SYMLINK_NAME)
}

/// A directory that may serve as the state directory, and whether it may be
/// created when it does not exist.
#[derive(Debug)]
pub struct StateDirCandidate {
    pub path: String,
    pub create_if_missing: bool,
}

/// A candidate as a path and its permission to be created.
pub open spec fn candidate_view(c: StateDirCandidate) -> (Seq<char>, bool) {
    (c.path@, c.create_if_missing)
}

/// The candidates in the order they are tried: the explicit directory, used
/// only as it is; then the subdirectory of the XDG data home; then the one of
/// the home directory, each of those two created when missing.
pub open spec fn candidates_spec(
    explicit: Option<Seq<char>>,
    xdg_data_home: Option<Seq<char>>,
    home: Option<Seq<char>>,
) -> Seq<(Seq<char>, bool)> {
    let a: Seq<(Seq<char>, bool)> = match explicit {
        Some(e) => seq![(e, false)],
        None => Seq::empty(),
    };
    let b: Seq<(Seq<char>, bool)> = match xdg_data_home {
        Some(x) => seq![(join_spec(x, XDG_SUBDIR@), true)],
        None => Seq::empty(),
    };
    let c: Seq<(Seq<char>, bool)> = match home {
        Some(h) => seq![(join_spec(h, HOME_SUBDIR@), true)],
        None => Seq::empty(),
    };
    a + b + c
}

/// An optional string as an optional sequence of characters.
pub open spec fn opt_view(o: Option<String>) -> Option<Seq<char>> {
    match o {
        Some(s) => Some(s@),
        None => None,
    }
}

/// The directories to try as the state directory, in order, from the
/// explicit directory and the values of the XDG data home and home
/// variables, each when given.
pub fn state_dir_candidates(
    explicit: &Option<String>,
    xdg_data_home: &Option<String>,
    home: &Option<String>,
) -> (r: Vec<StateDirCandidate>)
    ensures
        r@.map_values(|c: StateDirCandidate| candidate_view(c)) == candidates_spec(
            opt_view(*explicit),
            opt_view(*xdg_data_home),
            opt_view(*home),
        ),
{
    let mut r: Vec<StateDirCandidate> = Vec::new();
    let ghost e = opt_view(*explicit);
    let ghost x = opt_view(*xdg_data_home);
    let ghost h = opt_view(*home);
    if let Some(d) = explicit {
        r.push(StateDirCandidate { path: String::from_str(d.as_str()), create_if_missing: false });
    }
    let ghost ra = r@;
    if let Some(d) = xdg_data_home {
        r.push(StateDirCandidate { path: join_path(d.as_str(), XDG_SUBDIR), create_if_missing: true });
    }
    let ghost rb = r@;
    if let Some(d) = home {
        r.push(StateDirCandidate { path: join_path(d.as_str(), HOME_SUBDIR), create_if_missing: true });
    }
    assert(r@.map_values(|c: StateDirCandidate| candidate_view(c)) =~= candidates_spec(e, x, h));
    r
}

/// What to do with a candidate after looking at the file system.
#[derive(Debug, Clone, Copy, PartialEq, Eq, Structural)]
pub enum CandidateAction {
    /// It is an existing directory: use it.
    Accept,
    /// It does not exist and may be created: create it, then look again.
    Create,
    /// Pass on to the next candidate.
    Skip,
}

/// The action for a candidate, from whether its path exists and is a directory.
pub open spec fn action_spec(create_if_missing: bool, exists: bool, is_dir: bool) -> CandidateAction {
    if exists && is_dir {
        CandidateAction::Accept
    } else if !exists && create_if_missing {
        CandidateAction::Create
    } else {
        CandidateAction::Skip
    }
}

/// Decides what to do with `candidate`, given whether its path exists and
/// whether it is a directory.
pub fn decide_candidate(candidate: &StateDirCandidate, exists: bool, is_dir: bool) -> (r:
    CandidateAction)
    ensures
        r == action_spec(candidate.create_if_missing, exists, is_dir),
{
    if exists && is_dir {
        CandidateAction::Accept
    } else if !exists && candidate.create_if_missing {
        CandidateAction::Create
    } else {
        CandidateAction::Skip
    }
}

/// An explicit directory is tried first and is never created: when it is an
/// existing directory it is used, and nothing else is tried or created.
pub proof fn lemma_explicit_never_created(
    explicit: Seq<char>,
    xdg_data_home: Option<Seq<char>>,
    home: Option<Seq<char>>,
    exists: bool,
    is_dir: bool,
)
    ensures
        candidates_spec(Some(explicit), xdg_data_home, home)[0] == (explicit, false),
        action_spec(false, exists, is_dir) != CandidateAction::Create,
        exists && is_dir ==> action_spec(false, exists, is_dir) == CandidateAction::Accept,
{
}

/// With no explicit directory and only a home directory, the one candidate is
/// `.wallpaper_controller` under it: created when missing, and used as it is,
/// without being created again, once it exists.
pub proof fn lemma_home_only(home: Seq<char>, is_dir: bool)
    ensures
        candidates_spec(None, None, Some(home)) == seq![(join_spec(home, HOME_SUBDIR@), true)],
        action_spec(true, false, is_dir) == CandidateAction::Create,
        action_spec(true, true, true) == CandidateAction::Accept,
{
    assert(candidates_spec(None, None, Some(home)) =~= seq![(join_spec(home, HOME_SUBDIR@), true)]);
}

} // verus!
