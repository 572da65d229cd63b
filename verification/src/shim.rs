//! The run-time interpreter-resolution logic of the venv's interpreter
//! shim: parsing the venv's config, finding the real interpreter on the
//! search path or through runfiles, and rewriting the search path for
//! the child process.  Reading files, walking symlinks and `exec` stay
//! with the unverified caller.
use vstd::prelude::*;

use crate::paths::AbsPath;
use crate::strutil::{first_at, seq_ends_with, spec_join_char, spec_lines, spec_split,
    spec_trim, split_char, split_lines, split_once_char, join_char, trim, str_eq,
    ends_with_str};

verus! {

/// Why the shim refuses to run.
#[derive(Debug, PartialEq, Eq)]
pub enum ShimError {
    /// The config names no interpreter version at all.
    MissingVersionInfo,
    /// The version recorded in the config does not split into
    /// `major.minor`.
    InvalidVersionInfo,
    /// Exactly one of the two runfiles-interpreter keys is present.
    IncompleteRunfilesConfig,
    /// The user-site flag is absent or unreadable.
    MissingUserSiteFlag,
}

/// How the real interpreter is to be found.
#[derive(Debug, PartialEq, Eq)]
pub enum InterpreterConfig {
    /// Through the runfiles tree: a runfiles-relative path and the repo
    /// it belongs to.
    Runfiles { rpath: String, repo: String },
    /// On the search path, by its `major.minor` version.
    External { version: String },
}

/// A parsed `pyvenv.cfg`, together with where it was found.
#[derive(Debug)]
pub struct PyCfg {
    pub root: String,
    pub cfg: String,
    pub version_info: String,
    pub interpreter: InterpreterConfig,
    pub user_site: bool,
}

/// The four recognized keys folded over the config's lines, later
/// assignments shadowing earlier ones: the version, the two
/// runfiles-interpreter keys, and the user-site flag (an unreadable
/// value clears it).
pub open spec fn cfg_fold(lines: Seq<Seq<char>>) -> (
    Option<Seq<char>>,
    Option<Seq<char>>,
    Option<Seq<char>>,
    Option<bool>,
)
    decreases lines.len(),
{
    if lines.len() == 0 {
        (None, None, None, None)
    } else {
        let st = cfg_fold(lines.drop_last());
        let line = lines.last();
        if first_at(line, '=') < line.len() {
            let key = spec_trim(line.take(first_at(line, '=') as int));
            let value = spec_trim(line.skip(first_at(line, '=') as int + 1));
            if key == "version_info"@ {
                (Some(value), st.1, st.2, st.3)
            } else if key == "aspect-runfiles-interpreter"@ {
                (st.0, Some(value), st.2, st.3)
            } else if key == "aspect-runfiles-repo"@ {
                (st.0, st.1, Some(value), st.3)
            } else if key == "aspect-include-user-site-packages"@ {
                if value == "true"@ {
                    (st.0, st.1, st.2, Some(true))
                } else if value == "false"@ {
                    (st.0, st.1, st.2, Some(false))
                } else {
                    (st.0, st.1, st.2, None)
                }
            } else {
                st
            }
        } else {
            st
        }
    }
}

/// The `major.minor` prefix of a version string: its first two
/// dot-separated fields, or nothing when there are fewer than two.
pub open spec fn spec_version_prefix(v: Seq<char>) -> Option<Seq<char>> {
    let parts = spec_split(v, '.');
    if parts.len() >= 2 {
        Some(parts[0] + seq!['.'] + parts[1])
    } else {
        None
    }
}

/// The first two fields of a dotted version, joined back.
pub fn parse_version_info(version_str: &str) -> (r: Option<String>)
    ensures
        match r {
            Some(v) => spec_version_prefix(version_str@) == Some(v@),
            None => spec_version_prefix(version_str@) is None,
        },
{
    let parts = split_char(version_str, '.');
    let ghost pz = parts.deep_view();
    if parts.len() >= 2 {
        proof {
            assert(pz[0] == parts@[0]@);
            assert(pz[1] == parts@[1]@);
        }
        let mut v = parts[0].clone();
        v.append(".");
        v.append(parts[1].as_str());
        proof {
            reveal_strlit(".");
            assert(v@ =~= pz[0] + seq!['.'] + pz[1]);
        }
        Some(v)
    } else {
        None
    }
}

/// What `pyvenv.cfg` content means.  The interpreter is a runfiles one
/// exactly when both runfiles keys are present; with neither, it is an
/// external one found by `major.minor`; one without the other is an
/// error, as are a missing version and a missing user-site flag.
pub open spec fn spec_parse_venv_cfg(
    root: Seq<char>,
    cfg: Seq<char>,
    content: Seq<char>,
) -> Result<
    (Seq<char>, Seq<char>, Seq<char>, Option<(Seq<char>, Seq<char>)>, Option<Seq<char>>, bool),
    ShimError,
> {
    let st = cfg_fold(spec_lines(content));
    match (st.0, st.1, st.2) {
        (Some(version), Some(rpath), Some(repo)) => match st.3 {
            Some(user_site) => Ok((root, cfg, version, Some((rpath, repo)), None, user_site)),
            None => Err(ShimError::MissingUserSiteFlag),
        },
        (Some(version), None, None) => match spec_version_prefix(version) {
            Some(mm) => match st.3 {
                Some(user_site) => Ok((root, cfg, version, None, Some(mm), user_site)),
                None => Err(ShimError::MissingUserSiteFlag),
            },
            None => Err(ShimError::InvalidVersionInfo),
        },
        (None, _, _) => Err(ShimError::MissingVersionInfo),
        _ => Err(ShimError::IncompleteRunfilesConfig),
    }
}

/// The image of a `PyCfg` against the spec-level tuple.
pub open spec fn pycfg_matches(
    c: PyCfg,
    t: (Seq<char>, Seq<char>, Seq<char>, Option<(Seq<char>, Seq<char>)>, Option<Seq<char>>, bool),
) -> bool {
    c.root@ == t.0 && c.cfg@ == t.1 && c.version_info@ == t.2 && c.user_site == t.5
        && match c.interpreter {
        InterpreterConfig::Runfiles { rpath, repo } => t.3 == Some((rpath@, repo@)) && t.4
            is None,
        InterpreterConfig::External { version } => t.3 is None && t.4 == Some(version@),
    }
}

/// Parses `pyvenv.cfg` content into the shim's view of the venv.
pub fn parse_venv_cfg(venv_root: &str, cfg_path: &str, content: &str) -> (r: Result<
    PyCfg,
    ShimError,
>)
    ensures
        match r {
            Ok(c) => spec_parse_venv_cfg(venv_root@, cfg_path@, content@) matches Ok(t)
                && pycfg_matches(c, t),
            Err(e) => spec_parse_venv_cfg(venv_root@, cfg_path@, content@) == Err::<
                (
                    Seq<char>,
                    Seq<char>,
                    Seq<char>,
                    Option<(Seq<char>, Seq<char>)>,
                    Option<Seq<char>>,
                    bool,
                ),
                ShimError,
            >(e),
        },
{
    proof {
        reveal_strlit("version_info");
        reveal_strlit("aspect-runfiles-interpreter");
        reveal_strlit("aspect-runfiles-repo");
        reveal_strlit("aspect-include-user-site-packages");
        reveal_strlit("true");
        reveal_strlit("false");
    }
    let lines = split_lines(content);
    let ghost lv = lines.deep_view();
    let mut version: Option<String> = None;
    let mut rpath: Option<String> = None;
    let mut repo: Option<String> = None;
    let mut user_site: Option<bool> = None;
    let mut i: usize = 0;
    proof {
        assert(lv.take(0) =~= Seq::<Seq<char>>::empty());
    }
    while i < lines.len()
        invariant
            i <= lines.len(),
            lv == lines.deep_view(),
            lv.len() == lines.len(),
            cfg_fold(lv.take(i as int)) == (
                version.deep_view(),
                rpath.deep_view(),
                repo.deep_view(),
                user_site,
            ),
        decreases lines.len() - i,
    {
        proof {
            assert(lv.take(i + 1).drop_last() =~= lv.take(i as int));
            assert(lv.take(i + 1).last() == lv[i as int]);
            assert(lv[i as int] == lines@[i as int]@);
        }
        let line = &lines[i];
        match split_once_char(line.as_str(), '=') {
            Some(p) => {
                proof {
                    crate::strutil::lemma_first_at(lv[i as int], '=');
                }
                let key = trim(p.0.as_str());
                let value = trim(p.1.as_str());
                if str_eq(key.as_str(), "version_info") {
                    version = Some(value);
                } else if str_eq(key.as_str(), "aspect-runfiles-interpreter") {
                    rpath = Some(value);
                } else if str_eq(key.as_str(), "aspect-runfiles-repo") {
                    repo = Some(value);
                } else if str_eq(key.as_str(), "aspect-include-user-site-packages") {
                    if str_eq(value.as_str(), "true") {
                        user_site = Some(true);
                    } else if str_eq(value.as_str(), "false") {
                        user_site = Some(false);
                    } else {
                        user_site = None;
                    }
                }
            },
            None => {
                proof {
                    crate::strutil::lemma_first_at(lv[i as int], '=');
                }
            },
        }
        i = i + 1;
    }
    proof {
        assert(lv.take(lines.len() as int) =~= lv);
    }
    match (version, rpath, repo) {
        (Some(version), Some(rpath), Some(repo)) => match user_site {
            Some(user_site) => Ok(
                PyCfg {
                    root: String::from_str(venv_root),
                    cfg: String::from_str(cfg_path),
                    version_info: version,
                    interpreter: InterpreterConfig::Runfiles { rpath, repo },
                    user_site,
                },
            ),
            None => Err(ShimError::MissingUserSiteFlag),
        },
        (Some(version), None, None) => match parse_version_info(version.as_str()) {
            Some(mm) => match user_site {
                Some(user_site) => Ok(
                    PyCfg {
                        root: String::from_str(venv_root),
                        cfg: String::from_str(cfg_path),
                        version_info: version,
                        interpreter: InterpreterConfig::External { version: mm },
                        user_site,
                    },
                ),
                None => Err(ShimError::MissingUserSiteFlag),
            },
            None => Err(ShimError::InvalidVersionInfo),
        },
        (None, _, _) => Err(ShimError::MissingVersionInfo),
        _ => Err(ShimError::IncompleteRunfilesConfig),
    }
}

/// True if the file name carries the versioned interpreter name.
pub fn compare_versions(version_from_cfg: &str, file_name: &str) -> (r: bool)
    ensures
        r == seq_ends_with(file_name@, "python"@ + version_from_cfg@),
{
    let mut suffix = String::from_str("python");
    suffix.append(version_from_cfg);
    ends_with_str(file_name, suffix.as_str())
}

/// The interpreter candidates a search path names for a version: one
/// `<dir>/python<major.minor>` per entry, in path order, empty entries
/// naming the bare file.  Each candidate is paired with its directory.
pub open spec fn spec_path_candidates(path: Seq<char>, version: Seq<char>) -> Seq<
    (Seq<char>, Seq<char>),
> {
    spec_split(path, ':').map_values(
        |d: Seq<char>|
            (
                d,
                if d.len() > 0 {
                    d + seq!['/'] + "python"@ + version
                } else {
                    "python"@ + version
                },
            ),
    )
}

/// Builds the candidate interpreter path for every search-path entry.
pub fn path_candidates(path_env: &str, version: &str) -> (r: Vec<(String, String)>)
    ensures
        r.deep_view() == spec_path_candidates(path_env@, version@),
{
    let dirs = split_char(path_env, ':');
    let ghost dv = dirs.deep_view();
    let mut r: Vec<(String, String)> = Vec::new();
    let mut i: usize = 0;
    proof {
        assert(r.deep_view() =~~= dv.take(0).map_values(
            |d: Seq<char>|
                (
                    d,
                    if d.len() > 0 {
                        d + seq!['/'] + "python"@ + version@
                    } else {
                        "python"@ + version@
                    },
                ),
        ));
    }
    while i < dirs.len()
        invariant
            i <= dirs.len(),
            dv == dirs.deep_view(),
            dv.len() == dirs.len(),
            r.deep_view() == dv.take(i as int).map_values(
                |d: Seq<char>|
                    (
                        d,
                        if d.len() > 0 {
                            d + seq!['/'] + "python"@ + version@
                        } else {
                            "python"@ + version@
                        },
                    ),
            ),
        decreases dirs.len() - i,
    {
        proof {
            assert(dv[i as int] == dirs@[i as int]@);
        }
        let d = &dirs[i];
        let mut full = String::new();
        if d.as_str().unicode_len() > 0 {
            full.append(d.as_str());
            full.append("/");
        }
        full.append("python");
        full.append(version);
        proof {
            reveal_strlit("/");
            if dv[i as int].len() > 0 {
                assert(full@ =~= dv[i as int] + seq!['/'] + "python"@ + version@);
            } else {
                assert(full@ =~= "python"@ + version@);
            }
        }
        let ghost rdv = r.deep_view();
        r.push((d.clone(), full));
        proof {
            assert(r.deep_view() =~~= rdv.push(
                (
                    dv[i as int],
                    if dv[i as int].len() > 0 {
                        dv[i as int] + seq!['/'] + "python"@ + version@
                    } else {
                        "python"@ + version@
                    },
                ),
            ));
            assert(r.deep_view() =~~= dv.take(i + 1).map_values(
                |d: Seq<char>|
                    (
                        d,
                        if d.len() > 0 {
                            d + seq!['/'] + "python"@ + version@
                        } else {
                            "python"@ + version@
                        },
                    ),
            ));
        }
        i = i + 1;
    }
    proof {
        assert(dv.take(dirs.len() as int) =~= dv);
    }
    r
}

/// The candidates that survive the venv's own `bin` directory being
/// excluded, in order.
pub open spec fn spec_select(
    existing: Seq<(Seq<char>, Seq<char>)>,
    exclude_dir: Seq<char>,
) -> Seq<Seq<char>>
    decreases existing.len(),
{
    if existing.len() == 0 {
        Seq::empty()
    } else {
        spec_select(existing.drop_last(), exclude_dir) + (if existing.last().0 != exclude_dir {
            seq![existing.last().1]
        } else {
            Seq::empty()
        })
    }
}

/// Filters the interpreter candidates found on disk: everything in the
/// venv's own `bin` directory is excluded; an empty result is `None`,
/// as a missing interpreter is a lookup failure, never a silent guess.
pub fn select_interpreters(existing: &Vec<(String, String)>, exclude_dir: &str) -> (r: Option<
    Vec<String>,
>)
    ensures
        match r {
            Some(v) => v.deep_view() == spec_select(existing.deep_view(), exclude_dir@)
                && v.deep_view().len() > 0,
            None => spec_select(existing.deep_view(), exclude_dir@).len() == 0,
        },
{
    let ghost ev = existing.deep_view();
    let mut r: Vec<String> = Vec::new();
    let mut i: usize = 0;
    proof {
        assert(ev.take(0) =~= Seq::<(Seq<char>, Seq<char>)>::empty());
        assert(r.deep_view() =~~= spec_select(ev.take(0), exclude_dir@));
    }
    while i < existing.len()
        invariant
            i <= existing.len(),
            ev == existing.deep_view(),
            ev.len() == existing.len(),
            r.deep_view() == spec_select(ev.take(i as int), exclude_dir@),
        decreases existing.len() - i,
    {
        proof {
            assert(ev.take(i + 1).drop_last() =~= ev.take(i as int));
            assert(ev.take(i + 1).last() == ev[i as int]);
            assert(ev[i as int] == existing@[i as int].deep_view());
        }
        let e = &existing[i];
        if !str_eq(e.0.as_str(), exclude_dir) {
            let ghost rdv = r.deep_view();
            r.push(e.1.clone());
            proof {
                assert(r.deep_view() =~~= rdv.push(ev[i as int].1));
            }
        }
        i = i + 1;
    }
    proof {
        assert(ev.take(existing.len() as int) =~= ev);
    }
    if r.len() > 0 {
        Some(r)
    } else {
        None
    }
}

/// The search path rewritten for the child process: the venv's `bin`
/// first, then the old entries with empty artifacts dropped; `None`
/// when the venv's `bin` is already on the path and nothing changes.
pub open spec fn spec_updated_path(path: Seq<char>, venv_bin: Seq<char>) -> Option<Seq<char>> {
    let segs = spec_split(path, ':').filter(|p: Seq<char>| p.len() > 0);
    if segs.contains(venv_bin) {
        None
    } else {
        Some(spec_join_char(seq![venv_bin] + segs, ':'))
    }
}

/// Puts the venv's `bin` directory first on the search path, added
/// rather than duplicated, with no empty entries kept.
pub fn updated_path_env(path: &str, venv_bin: &str) -> (r: Option<String>)
    ensures
        match r {
            Some(v) => spec_updated_path(path@, venv_bin@) == Some(v@),
            None => spec_updated_path(path@, venv_bin@) is None,
        },
{
    let pieces = split_char(path, ':');
    let ghost pz = pieces.deep_view();
    let ghost keep = |p: Seq<char>| p.len() > 0;
    let mut segs: Vec<String> = Vec::new();
    segs.push(String::from_str(venv_bin));
    let ghost base = segs.deep_view();
    proof {
        reveal(Seq::filter);
        assert(base =~= seq![venv_bin@]);
        assert(pz.take(0) =~= Seq::<Seq<char>>::empty());
        assert(segs.deep_view() =~~= base + pz.take(0).filter(keep));
    }
    let mut found = false;
    let mut i: usize = 0;
    while i < pieces.len()
        invariant
            i <= pieces.len(),
            pz == pieces.deep_view(),
            pz.len() == pieces.len(),
            keep == (|p: Seq<char>| p.len() > 0),
            base == seq![venv_bin@],
            segs.deep_view() == base + pz.take(i as int).filter(keep),
            found == pz.take(i as int).filter(keep).contains(venv_bin@),
        decreases pieces.len() - i,
    {
        proof {
            reveal(Seq::filter);
            assert(pz.take(i + 1).drop_last() =~= pz.take(i as int));
            assert(pz.take(i + 1).last() == pz[i as int]);
            assert(pz[i as int] == pieces@[i as int]@);
        }
        let p = &pieces[i];
        if p.as_str().unicode_len() > 0 {
            let ghost sdv = segs.deep_view();
            let ghost before = pz.take(i as int).filter(keep);
            let is_bin = str_eq(p.as_str(), venv_bin);
            segs.push(p.clone());
            proof {
                assert(segs.deep_view() =~~= sdv.push(pz[i as int]));
                assert(pz.take(i + 1).filter(keep) =~= before.push(pz[i as int]));
                if is_bin {
                    assert(pz.take(i + 1).filter(keep).last() == venv_bin@);
                    assert(pz.take(i + 1).filter(keep).contains(venv_bin@));
                } else {
                    assert(pz.take(i + 1).filter(keep).contains(venv_bin@) == found) by {
                        if pz.take(i + 1).filter(keep).contains(venv_bin@) {
                            let w = choose|w: int|
                                0 <= w < pz.take(i + 1).filter(keep).len() && #[trigger] pz.take(
                                    i + 1,
                                ).filter(keep)[w] == venv_bin@;
                            if w < before.len() {
                                assert(before[w] == venv_bin@);
                                assert(before.contains(venv_bin@));
                            } else {
                                assert(pz.take(i + 1).filter(keep)[w] == pz[i as int]);
                            }
                        }
                        if found {
                            let w = choose|w: int|
                                0 <= w < before.len() && before[w] == venv_bin@;
                            assert(pz.take(i + 1).filter(keep)[w] == venv_bin@);
                        }
                    }
                }
            }
            if is_bin {
                found = true;
            }
        } else {
            proof {
                reveal(Seq::filter);
                assert(pz.take(i + 1).filter(keep) =~= pz.take(i as int).filter(keep));
            }
        }
        i = i + 1;
    }
    proof {
        assert(pz.take(pieces.len() as int) =~= pz);
    }
    if found {
        None
    } else {
        proof {
            reveal_strlit(":");
            assert(":"@ =~= seq![':']);
        }
        let joined = join_char(&segs, ":");
        proof {
            assert(":"@[0] == ':');
        }
        Some(joined)
    }
}

/// True if `p` occurs in `s` starting at `i`.
pub open spec fn substr_at(s: Seq<char>, p: Seq<char>, i: int) -> bool {
    0 <= i && i + p.len() <= s.len() && s.subrange(i, i + p.len()) == p
}

/// Index of the first occurrence of `p` in `s`; `s.len()` means absent
/// (for a nonempty `p`).
pub open spec fn first_substr(s: Seq<char>, p: Seq<char>) -> nat
    decreases s.len(),
{
    if p.len() <= s.len() && s.take(p.len() as int) == p {
        0
    } else if s.len() == 0 {
        0
    } else {
        1 + first_substr(s.drop_first(), p)
    }
}

proof fn lemma_first_substr(s: Seq<char>, p: Seq<char>)
    requires
        p.len() > 0,
    ensures
        first_substr(s, p) <= s.len(),
        forall|i: int| 0 <= i < first_substr(s, p) ==> !substr_at(s, p, i),
        first_substr(s, p) + p.len() <= s.len() ==> substr_at(s, p, first_substr(s, p) as int),
        p.len() > 0 && first_substr(s, p) + p.len() > s.len() ==> first_substr(s, p) == s.len(),
    decreases s.len(),
{
    if p.len() <= s.len() && s.take(p.len() as int) == p {
        assert(s.subrange(0, p.len() as int) =~= s.take(p.len() as int));
    } else if s.len() == 0 {
    } else {
        lemma_first_substr(s.drop_first(), p);
        let f = first_substr(s, p) as int;
        let fp = first_substr(s.drop_first(), p) as int;
        assert(f == 1 + fp);
        if f + p.len() <= s.len() {
            assert(substr_at(s.drop_first(), p, fp));
            assert(s.drop_first().subrange(fp, fp + p.len() as int) =~= s.subrange(
                f,
                f + p.len() as int,
            ));
            assert(substr_at(s, p, f));
        }
        assert forall|i: int| 0 <= i < f implies !substr_at(s, p, i) by {
            if i == 0 {
                if substr_at(s, p, 0) {
                    assert(s.subrange(0, p.len() as int) =~= s.take(p.len() as int));
                }
            } else {
                assert(!substr_at(s.drop_first(), p, i - 1));
                if substr_at(s, p, i) {
                    assert(s.drop_first().subrange(i - 1, i - 1 + p.len() as int)
                        =~= s.subrange(i, i + p.len() as int));
                    assert(substr_at(s.drop_first(), p, i - 1));
                }
            }
        }
    }
}

/// First index where `p` occurs in `s`, or `s@.len()` when it does not.
pub fn find_substr(s: &str, p: &str) -> (r: usize)
    requires
        p@.len() > 0,
    ensures
        r == first_substr(s@, p@),
{
    let n = s.unicode_len();
    let m = p.unicode_len();
    if m > n {
        proof {
            lemma_first_substr(s@, p@);
        }
        return n;
    }
    let mut i: usize = 0;
    while i <= n - m
        invariant
            m == p@.len(),
            n == s@.len(),
            0 < m <= n,
            i <= n - m + 1,
            forall|j: int| 0 <= j < i ==> !substr_at(s@, p@, j),
        decreases n - i,
    {
        if crate::strutil::str_eq(s.substring_char(i, i + m), p) {
            proof {
                lemma_first_substr(s@, p@);
                assert(substr_at(s@, p@, i as int));
                let f = first_substr(s@, p@) as int;
                if f < i {
                    assert(!substr_at(s@, p@, f));
                    assert(f + p@.len() <= s@.len());
                    assert(substr_at(s@, p@, f));
                }
                if f > i {
                    assert(!substr_at(s@, p@, i as int));
                }
            }
            return i;
        }
        proof {
            assert(!substr_at(s@, p@, i as int));
        }
        i = i + 1;
    }
    proof {
        lemma_first_substr(s@, p@);
        assert(first_substr(s@, p@) == s@.len()) by {
            let f = first_substr(s@, p@);
            if f + p@.len() <= s@.len() {
                assert(substr_at(s@, p@, f as int));
                assert(!substr_at(s@, p@, f as int));
            }
        }
    }
    n
}

/// Where the four fallback candidates for a runfiles interpreter sit
/// when no runfiles tree can be initialized: under the action root (the
/// part of the executable's path before its output directory, or the
/// working directory), the interpreter may lie under `external`, under
/// the output tree's `external`, bare, or under the output tree.
pub open spec fn spec_fallback_candidates(exe: Seq<char>, rpath: Seq<char>) -> Seq<Seq<char>> {
    let pfx = if first_substr(exe, "bazel-out"@) < exe.len() {
        exe.take(first_substr(exe, "bazel-out"@) as int)
    } else {
        "./"@
    };
    seq![
        pfx + "external/"@ + rpath,
        pfx + "bazel-out/k8-fastbuild/bin/external/"@ + rpath,
        pfx + rpath,
        pfx + "bazel-out/k8-fastbuild/bin/"@ + rpath,
    ]
}

/// The candidate interpreter locations tried when the runfiles tree
/// cannot be found, in the order they are probed.
pub fn interpreter_fallback_candidates(executable: &str, rpath: &str) -> (r: Vec<String>)
    ensures
        r.deep_view() == spec_fallback_candidates(executable@, rpath@),
{
    proof {
        reveal_strlit("bazel-out");
    }
    let n = executable.unicode_len();
    let cut = find_substr(executable, "bazel-out");
    let pfx = if cut < n {
        String::from_str(executable.substring_char(0, cut))
    } else {
        String::from_str("./")
    };
    let mut r: Vec<String> = Vec::new();
    let mut c1 = pfx.clone();
    c1.append("external/");
    c1.append(rpath);
    r.push(c1);
    let mut c2 = pfx.clone();
    c2.append("bazel-out/k8-fastbuild/bin/external/");
    c2.append(rpath);
    r.push(c2);
    let mut c3 = pfx.clone();
    c3.append(rpath);
    r.push(c3);
    let mut c4 = pfx;
    c4.append("bazel-out/k8-fastbuild/bin/");
    c4.append(rpath);
    r.push(c4);
    proof {
        assert(r.deep_view() =~~= spec_fallback_candidates(executable@, rpath@));
    }
    r
}

/// The candidate venv root above an interpreter path: two levels up,
/// with the config expected directly in it.
pub fn venv_root_candidate(executable: &AbsPath) -> (r: Option<(AbsPath, AbsPath)>)
    ensures
        executable@.len() >= 2 ==> (r matches Some(p) && p.0@
            == executable@.drop_last().drop_last() && p.1@ == p.0@.push("pyvenv.cfg"@)),
        executable@.len() < 2 ==> r is None,
{
    if executable.segs.len() < 2 {
        proof {
            assert(executable@.len() < 2);
        }
        return None;
    }
    let root = executable.parent().parent();
    let cfg = root.child("pyvenv.cfg");
    Some((root, cfg))
}

} // verus!
