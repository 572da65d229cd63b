//! The Bazel runfiles addressing protocol: mapping a logical
//! `<repo>/<path>` location to a real filesystem path, in directory-based
//! or manifest-based mode, with bzlmod repo-mapping awareness.
//!
//! Construction from the environment (variables, file reads, symlink
//! walks) is the caller's job; this module owns the parsing of manifest
//! and repo-mapping file contents and the complete lookup logic.
use vstd::prelude::*;

use crate::paths::AbsPath;
use crate::strutil::{first_at, seq_ends_with, spec_lines, split_lines, split_once_char,
    str_eq, ends_with_str};

verus! {

/// How runfiles lookup can fail.
#[derive(Debug, PartialEq, Eq)]
pub enum RunfilesError {
    /// Directory-based runfiles could not be found.
    RunfilesDirNotFound,
    /// An I/O failure while discovering directory-based runfiles.
    RunfilesDirIoError(String),
    /// An I/O failure while reading a runfiles manifest file.
    RunfilesManifestIoError(String),
    /// A manifest file could not be parsed.
    RunfilesManifestInvalidFormat,
    /// The bzlmod repo-mapping file could not be found.
    RepoMappingNotFound,
    /// The bzlmod repo-mapping file could not be parsed.
    RepoMappingInvalidFormat,
    /// An I/O failure while reading a repo-mapping file.
    RepoMappingIoError(String),
    /// A particular runfile was not found.
    RunfileNotFound(String),
    /// An I/O failure while using a particular runfile.
    RunfileIoError(String),
}

/// Where runfiles are addressed from.
enum Mode {
    /// A runfiles directory; lookups join the relative path onto it.
    DirectoryBased(String),
    /// A flat map from logical relative paths to real paths.
    ManifestBased(Vec<(String, String)>),
}

/// Lookup in a key/value list where a later entry for the same key
/// shadows an earlier one, as inserting the pairs into a map in order
/// would.
pub open spec fn assoc_last(entries: Seq<(Seq<char>, Seq<char>)>, k: Seq<char>) -> Option<
    Seq<char>,
>
    decreases entries.len(),
{
    if entries.len() == 0 {
        None
    } else if entries.last().0 == k {
        Some(entries.last().1)
    } else {
        assoc_last(entries.drop_last(), k)
    }
}

/// Same shadowing lookup for the repo mapping, keyed by the pair
/// `(source repo, local alias)`.
pub open spec fn assoc_last3(
    entries: Seq<(Seq<char>, Seq<char>, Seq<char>)>,
    src: Seq<char>,
    alias: Seq<char>,
) -> Option<Seq<char>>
    decreases entries.len(),
{
    if entries.len() == 0 {
        None
    } else if entries.last().0 == src && entries.last().1 == alias {
        Some(entries.last().2)
    } else {
        assoc_last3(entries.drop_last(), src, alias)
    }
}

/// True if `p` is an absolute path.
pub open spec fn is_abs(p: Seq<char>) -> bool {
    p.len() > 0 && p[0] == '/'
}

/// What `rlocation` returns for a relative path under a given mode.
pub open spec fn spec_raw_rlocation(
    dir: Option<Seq<char>>,
    manifest: Seq<(Seq<char>, Seq<char>)>,
    path: Seq<char>,
) -> Option<Seq<char>> {
    match dir {
        Some(root) => Some(root + seq!['/'] + path),
        None => assoc_last(manifest, path),
    }
}

/// An interface for addressing Bazel runfiles.
pub struct Runfiles {
    mode: Mode,
    repo_mapping: Vec<(String, String, String)>,
}

impl Runfiles {
    /// The runfiles directory, in directory-based mode.
    pub closed spec fn spec_dir(&self) -> Option<Seq<char>> {
        match self.mode {
            Mode::DirectoryBased(ref d) => Some(d@),
            Mode::ManifestBased(_) => None,
        }
    }

    /// The path map, in manifest-based mode (empty otherwise).
    pub closed spec fn spec_manifest(&self) -> Seq<(Seq<char>, Seq<char>)> {
        match self.mode {
            Mode::DirectoryBased(_) => Seq::empty(),
            Mode::ManifestBased(ref m) => m.deep_view(),
        }
    }

    /// The repo-mapping triples `(source repo, alias, target directory)`.
    pub closed spec fn spec_repo_mapping(&self) -> Seq<(Seq<char>, Seq<char>, Seq<char>)> {
        self.repo_mapping.deep_view()
    }

    /// A directory-based runfiles object with the given repo mapping.
    pub fn new_directory_based(dir: String, repo_mapping: Vec<(String, String, String)>) -> (r:
        Runfiles)
        ensures
            r.spec_dir() == Some(dir@),
            r.spec_repo_mapping() == repo_mapping.deep_view(),
    {
        Runfiles { mode: Mode::DirectoryBased(dir), repo_mapping }
    }

    /// A manifest-based runfiles object with the given repo mapping.
    pub fn new_manifest_based(
        entries: Vec<(String, String)>,
        repo_mapping: Vec<(String, String, String)>,
    ) -> (r: Runfiles)
        ensures
            r.spec_dir() is None,
            r.spec_manifest() == entries.deep_view(),
            r.spec_repo_mapping() == repo_mapping.deep_view(),
    {
        Runfiles { mode: Mode::ManifestBased(entries), repo_mapping }
    }

    /// Returns the runtime path of a runfile: an absolute path is returned
    /// unchanged, directory mode joins the runfiles root, and manifest mode
    /// looks the path up, `None` on a miss.  The result may name a file
    /// that does not exist; the caller checks.
    pub fn rlocation(&self, path: &str) -> (r: Option<String>)
        ensures
            is_abs(path@) ==> (r matches Some(v) && v@ == path@),
            !is_abs(path@) ==> match r {
                Some(v) => spec_raw_rlocation(self.spec_dir(), self.spec_manifest(), path@)
                    == Some(v@),
                None => spec_raw_rlocation(self.spec_dir(), self.spec_manifest(), path@)
                    is None,
            },
    {
        let n = path.unicode_len();
        if n > 0 && path.get_char(0) == '/' {
            let r = String::from_str(path);
            proof {
                assert(r@ == path@);
            }
            return Some(r);
        }
        self.raw_rlocation(path)
    }

    /// Lookup of a relative path under the current mode.
    fn raw_rlocation(&self, path: &str) -> (r: Option<String>)
        ensures
            match r {
                Some(v) => spec_raw_rlocation(self.spec_dir(), self.spec_manifest(), path@)
                    == Some(v@),
                None => spec_raw_rlocation(self.spec_dir(), self.spec_manifest(), path@)
                    is None,
            },
    {
        match &self.mode {
            Mode::DirectoryBased(root) => {
                let mut r = root.clone();
                r.append("/");
                r.append(path);
                proof {
                    reveal_strlit("/");
                    assert(r@ =~= root@ + seq!['/'] + path@);
                }
                Some(r)
            },
            Mode::ManifestBased(entries) => {
                let ghost m = entries.deep_view();
                let mut i: usize = entries.len();
                proof {
                    assert(self.spec_manifest() == m);
                    assert(m.take(i as int) =~= m);
                }
                while i > 0
                    invariant
                        i <= entries.len(),
                        m == entries.deep_view(),
                        self.spec_dir() is None,
                        self.spec_manifest() == m,
                        assoc_last(m, path@) == assoc_last(m.take(i as int), path@),
                    decreases i,
                {
                    i = i - 1;
                    let e = &entries[i];
                    proof {
                        assert(m[i as int] == entries@[i as int].deep_view());
                        assert(m[i as int].0 == e.0@ && m[i as int].1 == e.1@);
                    }
                    if str_eq(e.0.as_str(), path) {
                        proof {
                            assert(m.take(i + 1).last() == m[i as int]);
                            assert(m.take(i + 1).last().0 == path@);
                            assert(assoc_last(m.take(i + 1), path@) == Some(
                                m[i as int].1,
                            ));
                            assert(assoc_last(m, path@) == Some(e.1@));
                        }
                        return Some(e.1.clone());
                    }
                    proof {
                        assert(m.take(i + 1).drop_last() =~= m.take(i as int));
                    }
                }
                proof {
                    assert(m.take(0) =~= Seq::<(Seq<char>, Seq<char>)>::empty());
                }
                None
            },
        }
    }

    /// What `rlocation_from` resolves for a relative path: the repo-mapped
    /// rewrite when the `(source repo, alias)` pair is mapped, else the
    /// path as given.
    pub open spec fn spec_rlocation_from(&self, path: Seq<char>, source_repo: Seq<char>) -> Option<
        Seq<char>,
    > {
        let cut = first_at(path, '/');
        let alias = if cut < path.len() {
            path.take(cut as int)
        } else {
            path
        };
        match assoc_last3(self.spec_repo_mapping(), source_repo, alias) {
            Some(target) => {
                if cut < path.len() {
                    spec_raw_rlocation(
                        self.spec_dir(),
                        self.spec_manifest(),
                        target + seq!['/'] + path.skip(cut as int + 1),
                    )
                } else {
                    spec_raw_rlocation(self.spec_dir(), self.spec_manifest(), target)
                }
            },
            None => spec_raw_rlocation(self.spec_dir(), self.spec_manifest(), path),
        }
    }

    /// Returns the runtime path of a runfile, translating the leading repo
    /// alias through the bzlmod repo mapping for the given source repo
    /// before looking it up; an absolute path is returned unchanged.
    pub fn rlocation_from(&self, path: &str, source_repo: &str) -> (r: Option<String>)
        ensures
            is_abs(path@) ==> (r matches Some(v) && v@ == path@),
            !is_abs(path@) ==> match r {
                Some(v) => self.spec_rlocation_from(path@, source_repo@) == Some(v@),
                None => self.spec_rlocation_from(path@, source_repo@) is None,
            },
    {
        let n = path.unicode_len();
        if n > 0 && path.get_char(0) == '/' {
            let r = String::from_str(path);
            proof {
                assert(r@ == path@);
            }
            return Some(r);
        }
        let (alias, rest) = match split_once_char(path, '/') {
            Some(p) => (p.0, Some(p.1)),
            None => (String::from_str(path), None),
        };
        proof {
            crate::strutil::lemma_first_at(path@, '/');
        }
        match self.repo_mapping_get(source_repo, alias.as_str()) {
            Some(target) => match rest {
                Some(rest) => {
                    let mut joined = target;
                    joined.append("/");
                    joined.append(rest.as_str());
                    proof {
                        reveal_strlit("/");
                        assert(joined@ =~= assoc_last3(
                            self.spec_repo_mapping(),
                            source_repo@,
                            path@.take(first_at(path@, '/') as int),
                        ).unwrap() + seq!['/'] + path@.skip(first_at(path@, '/') as int + 1));
                    }
                    self.raw_rlocation(joined.as_str())
                },
                None => self.raw_rlocation(target.as_str()),
            },
            None => self.raw_rlocation(path),
        }
    }

    /// Shadowing lookup in the repo mapping.
    fn repo_mapping_get(&self, src: &str, alias: &str) -> (r: Option<String>)
        ensures
            match r {
                Some(v) => assoc_last3(self.spec_repo_mapping(), src@, alias@) == Some(v@),
                None => assoc_last3(self.spec_repo_mapping(), src@, alias@) is None,
            },
    {
        let ghost m = self.repo_mapping.deep_view();
        let mut i: usize = self.repo_mapping.len();
        proof {
            assert(m.take(i as int) =~= m);
        }
        while i > 0
            invariant
                i <= self.repo_mapping.len(),
                m == self.repo_mapping.deep_view(),
                self.spec_repo_mapping() == m,
                assoc_last3(m, src@, alias@) == assoc_last3(m.take(i as int), src@, alias@),
            decreases i,
        {
            i = i - 1;
            let e = &self.repo_mapping[i];
            proof {
                assert(m[i as int] == self.repo_mapping@[i as int].deep_view());
            }
            if str_eq(e.0.as_str(), src) && str_eq(e.1.as_str(), alias) {
                proof {
                    assert(m.take(i + 1).last() == m[i as int]);
                }
                return Some(e.2.clone());
            }
            proof {
                assert(m.take(i + 1).drop_last() =~= m.take(i as int));
            }
        }
        proof {
            assert(m.take(0) =~= Seq::<(Seq<char>, Seq<char>, Seq<char>)>::empty());
        }
        None
    }
}

/// The `(relative path, real path)` pair a manifest line denotes: the
/// split at the first space, or nothing for a line without one.
pub open spec fn manifest_pair_of(line: Seq<char>) -> Option<(Seq<char>, Seq<char>)> {
    if first_at(line, ' ') < line.len() {
        Some((line.take(first_at(line, ' ') as int), line.skip(first_at(line, ' ') as int + 1)))
    } else {
        None
    }
}

/// The pairs of a runfiles manifest, in line order; lines without a space
/// are skipped (the format is read leniently).
pub open spec fn spec_parse_manifest(lines: Seq<Seq<char>>) -> Seq<(Seq<char>, Seq<char>)>
    decreases lines.len(),
{
    if lines.len() == 0 {
        Seq::empty()
    } else {
        let rest = spec_parse_manifest(lines.drop_last());
        match manifest_pair_of(lines.last()) {
            Some(p) => rest.push(p),
            None => rest,
        }
    }
}

/// Parses the content of a runfiles manifest file: one
/// `<relative path> <real path>` pair per line, split at the first space,
/// malformed lines skipped.
pub fn parse_manifest_content(content: &str) -> (r: Vec<(String, String)>)
    ensures
        r.deep_view() == spec_parse_manifest(spec_lines(content@)),
{
    let lines = split_lines(content);
    let ghost lv = lines.deep_view();
    let mut r: Vec<(String, String)> = Vec::new();
    let mut i: usize = 0;
    proof {
        assert(lv.take(0) =~= Seq::<Seq<char>>::empty());
    }
    while i < lines.len()
        invariant
            i <= lines.len(),
            lv == lines.deep_view(),
            r.deep_view() == spec_parse_manifest(lv.take(i as int)),
        decreases lines.len() - i,
    {
        proof {
            assert(lv.take(i + 1).drop_last() =~= lv.take(i as int));
            assert(lv.take(i + 1).last() == lv[i as int]);
        }
        let line = &lines[i];
        if let Some(pair) = split_once_char(line.as_str(), ' ') {
            let ghost old_dv = r.deep_view();
            r.push(pair);
            proof {
                assert(r.deep_view() =~~= old_dv.push(
                    manifest_pair_of(lv[i as int]).unwrap(),
                ));
            }
        } else {
            proof {
                crate::strutil::lemma_first_at(lv[i as int], ' ');
            }
        }
        i = i + 1;
    }
    proof {
        assert(lv.take(lines.len() as int) =~= lv);
    }
    r
}

/// The `(source repo, alias, target directory)` triple a repo-mapping line
/// denotes: the split at its first two commas (the third field keeps any
/// further commas), or nothing for a line with fewer than three fields.
pub open spec fn repo_mapping_triple_of(line: Seq<char>) -> Option<
    (Seq<char>, Seq<char>, Seq<char>),
> {
    let c1 = first_at(line, ',');
    if c1 >= line.len() {
        None
    } else {
        let rest = line.skip(c1 as int + 1);
        let c2 = first_at(rest, ',');
        if c2 >= rest.len() {
            None
        } else {
            Some((line.take(c1 as int), rest.take(c2 as int), rest.skip(c2 as int + 1)))
        }
    }
}

/// The triples of a repo-mapping file in line order, or nothing when any
/// line has fewer than three comma-separated fields.
pub open spec fn spec_parse_repo_mapping(lines: Seq<Seq<char>>) -> Option<
    Seq<(Seq<char>, Seq<char>, Seq<char>)>,
>
    decreases lines.len(),
{
    if lines.len() == 0 {
        Some(Seq::empty())
    } else {
        match (spec_parse_repo_mapping(lines.drop_last()), repo_mapping_triple_of(
            lines.last(),
        )) {
            (Some(acc), Some(t)) => Some(acc.push(t)),
            _ => None,
        }
    }
}

/// Parses the content of a bzlmod `_repo_mapping` file: CSV triples
/// `source_repo,repo_alias,target_repo_dir`, no header, no escaping.  Any
/// line with fewer than three fields rejects the whole file as
/// `RepoMappingInvalidFormat`.
pub fn parse_repo_mapping_content(content: &str) -> (r: Result<
    Vec<(String, String, String)>,
    RunfilesError,
>)
    ensures
        r matches Ok(v) ==> spec_parse_repo_mapping(spec_lines(content@)) == Some(
            v.deep_view(),
        ),
        r matches Err(e) ==> spec_parse_repo_mapping(spec_lines(content@)) is None && e
            == RunfilesError::RepoMappingInvalidFormat,
{
    let lines = split_lines(content);
    let ghost lv = lines.deep_view();
    let mut r: Vec<(String, String, String)> = Vec::new();
    let mut i: usize = 0;
    proof {
        assert(lv.take(0) =~= Seq::<Seq<char>>::empty());
    }
    while i < lines.len()
        invariant
            i <= lines.len(),
            lv == lines.deep_view(),
            lv == spec_lines(content@),
            spec_parse_repo_mapping(lv.take(i as int)) == Some(r.deep_view()),
        decreases lines.len() - i,
    {
        proof {
            assert(lv.take(i + 1).drop_last() =~= lv.take(i as int));
            assert(lv.take(i + 1).last() == lv[i as int]);
        }
        let line = &lines[i];
        proof {
            assert(line@ == lv[i as int]);
        }
        let Some(first) = split_once_char(line.as_str(), ',') else {
            proof {
                crate::strutil::lemma_first_at(lv[i as int], ',');
                lemma_parse_repo_mapping_poisoned(lv, i as int);
            }
            return Err(RunfilesError::RepoMappingInvalidFormat);
        };
        let Some(second) = split_once_char(first.1.as_str(), ',') else {
            proof {
                crate::strutil::lemma_first_at(first.1@, ',');
                lemma_parse_repo_mapping_poisoned(lv, i as int);
            }
            return Err(RunfilesError::RepoMappingInvalidFormat);
        };
        proof {
            crate::strutil::lemma_first_at(lv[i as int], ',');
        }
        let ghost old_dv = r.deep_view();
        r.push((first.0, second.0, second.1));
        proof {
            assert(r.deep_view() =~~= old_dv.push(
                repo_mapping_triple_of(lv[i as int]).unwrap(),
            ));
        }
        i = i + 1;
    }
    proof {
        assert(lv.take(lines.len() as int) =~= lv);
    }
    Ok(r)
}

/// The neighboring `<name>.runfiles` directory candidate of a binary
/// path: its file name with the suffix appended, beside it.
pub fn runfiles_sibling(path: &AbsPath) -> (r: Option<AbsPath>)
    ensures
        path@.len() > 0 ==> (r matches Some(p) && p@ == path@.drop_last().push(
            path@.last() + ".runfiles"@,
        )),
        path@.len() == 0 ==> r is None,
{
    if path.segs.len() == 0 {
        proof {
            assert(path@.len() == 0);
        }
        return None;
    }
    let mut name = path.segs[path.segs.len() - 1].clone();
    name.append(".runfiles");
    let parent = path.parent();
    let r = parent.child(name.as_str());
    proof {
        assert(name@ == path@.last() + ".runfiles"@);
    }
    Some(r)
}

/// The deepest proper ancestor of a binary path that is itself a
/// `*.runfiles` directory, if any: walking up from the immediate parent,
/// the first directory whose name ends in the suffix.
pub fn runfiles_ancestor(path: &AbsPath) -> (r: Option<AbsPath>)
    ensures
        match r {
            Some(p) => 1 <= p@.len() < path@.len() && p@ == path@.take(p@.len() as int)
                && seq_ends_with(path@[p@.len() - 1], ".runfiles"@) && (forall|j: int|
                p@.len() < j < path@.len() ==> !seq_ends_with(
                    #[trigger] path@[j - 1],
                    ".runfiles"@,
                )),
            None => forall|j: int|
                1 <= j < path@.len() ==> !seq_ends_with(#[trigger] path@[j - 1], ".runfiles"@),
        },
{
    let mut k: usize = path.segs.len();
    while k > 1
        invariant
            k <= path.segs.len(),
            path@.len() == path.segs.len(),
            forall|j: int|
                k <= j < path@.len() ==> !seq_ends_with(#[trigger] path@[j - 1], ".runfiles"@),
        decreases k,
    {
        k = k - 1;
        if ends_with_str(path.segs[k - 1].as_str(), ".runfiles") {
            let mut segs: Vec<String> = Vec::new();
            let mut i: usize = 0;
            while i < k
                invariant
                    i <= k <= path.segs.len(),
                    path@.len() == path.segs.len(),
                    segs.deep_view() =~= path@.take(i as int),
                decreases k - i,
            {
                let ghost dv = segs.deep_view();
                segs.push(path.segs[i].clone());
                proof {
                    assert(segs.deep_view() =~~= dv.push(path@[i as int]));
                    assert(segs.deep_view() =~~= path@.take(i + 1));
                }
                i = i + 1;
            }
            let p = AbsPath { segs };
            proof {
                assert(p@ == path@.take(k as int));
                assert(p@.len() == k);
            }
            return Some(p);
        }
    }
    None
}

/// True if any component of the path is a `*.runfiles` directory: the
/// sign that a symlink chain has been walked far enough to land inside
/// a runfiles tree.
pub fn has_runfiles_component(path: &AbsPath) -> (r: bool)
    ensures
        r == exists|i: int|
            0 <= i < path@.len() && seq_ends_with(#[trigger] path@[i], ".runfiles"@),
{
    let mut i: usize = 0;
    while i < path.segs.len()
        invariant
            i <= path.segs.len(),
            path@.len() == path.segs.len(),
            forall|j: int| 0 <= j < i ==> !seq_ends_with(#[trigger] path@[j], ".runfiles"@),
        decreases path.segs.len() - i,
    {
        if ends_with_str(path.segs[i].as_str(), ".runfiles") {
            assert(seq_ends_with(path@[i as int], ".runfiles"@));
            return true;
        }
        i = i + 1;
    }
    false
}

/// Once one line fails to parse, the whole repo-mapping file fails.
proof fn lemma_parse_repo_mapping_poisoned(lines: Seq<Seq<char>>, i: int)
    requires
        0 <= i < lines.len(),
        repo_mapping_triple_of(lines[i]) is None,
    ensures
        spec_parse_repo_mapping(lines) is None,
    decreases lines.len(),
{
    if lines.len() > 0 {
        if i == lines.len() - 1 {
        } else {
            assert(lines.drop_last()[i] == lines[i]);
            lemma_parse_repo_mapping_poisoned(lines.drop_last(), i);
        }
    }
}

} // verus!
