//! The virtualenv layout and the population planner.
//!
//! Building a venv happens in two phases.  At planning time a population
//! strategy turns each logical import-root entry of a manifest into
//! primitive commands; the resolver then drops self-referential sources,
//! groups the commands by destination, applies the collision policy, and
//! hands back a deduplicated, deterministic plan.  Executing the plan
//! (file copies, links, permission bits) is the unverified caller's job.
use vstd::prelude::*;

use crate::paths::{AbsPath, RelSteps, diff_down, diff_up, seg_wf, segs_wf, spec_render_rel,
    spec_resolve, spec_then_up};
use crate::pth::SymlinkCollisionResolutionStrategy;
use crate::strutil::{digits_val, first_at, is_digits, spec_lines, spec_split, spec_trim,
    spec_u32_str, split_char, split_lines, split_once_char, trim, u32_to_string, parse_u32,
    str_eq};

verus! {

/// How planning and resolution can fail.
#[derive(Debug, PartialEq, Eq)]
pub enum VenvError {
    /// A version string was not `X.Y` or `X.Y.Z` with numeric fields.
    InvalidVersion,
    /// A manifest line did not name a well-formed `<repo>/<path>` entry.
    InvalidManifestEntry,
    /// A flat scripts directory contained a subdirectory.
    BindirSubdirs,
    /// Distinct sources target the same destination under the aborting
    /// collision policy.
    Collisions,
    /// The named interpreter does not exist and no shim was supplied.
    MissingInterpreter,
}

/// An interpreter version, as `X.Y` or `X.Y.Z` names one.
#[derive(Clone, Copy, Debug, PartialEq, Eq)]
pub struct PythonVersionInfo {
    pub major: u32,
    pub minor: u32,
    pub patch: u32,
}

/// The version triple a version string denotes, if it is well formed:
/// two or three dot-separated decimal fields, a missing patch read as 0.
pub open spec fn spec_version_of(s: Seq<char>) -> Option<(nat, nat, nat)> {
    let parts = spec_split(s, '.');
    if parts.len() == 2 && is_digits(parts[0]) && digits_val(parts[0]) <= u32::MAX
        && is_digits(parts[1]) && digits_val(parts[1]) <= u32::MAX {
        Some((digits_val(parts[0]), digits_val(parts[1]), 0))
    } else if parts.len() == 3 && is_digits(parts[0]) && digits_val(parts[0]) <= u32::MAX
        && is_digits(parts[1]) && digits_val(parts[1]) <= u32::MAX && is_digits(parts[2])
        && digits_val(parts[2]) <= u32::MAX {
        Some((digits_val(parts[0]), digits_val(parts[1]), digits_val(parts[2])))
    } else {
        None
    }
}

impl PythonVersionInfo {
    /// Parses `X.Y` or `X.Y.Z`; anything else is an invalid version.
    pub fn from_str(it: &str) -> (r: Result<PythonVersionInfo, VenvError>)
        ensures
            match r {
                Ok(v) => spec_version_of(it@) == Some(
                    (v.major as nat, v.minor as nat, v.patch as nat),
                ),
                Err(e) => spec_version_of(it@) is None && e == VenvError::InvalidVersion,
            },
    {
        let parts = split_char(it, '.');
        let ghost pv = parts.deep_view();
        if parts.len() == 2 {
            proof {
                assert(pv[0] == spec_split(it@, '.')[0]);
                assert(pv[1] == spec_split(it@, '.')[1]);
            }
            match (parse_u32(parts[0].as_str()), parse_u32(parts[1].as_str())) {
                (Some(major), Some(minor)) => Ok(
                    PythonVersionInfo { major, minor, patch: 0 },
                ),
                _ => Err(VenvError::InvalidVersion),
            }
        } else if parts.len() == 3 {
            proof {
                assert(pv[0] == spec_split(it@, '.')[0]);
                assert(pv[1] == spec_split(it@, '.')[1]);
                assert(pv[2] == spec_split(it@, '.')[2]);
            }
            match (parse_u32(parts[0].as_str()), parse_u32(parts[1].as_str()), parse_u32(
                parts[2].as_str(),
            )) {
                (Some(major), Some(minor), Some(patch)) => Ok(
                    PythonVersionInfo { major, minor, patch },
                ),
                _ => Err(VenvError::InvalidVersion),
            }
        } else {
            Err(VenvError::InvalidVersion)
        }
    }
}

/// The on-disk shape of one venv: its root, its interpreter directory,
/// its site directory, and its logical interpreter path.
#[derive(Debug)]
pub struct Virtualenv {
    pub home_dir: AbsPath,
    pub version_info: PythonVersionInfo,
    pub bin_dir: AbsPath,
    pub site_dir: AbsPath,
    pub python_bin: AbsPath,
}

impl Virtualenv {
    pub open spec fn wf(&self) -> bool {
        self.home_dir.wf() && self.bin_dir.wf() && self.site_dir.wf() && self.python_bin.wf()
    }
}

/// The `lib/pythonX.Y/site-packages` middle segment for a version.
pub open spec fn spec_python_dir_seg(major: nat, minor: nat) -> Seq<char> {
    "python"@ + spec_u32_str(major) + seq!['.'] + spec_u32_str(minor)
}

/// Lays the venv shape out under `build_dir`/`location`: `bin` beside
/// `lib/pythonX.Y/site-packages`, the logical interpreter at
/// `bin/python`.
pub fn venv_layout(build_dir: &AbsPath, location: &Vec<String>, version: PythonVersionInfo) -> (r:
    Virtualenv)
    ensures
        r.home_dir@ == build_dir@ + location.deep_view(),
        r.bin_dir@ == r.home_dir@.push("bin"@),
        r.site_dir@ == r.home_dir@ + seq![
            "lib"@,
            spec_python_dir_seg(version.major as nat, version.minor as nat),
            "site-packages"@,
        ],
        r.python_bin@ == r.bin_dir@.push("python"@),
        r.version_info == version,
{
    let home_dir = build_dir.join(location);
    let bin_dir = home_dir.child("bin");
    let mut py_seg = String::from_str("python");
    py_seg.append(u32_to_string(version.major).as_str());
    py_seg.append(".");
    py_seg.append(u32_to_string(version.minor).as_str());
    proof {
        reveal_strlit(".");
        assert(py_seg@ =~= spec_python_dir_seg(version.major as nat, version.minor as nat));
    }
    let site_dir = home_dir.child("lib").child(py_seg.as_str()).child("site-packages");
    let python_bin = bin_dir.child("python");
    proof {
        assert(site_dir@ =~= home_dir@ + seq![
            "lib"@,
            spec_python_dir_seg(version.major as nat, version.minor as nat),
            "site-packages"@,
        ]);
    }
    Virtualenv { home_dir, version_info: version, bin_dir, site_dir, python_bin }
}

/// One primitive population action.  Parent directories of a destination
/// are implied.
#[derive(Debug)]
pub enum Command {
    /// Copy the file at `src` to `dest`.
    Copy { src: AbsPath, dest: AbsPath },
    /// Copy `src` to `dest`, rewriting a recognized shebang into the
    /// relocatable one.
    CopyAndPatch { src: AbsPath, dest: AbsPath },
    /// Link `dest` to `src`, with a target relative to `dest`'s parent.
    Symlink { src: AbsPath, dest: AbsPath },
    /// Append one relative import path to the generated `.pth` file.
    PthEntry { path: RelSteps },
}

/// The mathematical image of a `Command`.
#[verifier::ext_equal]
pub ghost enum CmdModel {
    Copy { src: Seq<Seq<char>>, dest: Seq<Seq<char>> },
    CopyAndPatch { src: Seq<Seq<char>>, dest: Seq<Seq<char>> },
    Symlink { src: Seq<Seq<char>>, dest: Seq<Seq<char>> },
    PthEntry { up: nat, down: Seq<Seq<char>> },
}

impl View for Command {
    type V = CmdModel;

    open spec fn view(&self) -> CmdModel {
        match self {
            Command::Copy { src, dest } => CmdModel::Copy { src: src@, dest: dest@ },
            Command::CopyAndPatch { src, dest } => CmdModel::CopyAndPatch {
                src: src@,
                dest: dest@,
            },
            Command::Symlink { src, dest } => CmdModel::Symlink { src: src@, dest: dest@ },
            Command::PthEntry { path } => CmdModel::PthEntry { up: path@.0, down: path@.1 },
        }
    }
}

impl DeepView for Command {
    type V = CmdModel;

    open spec fn deep_view(&self) -> CmdModel {
        self.view()
    }
}

impl Clone for Command {
    fn clone(&self) -> (r: Self)
        ensures
            r@ == self@,
    {
        match self {
            Command::Copy { src, dest } => Command::Copy {
                src: src.clone(),
                dest: dest.clone(),
            },
            Command::CopyAndPatch { src, dest } => Command::CopyAndPatch {
                src: src.clone(),
                dest: dest.clone(),
            },
            Command::Symlink { src, dest } => Command::Symlink {
                src: src.clone(),
                dest: dest.clone(),
            },
            Command::PthEntry { path } => Command::PthEntry { path: path.clone() },
        }
    }
}

/// One filesystem fact handed to the planner: a path that exists, and
/// whether it is a directory.  The caller walks the candidate source
/// trees once and passes what it found, in walk order.
#[derive(Debug)]
pub struct FsEntry {
    pub path: AbsPath,
    pub is_dir: bool,
}

impl View for FsEntry {
    type V = (Seq<Seq<char>>, bool);

    open spec fn view(&self) -> (Seq<Seq<char>>, bool) {
        (self.path@, self.is_dir)
    }
}

impl DeepView for FsEntry {
    type V = (Seq<Seq<char>>, bool);

    open spec fn deep_view(&self) -> (Seq<Seq<char>>, bool) {
        self.view()
    }
}

/// What one population run knows about its surroundings: the action's
/// source directory (the working directory), the generated-output
/// directory, the build's own workspace name, and the snapshot of the
/// candidate source trees.
pub struct PlanContext {
    pub action_src_dir: AbsPath,
    pub action_bin_dir: AbsPath,
    pub main_repo: String,
    pub snapshot: Vec<FsEntry>,
}

impl PlanContext {
    pub open spec fn wf(&self) -> bool {
        self.action_src_dir.wf() && self.action_bin_dir.wf() && forall|i: int|
            0 <= i < self.snapshot.deep_view().len() ==> segs_wf(
                #[trigger] self.snapshot.deep_view()[i].0,
            )
    }
}

/// True if some snapshot entry names exactly `p`.
pub open spec fn snap_exists(snap: Seq<(Seq<Seq<char>>, bool)>, p: Seq<Seq<char>>) -> bool {
    exists|i: int| 0 <= i < snap.len() && (#[trigger] snap[i]).0 == p
}

/// True if `p` lies at or below `root`.
pub open spec fn is_under(p: Seq<Seq<char>>, root: Seq<Seq<char>>) -> bool {
    root.len() <= p.len() && p.take(root.len() as int) == root
}

/// The three materialization mechanisms a tree walk can emit.
pub enum WalkKind {
    Copy,
    Patch,
    Link,
}

/// The command a walk emits for one file.
pub open spec fn mk_walk_cmd(kind: WalkKind, src: Seq<Seq<char>>, dest: Seq<Seq<char>>) -> CmdModel {
    match kind {
        WalkKind::Copy => CmdModel::Copy { src, dest },
        WalkKind::Patch => CmdModel::CopyAndPatch { src, dest },
        WalkKind::Link => CmdModel::Symlink { src, dest },
    }
}

/// One command per non-directory snapshot entry at or below `root`, in
/// snapshot order, each destined for the same spot below `site`.
pub open spec fn walk_cmds(
    snap: Seq<(Seq<Seq<char>>, bool)>,
    root: Seq<Seq<char>>,
    site: Seq<Seq<char>>,
    kind: WalkKind,
) -> Seq<CmdModel>
    decreases snap.len(),
{
    if snap.len() == 0 {
        Seq::empty()
    } else {
        let e = snap.last();
        walk_cmds(snap.drop_last(), root, site, kind) + (if is_under(e.0, root) && !e.1 {
            seq![mk_walk_cmd(kind, e.0, site + e.0.skip(root.len() as int))]
        } else {
            Seq::empty()
        })
    }
}

/// The walk of `root`, or nothing when `root` is not in the snapshot.
pub open spec fn maybe_walk(
    snap: Seq<(Seq<Seq<char>>, bool)>,
    root: Seq<Seq<char>>,
    site: Seq<Seq<char>>,
    kind: WalkKind,
) -> Seq<CmdModel> {
    if snap_exists(snap, root) {
        walk_cmds(snap, root, site, kind)
    } else {
        Seq::empty()
    }
}

/// True if the snapshot holds a directory strictly below `root`.
pub open spec fn has_subdir(snap: Seq<(Seq<Seq<char>>, bool)>, root: Seq<Seq<char>>) -> bool {
    exists|i: int|
        0 <= i < snap.len() && (#[trigger] snap[i]).1 && is_under(snap[i].0, root) && snap[i].0
            != root
}

fn snap_exists_exec(snapshot: &Vec<FsEntry>, p: &AbsPath) -> (r: bool)
    ensures
        r == snap_exists(snapshot.deep_view(), p@),
{
    let ghost sv = snapshot.deep_view();
    let mut i: usize = 0;
    while i < snapshot.len()
        invariant
            i <= snapshot.len(),
            sv == snapshot.deep_view(),
            sv.len() == snapshot.len(),
            forall|j: int| 0 <= j < i ==> (#[trigger] sv[j]).0 != p@,
        decreases snapshot.len() - i,
    {
        proof {
            assert(sv[i as int] == snapshot@[i as int].deep_view());
        }
        if snapshot[i].path.eq_path(p) {
            return true;
        }
        i = i + 1;
    }
    false
}

/// Emits the walk of `root` onto `out`.
fn walk_plan(
    snapshot: &Vec<FsEntry>,
    root: &AbsPath,
    site: &AbsPath,
    kind: WalkKind,
    out: &mut Vec<Command>,
)
    ensures
        final(out).deep_view() == old(out).deep_view() + walk_cmds(
            snapshot.deep_view(),
            root@,
            site@,
            kind,
        ),
{
    let ghost sv = snapshot.deep_view();
    let ghost old_dv = out.deep_view();
    let mut i: usize = 0;
    proof {
        assert(old_dv + walk_cmds(sv.take(0), root@, site@, kind) =~= old_dv);
        assert(sv.take(0) =~= Seq::<(Seq<Seq<char>>, bool)>::empty());
    }
    while i < snapshot.len()
        invariant
            i <= snapshot.len(),
            sv == snapshot.deep_view(),
            sv.len() == snapshot.len(),
            out.deep_view() == old_dv + walk_cmds(sv.take(i as int), root@, site@, kind),
        decreases snapshot.len() - i,
    {
        proof {
            assert(sv.take(i + 1).drop_last() =~= sv.take(i as int));
            assert(sv.take(i + 1).last() == sv[i as int]);
            assert(sv[i as int] == snapshot@[i as int].deep_view());
        }
        let e = &snapshot[i];
        if !e.is_dir && e.path.starts_with(root) {
            let suffix = e.path.strip_prefix(root);
            let dest = site.join(&suffix);
            let cmd = match kind {
                WalkKind::Copy => Command::Copy { src: e.path.clone(), dest },
                WalkKind::Patch => Command::CopyAndPatch { src: e.path.clone(), dest },
                WalkKind::Link => Command::Symlink { src: e.path.clone(), dest },
            };
            let ghost dv = out.deep_view();
            out.push(cmd);
            proof {
                assert(out.deep_view() =~~= dv.push(
                    mk_walk_cmd(kind, sv[i as int].0, site@ + sv[i as int].0.skip(
                        root@.len() as int,
                    )),
                ));
                assert(out.deep_view() =~~= old_dv + walk_cmds(
                    sv.take(i + 1),
                    root@,
                    site@,
                    kind,
                ));
            }
        } else {
            proof {
                assert(out.deep_view() =~~= old_dv + walk_cmds(
                    sv.take(i + 1),
                    root@,
                    site@,
                    kind,
                ));
            }
        }
        i = i + 1;
    }
    proof {
        assert(sv.take(snapshot.len() as int) =~= sv);
    }
}

/// Turns one logical import-root entry into primitive commands.
pub trait PthEntryHandler {
    /// The commands this strategy plans for one `<repo>/<path>` entry.
    spec fn spec_plan(
        &self,
        venv: &Virtualenv,
        ctx: &PlanContext,
        repo: Seq<char>,
        segs: Seq<Seq<char>>,
    ) -> Result<Seq<CmdModel>, VenvError>;

    /// Plans one manifest entry.
    fn plan(
        &self,
        venv: &Virtualenv,
        ctx: &PlanContext,
        entry_repo: &str,
        entry_path: &Vec<String>,
    ) -> (r: Result<Vec<Command>, VenvError>)
        requires
            venv.wf(),
            ctx.wf(),
            seg_wf(entry_repo@),
            segs_wf(entry_path.deep_view()),
            venv.site_dir@.len() < usize::MAX,
        ensures
            match r {
                Ok(cmds) => self.spec_plan(venv, ctx, entry_repo@, entry_path.deep_view())
                    == Ok::<Seq<CmdModel>, VenvError>(cmds.deep_view()),
                Err(e) => self.spec_plan(venv, ctx, entry_repo@, entry_path.deep_view())
                    == Err::<Seq<CmdModel>, VenvError>(e),
            },
    ;
}

/// The relative offset a `.pth` entry gets: from the site directory up
/// to the runfiles root (one step above the action's output directory),
/// then down through `<repo>/<path>`.
pub open spec fn pth_entry_steps(
    venv: &Virtualenv,
    ctx: &PlanContext,
    repo: Seq<char>,
    segs: Seq<Seq<char>>,
) -> (nat, Seq<Seq<char>>) {
    let u0 = diff_up(ctx.action_bin_dir@, venv.site_dir@);
    let d0 = diff_down(ctx.action_bin_dir@, venv.site_dir@);
    let s1 = spec_then_up(u0, d0);
    (s1.0, s1.1 + seq![repo] + segs)
}

/// Emits exactly one `.pth` entry naming the import root through the
/// runfiles tree; it materializes nothing.
pub struct PthStrategy;

impl PthEntryHandler for PthStrategy {
    open spec fn spec_plan(
        &self,
        venv: &Virtualenv,
        ctx: &PlanContext,
        repo: Seq<char>,
        segs: Seq<Seq<char>>,
    ) -> Result<Seq<CmdModel>, VenvError> {
        let e = pth_entry_steps(venv, ctx, repo, segs);
        Ok(seq![CmdModel::PthEntry { up: e.0, down: e.1 }])
    }

    fn plan(
        &self,
        venv: &Virtualenv,
        ctx: &PlanContext,
        entry_repo: &str,
        entry_path: &Vec<String>,
    ) -> (r: Result<Vec<Command>, VenvError>) {
        let steps = ctx.action_bin_dir.diff_from(&venv.site_dir);
        proof {
            crate::paths::lemma_common_len(ctx.action_bin_dir@, venv.site_dir@);
        }
        let steps = steps.then_up();
        let mut tail: Vec<String> = Vec::new();
        tail.push(String::from_str(entry_repo));
        let mut k: usize = 0;
        while k < entry_path.len()
            invariant
                k <= entry_path.len(),
                tail.deep_view() =~= seq![entry_repo@] + entry_path.deep_view().take(k as int),
            decreases entry_path.len() - k,
        {
            let ghost dv = tail.deep_view();
            tail.push(entry_path[k].clone());
            proof {
                assert(tail.deep_view() =~~= dv.push(entry_path.deep_view()[k as int]));
                assert(tail.deep_view() =~~= seq![entry_repo@] + entry_path.deep_view().take(
                    k + 1,
                ));
            }
            k = k + 1;
        }
        proof {
            assert(entry_path.deep_view().take(entry_path.len() as int)
                =~= entry_path.deep_view());
        }
        let path = steps.extend(&tail);
        let mut cmds: Vec<Command> = Vec::new();
        cmds.push(Command::PthEntry { path });
        proof {
            let e = pth_entry_steps(venv, ctx, entry_repo@, entry_path.deep_view());
            assert(tail.deep_view() =~= seq![entry_repo@] + entry_path.deep_view());
            assert(cmds.deep_view() =~~= seq![CmdModel::PthEntry { up: e.0, down: e.1 }]);
        }
        Ok(cmds)
    }
}

/// A `.pth` entry, resolved against the site directory it sits in, names
/// exactly `<runfiles root>/<repo>/<path>`, the runfiles root being the
/// parent of the action's output directory.
pub proof fn lemma_pth_entry_resolves(
    venv: &Virtualenv,
    ctx: &PlanContext,
    repo: Seq<char>,
    segs: Seq<Seq<char>>,
)
    requires
        ctx.action_bin_dir@.len() > 0,
    ensures
        ({
            let e = pth_entry_steps(venv, ctx, repo, segs);
            spec_resolve(venv.site_dir@, e.0, e.1) == Some(
                ctx.action_bin_dir@.drop_last() + seq![repo] + segs,
            )
        }),
{
    let bin = ctx.action_bin_dir@;
    let site = venv.site_dir@;
    let u0 = diff_up(bin, site);
    let d0 = diff_down(bin, site);
    crate::paths::lemma_diff_resolves(bin, site);
    crate::paths::lemma_then_up_resolves(site, u0, d0);
    let s1 = spec_then_up(u0, d0);
    crate::paths::lemma_resolve_extend(site, s1.0, s1.1, seq![repo] + segs);
    assert(s1.1 + (seq![repo] + segs) =~= (s1.1 + seq![repo]) + segs);
    assert(bin.drop_last() + (seq![repo] + segs) =~= bin.drop_last() + seq![repo] + segs);
}

/// The two candidate roots a copying walk looks at: the entry under the
/// source tree and under the generated-output tree.
pub open spec fn copy_roots(
    ctx: &PlanContext,
    repo: Seq<char>,
    segs: Seq<Seq<char>>,
) -> (Seq<Seq<char>>, Seq<Seq<char>>) {
    (
        ctx.action_src_dir@ + seq![repo] + segs,
        ctx.action_bin_dir@ + seq![repo] + segs,
    )
}

/// Builds `<prefix>/<repo>/<path>` as an executable path.
fn entry_root(prefix: &AbsPath, entry_repo: &str, entry_path: &Vec<String>) -> (r: AbsPath)
    ensures
        r@ == prefix@ + seq![entry_repo@] + entry_path.deep_view(),
{
    let with_repo = prefix.child(entry_repo);
    let r = with_repo.join(entry_path);
    proof {
        assert(r@ =~= prefix@ + seq![entry_repo@] + entry_path.deep_view());
    }
    r
}

/// Copies every file below the entry into the site directory.  Heavy on
/// I/O when executed, but always available.
#[derive(Clone, Copy)]
pub struct CopyStrategy;

impl PthEntryHandler for CopyStrategy {
    open spec fn spec_plan(
        &self,
        venv: &Virtualenv,
        ctx: &PlanContext,
        repo: Seq<char>,
        segs: Seq<Seq<char>>,
    ) -> Result<Seq<CmdModel>, VenvError> {
        let roots = copy_roots(ctx, repo, segs);
        let snap = ctx.snapshot.deep_view();
        Ok(
            maybe_walk(snap, roots.0, venv.site_dir@, WalkKind::Copy) + maybe_walk(
                snap,
                roots.1,
                venv.site_dir@,
                WalkKind::Copy,
            ),
        )
    }

    fn plan(
        &self,
        venv: &Virtualenv,
        ctx: &PlanContext,
        entry_repo: &str,
        entry_path: &Vec<String>,
    ) -> (r: Result<Vec<Command>, VenvError>) {
        let mut out: Vec<Command> = Vec::new();
        let root1 = entry_root(&ctx.action_src_dir, entry_repo, entry_path);
        if snap_exists_exec(&ctx.snapshot, &root1) {
            walk_plan(&ctx.snapshot, &root1, &venv.site_dir, WalkKind::Copy, &mut out);
        }
        let root2 = entry_root(&ctx.action_bin_dir, entry_repo, entry_path);
        if snap_exists_exec(&ctx.snapshot, &root2) {
            walk_plan(&ctx.snapshot, &root2, &venv.site_dir, WalkKind::Copy, &mut out);
        }
        proof {
            let roots = copy_roots(ctx, entry_repo@, entry_path.deep_view());
            let snap = ctx.snapshot.deep_view();
            assert(out.deep_view() =~= maybe_walk(snap, roots.0, venv.site_dir@, WalkKind::Copy)
                + maybe_walk(snap, roots.1, venv.site_dir@, WalkKind::Copy));
        }
        Ok(out)
    }
}

fn has_subdir_exec(snapshot: &Vec<FsEntry>, root: &AbsPath) -> (r: bool)
    ensures
        r == has_subdir(snapshot.deep_view(), root@),
{
    let ghost sv = snapshot.deep_view();
    let mut i: usize = 0;
    while i < snapshot.len()
        invariant
            i <= snapshot.len(),
            sv == snapshot.deep_view(),
            sv.len() == snapshot.len(),
            forall|j: int|
                0 <= j < i ==> !((#[trigger] sv[j]).1 && is_under(sv[j].0, root@) && sv[j].0
                    != root@),
        decreases snapshot.len() - i,
    {
        proof {
            assert(sv[i as int] == snapshot@[i as int].deep_view());
        }
        let e = &snapshot[i];
        if e.is_dir && e.path.starts_with(root) && !e.path.eq_path(root) {
            return true;
        }
        i = i + 1;
    }
    false
}

/// Copies the files of a flat scripts directory, patching shebangs; a
/// nested subdirectory is an error.
pub struct CopyAndPatchStrategy;

impl PthEntryHandler for CopyAndPatchStrategy {
    open spec fn spec_plan(
        &self,
        venv: &Virtualenv,
        ctx: &PlanContext,
        repo: Seq<char>,
        segs: Seq<Seq<char>>,
    ) -> Result<Seq<CmdModel>, VenvError> {
        let roots = copy_roots(ctx, repo, segs);
        let snap = ctx.snapshot.deep_view();
        if (snap_exists(snap, roots.0) && has_subdir(snap, roots.0)) || (snap_exists(
            snap,
            roots.1,
        ) && has_subdir(snap, roots.1)) {
            Err(VenvError::BindirSubdirs)
        } else {
            Ok(
                maybe_walk(snap, roots.0, venv.site_dir@, WalkKind::Patch) + maybe_walk(
                    snap,
                    roots.1,
                    venv.site_dir@,
                    WalkKind::Patch,
                ),
            )
        }
    }

    fn plan(
        &self,
        venv: &Virtualenv,
        ctx: &PlanContext,
        entry_repo: &str,
        entry_path: &Vec<String>,
    ) -> (r: Result<Vec<Command>, VenvError>) {
        let mut out: Vec<Command> = Vec::new();
        let root1 = entry_root(&ctx.action_src_dir, entry_repo, entry_path);
        if snap_exists_exec(&ctx.snapshot, &root1) {
            if has_subdir_exec(&ctx.snapshot, &root1) {
                return Err(VenvError::BindirSubdirs);
            }
            walk_plan(&ctx.snapshot, &root1, &venv.site_dir, WalkKind::Patch, &mut out);
        }
        let root2 = entry_root(&ctx.action_bin_dir, entry_repo, entry_path);
        if snap_exists_exec(&ctx.snapshot, &root2) {
            if has_subdir_exec(&ctx.snapshot, &root2) {
                return Err(VenvError::BindirSubdirs);
            }
            walk_plan(&ctx.snapshot, &root2, &venv.site_dir, WalkKind::Patch, &mut out);
        }
        proof {
            let roots = copy_roots(ctx, entry_repo@, entry_path.deep_view());
            let snap = ctx.snapshot.deep_view();
            assert(out.deep_view() =~= maybe_walk(snap, roots.0, venv.site_dir@, WalkKind::Patch)
                + maybe_walk(snap, roots.1, venv.site_dir@, WalkKind::Patch));
        }
        Ok(out)
    }
}

/// The two candidate roots a symlink walk looks at: the entry is under
/// `external/<repo>` unless it belongs to the build's own workspace.
pub open spec fn symlink_roots(
    ctx: &PlanContext,
    repo: Seq<char>,
    segs: Seq<Seq<char>>,
) -> (Seq<Seq<char>>, Seq<Seq<char>>) {
    if repo == ctx.main_repo@ {
        (ctx.action_src_dir@ + segs, ctx.action_bin_dir@ + segs)
    } else {
        (
            ctx.action_src_dir@ + seq!["external"@, repo] + segs,
            ctx.action_bin_dir@ + seq!["external"@, repo] + segs,
        )
    }
}

/// Links every file below the entry into the site directory: the cheap
/// symlink-forest layout.
pub struct SymlinkStrategy;

impl PthEntryHandler for SymlinkStrategy {
    open spec fn spec_plan(
        &self,
        venv: &Virtualenv,
        ctx: &PlanContext,
        repo: Seq<char>,
        segs: Seq<Seq<char>>,
    ) -> Result<Seq<CmdModel>, VenvError> {
        let roots = symlink_roots(ctx, repo, segs);
        let snap = ctx.snapshot.deep_view();
        Ok(
            maybe_walk(snap, roots.0, venv.site_dir@, WalkKind::Link) + maybe_walk(
                snap,
                roots.1,
                venv.site_dir@,
                WalkKind::Link,
            ),
        )
    }

    fn plan(
        &self,
        venv: &Virtualenv,
        ctx: &PlanContext,
        entry_repo: &str,
        entry_path: &Vec<String>,
    ) -> (r: Result<Vec<Command>, VenvError>) {
        let is_main = str_eq(entry_repo, ctx.main_repo.as_str());
        let root1 = if is_main {
            let r = ctx.action_src_dir.join(entry_path);
            proof {
                assert(r@ =~= symlink_roots(ctx, entry_repo@, entry_path.deep_view()).0);
            }
            r
        } else {
            let r = ctx.action_src_dir.child("external").child(entry_repo).join(entry_path);
            proof {
                assert(r@ =~= symlink_roots(ctx, entry_repo@, entry_path.deep_view()).0);
            }
            r
        };
        let root2 = if is_main {
            let r = ctx.action_bin_dir.join(entry_path);
            proof {
                assert(r@ =~= symlink_roots(ctx, entry_repo@, entry_path.deep_view()).1);
            }
            r
        } else {
            let r = ctx.action_bin_dir.child("external").child(entry_repo).join(entry_path);
            proof {
                assert(r@ =~= symlink_roots(ctx, entry_repo@, entry_path.deep_view()).1);
            }
            r
        };
        let mut out: Vec<Command> = Vec::new();
        if snap_exists_exec(&ctx.snapshot, &root1) {
            walk_plan(&ctx.snapshot, &root1, &venv.site_dir, WalkKind::Link, &mut out);
        }
        if snap_exists_exec(&ctx.snapshot, &root2) {
            walk_plan(&ctx.snapshot, &root2, &venv.site_dir, WalkKind::Link, &mut out);
        }
        proof {
            let roots = symlink_roots(ctx, entry_repo@, entry_path.deep_view());
            let snap = ctx.snapshot.deep_view();
            assert(out.deep_view() =~= maybe_walk(snap, roots.0, venv.site_dir@, WalkKind::Link)
                + maybe_walk(snap, roots.1, venv.site_dir@, WalkKind::Link));
        }
        Ok(out)
    }
}

/// Dispatches to one of two strategies on whether the entry belongs to
/// the build's own workspace.
pub struct FirstpartyThirdpartyStrategy<A: PthEntryHandler, B: PthEntryHandler> {
    pub firstparty: A,
    pub thirdparty: B,
}

impl<A: PthEntryHandler, B: PthEntryHandler> PthEntryHandler for FirstpartyThirdpartyStrategy<
    A,
    B,
> {
    open spec fn spec_plan(
        &self,
        venv: &Virtualenv,
        ctx: &PlanContext,
        repo: Seq<char>,
        segs: Seq<Seq<char>>,
    ) -> Result<Seq<CmdModel>, VenvError> {
        if repo == ctx.main_repo@ {
            self.firstparty.spec_plan(venv, ctx, repo, segs)
        } else {
            self.thirdparty.spec_plan(venv, ctx, repo, segs)
        }
    }

    fn plan(
        &self,
        venv: &Virtualenv,
        ctx: &PlanContext,
        entry_repo: &str,
        entry_path: &Vec<String>,
    ) -> (r: Result<Vec<Command>, VenvError>) {
        if str_eq(entry_repo, ctx.main_repo.as_str()) {
            self.firstparty.plan(venv, ctx, entry_repo, entry_path)
        } else {
            self.thirdparty.plan(venv, ctx, entry_repo, entry_path)
        }
    }
}

/// True if the entry's last segment is one of the given suffixes.
pub open spec fn has_site_suffix(segs: Seq<Seq<char>>, suffixes: Seq<Seq<char>>) -> bool {
    segs.len() > 0 && exists|k: int| 0 <= k < suffixes.len() && #[trigger] suffixes[k]
        == segs.last()
}

/// Dispatches on whether the entry names a packaged site directory (its
/// last segment is one of `site_suffixes`) or plain source.
pub struct SrcSiteStrategy<A: PthEntryHandler, B: PthEntryHandler> {
    pub src_strategy: A,
    pub site_suffixes: Vec<String>,
    pub site_strategy: B,
}

impl<A: PthEntryHandler, B: PthEntryHandler> PthEntryHandler for SrcSiteStrategy<A, B> {
    open spec fn spec_plan(
        &self,
        venv: &Virtualenv,
        ctx: &PlanContext,
        repo: Seq<char>,
        segs: Seq<Seq<char>>,
    ) -> Result<Seq<CmdModel>, VenvError> {
        if has_site_suffix(segs, self.site_suffixes.deep_view()) {
            self.site_strategy.spec_plan(venv, ctx, repo, segs)
        } else {
            self.src_strategy.spec_plan(venv, ctx, repo, segs)
        }
    }

    fn plan(
        &self,
        venv: &Virtualenv,
        ctx: &PlanContext,
        entry_repo: &str,
        entry_path: &Vec<String>,
    ) -> (r: Result<Vec<Command>, VenvError>) {
        let ghost sfx = self.site_suffixes.deep_view();
        let mut found = false;
        if entry_path.len() > 0 {
            let last = &entry_path[entry_path.len() - 1];
            proof {
                assert(last@ == entry_path.deep_view().last());
            }
            let mut k: usize = 0;
            while k < self.site_suffixes.len()
                invariant
                    k <= self.site_suffixes.len(),
                    sfx == self.site_suffixes.deep_view(),
                    sfx.len() == self.site_suffixes.len(),
                    last@ == entry_path.deep_view().last(),
                    entry_path.deep_view().len() > 0,
                    !found ==> forall|j: int|
                        0 <= j < k ==> #[trigger] sfx[j] != entry_path.deep_view().last(),
                    found ==> has_site_suffix(entry_path.deep_view(), sfx),
                decreases self.site_suffixes.len() - k,
            {
                proof {
                    assert(sfx[k as int] == self.site_suffixes@[k as int]@);
                }
                if !found && str_eq(self.site_suffixes[k].as_str(), last.as_str()) {
                    found = true;
                }
                k = k + 1;
            }
        }
        proof {
            assert(found == has_site_suffix(entry_path.deep_view(), sfx));
        }
        if found {
            self.site_strategy.plan(venv, ctx, entry_repo, entry_path)
        } else {
            self.src_strategy.plan(venv, ctx, entry_repo, entry_path)
        }
    }
}

/// The sibling `bin` entry of an import root.
pub open spec fn bin_sibling(segs: Seq<Seq<char>>) -> Seq<Seq<char>> {
    if segs.len() > 0 {
        segs.drop_last().push("bin"@)
    } else {
        segs.push("bin"@)
    }
}

/// Always runs a root strategy, and additionally a second one against a
/// sibling `bin` directory of the entry when one exists.
pub struct StrategyWithBindir<A: PthEntryHandler, B: PthEntryHandler> {
    pub root_strategy: A,
    pub bin_strategy: B,
}

impl<A: PthEntryHandler, B: PthEntryHandler> PthEntryHandler for StrategyWithBindir<A, B> {
    open spec fn spec_plan(
        &self,
        venv: &Virtualenv,
        ctx: &PlanContext,
        repo: Seq<char>,
        segs: Seq<Seq<char>>,
    ) -> Result<Seq<CmdModel>, VenvError> {
        let bin = bin_sibling(segs);
        let snap = ctx.snapshot.deep_view();
        let found = snap_exists(snap, ctx.action_src_dir@ + seq![repo] + bin) || snap_exists(
            snap,
            ctx.action_bin_dir@ + seq![repo] + bin,
        );
        match self.root_strategy.spec_plan(venv, ctx, repo, segs) {
            Err(e) => Err(e),
            Ok(c1) => {
                if found {
                    match self.bin_strategy.spec_plan(venv, ctx, repo, bin) {
                        Err(e) => Err(e),
                        Ok(c2) => Ok(c1 + c2),
                    }
                } else {
                    Ok(c1)
                }
            },
        }
    }

    fn plan(
        &self,
        venv: &Virtualenv,
        ctx: &PlanContext,
        entry_repo: &str,
        entry_path: &Vec<String>,
    ) -> (r: Result<Vec<Command>, VenvError>) {
        let mut c1 = match self.root_strategy.plan(venv, ctx, entry_repo, entry_path) {
            Ok(c) => c,
            Err(e) => {
                return Err(e);
            },
        };
        let mut entry_bin = entry_path.clone();
        if entry_bin.len() > 0 {
            let _ = entry_bin.pop();
            proof {
                assert(entry_bin.deep_view() =~~= entry_path.deep_view().drop_last());
            }
        }
        entry_bin.push(String::from_str("bin"));
        proof {
            reveal_strlit("bin");
            assert(entry_bin.deep_view() =~~= bin_sibling(entry_path.deep_view()));
            assert("bin"@ =~= seq!['b', 'i', 'n']);
            assert(seg_wf("bin"@));
            assert(segs_wf(entry_bin.deep_view()));
        }
        let cand1 = entry_root(&ctx.action_src_dir, entry_repo, &entry_bin);
        let cand2 = entry_root(&ctx.action_bin_dir, entry_repo, &entry_bin);
        let found = snap_exists_exec(&ctx.snapshot, &cand1) || snap_exists_exec(
            &ctx.snapshot,
            &cand2,
        );
        if found {
            match self.bin_strategy.plan(venv, ctx, entry_repo, &entry_bin) {
                Ok(mut c2) => {
                    let ghost v1 = c1.deep_view();
                    let ghost v2 = c2.deep_view();
                    c1.append(&mut c2);
                    proof {
                        assert(c1.deep_view() =~~= v1 + v2);
                    }
                    Ok(c1)
                },
                Err(e) => Err(e),
            }
        } else {
            Ok(c1)
        }
    }
}

/// The byte spelling of an ASCII string.
pub open spec fn ascii_bytes(s: Seq<char>) -> Seq<u8> {
    Seq::new(s.len(), |i: int| s[i] as u8)
}

/// The shebang prefixes that mark an entry point whose interpreter line
/// must be rewritten: the placeholder the wheel installer leaves behind,
/// the conventional `env` form, and common hardcoded interpreters.
pub open spec fn shebang_prefixes() -> Seq<Seq<char>> {
    seq![
        "#!/dev/null"@,
        "#!/usr/bin/env python"@,
        "#!python"@,
        "#!/bin/python"@,
        "#!/usr/bin/python"@,
        "#!/usr/local/bin/python"@,
    ]
}

/// The shebang written in place of a recognized one: a shell trampoline
/// that re-derives its own directory at run time and hands off to the
/// `python3` beside it, so the script keeps working after the tree is
/// relocated.
pub open spec fn relocatable_shebang() -> Seq<char> {
    "#!/bin/sh\n'''exec' \"$(dirname -- \"$(realpath -- \"$0\")\")\"/'python3' \"$0\" \"$@\"\n' '''\n"@
}

/// True if `content` starts with the byte spelling of `p`.
pub open spec fn starts_with_bytes(content: Seq<u8>, p: Seq<char>) -> bool {
    p.len() <= content.len() && content.take(p.len() as int) == ascii_bytes(p)
}

/// True if the content is long enough to probe and starts with one of
/// the recognized shebangs.  A file shorter than the 64-byte probe is
/// never treated as having one.
pub open spec fn has_patchable_shebang(content: Seq<u8>) -> bool {
    content.len() >= 64 && exists|k: int|
        0 <= k < shebang_prefixes().len() && starts_with_bytes(
            content,
            #[trigger] shebang_prefixes()[k],
        )
}

/// Index of the first occurrence of `b`, or `s.len()` if absent.
pub open spec fn first_byte_at(s: Seq<u8>, b: u8) -> nat
    decreases s.len(),
{
    if s.len() == 0 {
        0
    } else if s[0] == b {
        0
    } else {
        1 + first_byte_at(s.drop_first(), b)
    }
}

proof fn lemma_first_byte_at(s: Seq<u8>, b: u8)
    ensures
        first_byte_at(s, b) <= s.len(),
        forall|i: int| 0 <= i < first_byte_at(s, b) ==> s[i] != b,
        first_byte_at(s, b) < s.len() ==> s[first_byte_at(s, b) as int] == b,
    decreases s.len(),
{
    if s.len() > 0 && s[0] != b {
        lemma_first_byte_at(s.drop_first(), b);
        assert(forall|i: int|
            1 <= i < first_byte_at(s, b) ==> s[i] == s.drop_first()[i - 1]);
    }
}

/// Where the copy of a patched entry point starts: after the original
/// shebang line if a newline sits inside the 64-byte probe, else from
/// the top.
pub open spec fn shebang_cut(content: Seq<u8>) -> nat {
    if has_patchable_shebang(content) {
        if first_byte_at(content.take(64), 0x0a) < 64 {
            first_byte_at(content.take(64), 0x0a)
        } else {
            0
        }
    } else {
        0
    }
}

/// What a patched entry point holds: the relocatable shebang followed by
/// everything from the original's first newline on when a recognized
/// shebang is present, the bytes unchanged otherwise.
pub open spec fn spec_patch(content: Seq<u8>) -> Seq<u8> {
    if has_patchable_shebang(content) {
        ascii_bytes(relocatable_shebang()) + content.skip(shebang_cut(content) as int)
    } else {
        content
    }
}

fn bytes_start_with(content: &Vec<u8>, p: &str) -> (r: bool)
    requires
        vstd::string::is_ascii(p),
    ensures
        r == starts_with_bytes(content@, p@),
{
    let pb = p.as_bytes();
    proof {
        vstd::string::is_ascii_spec_bytes(p);
        assert(pb@ =~= ascii_bytes(p@));
    }
    if pb.len() > content.len() {
        return false;
    }
    let mut i: usize = 0;
    while i < pb.len()
        invariant
            i <= pb@.len(),
            pb@ == ascii_bytes(p@),
            pb@.len() == p@.len() <= content@.len(),
            forall|j: int| 0 <= j < i ==> content@[j] == pb@[j],
        decreases pb@.len() - i,
    {
        if content[i] != pb[i] {
            assert(content@[i as int] != ascii_bytes(p@)[i as int]);
            assert(content@.take(p@.len() as int)[i as int] != ascii_bytes(p@)[i as int]);
            return false;
        }
        i = i + 1;
    }
    proof {
        assert(content@.take(p@.len() as int) =~= ascii_bytes(p@));
    }
    true
}

/// Rewrites a script's interpreter line for relocation: when the content
/// carries a recognized shebang, the relocatable shebang replaces its
/// first line; otherwise the bytes pass through unchanged.  The flag
/// says whether a shebang was found, which is when the caller forces the
/// executable permission bits.
pub fn patch_entrypoint(content: &Vec<u8>) -> (r: (Vec<u8>, bool))
    ensures
        r.0@ == spec_patch(content@),
        r.1 == has_patchable_shebang(content@),
{
    proof {
        reveal_strlit("#!/dev/null");
        reveal_strlit("#!/usr/bin/env python");
        reveal_strlit("#!python");
        reveal_strlit("#!/bin/python");
        reveal_strlit("#!/usr/bin/python");
        reveal_strlit("#!/usr/local/bin/python");
    }
    let found = content.len() >= 64 && (bytes_start_with(content, "#!/dev/null")
        || bytes_start_with(content, "#!/usr/bin/env python") || bytes_start_with(
        content,
        "#!python",
    ) || bytes_start_with(content, "#!/bin/python") || bytes_start_with(
        content,
        "#!/usr/bin/python",
    ) || bytes_start_with(content, "#!/usr/local/bin/python"));
    proof {
        if found {
            assert(has_patchable_shebang(content@));
        } else {
            assert(!has_patchable_shebang(content@)) by {
                if has_patchable_shebang(content@) {
                    let k = choose|k: int|
                        0 <= k < shebang_prefixes().len() && starts_with_bytes(
                            content@,
                            #[trigger] shebang_prefixes()[k],
                        );
                    assert(0 <= k < 6);
                }
            }
        }
    }
    if !found {
        return (content.clone(), false);
    }
    let mut nl: usize = 0;
    let mut j: usize = 0;
    let mut seen = false;
    while j < 64
        invariant
            j <= 64,
            content@.len() >= 64,
            !seen ==> nl == 0 && forall|i: int| 0 <= i < j ==> content@[i] != 0x0a,
            seen ==> nl < j && content@[nl as int] == 0x0a && forall|i: int|
                0 <= i < nl ==> content@[i] != 0x0a,
        decreases 64 - j,
    {
        if !seen && content[j] == 0x0a {
            nl = j;
            seen = true;
        }
        j = j + 1;
    }
    proof {
        lemma_first_byte_at(content@.take(64), 0x0a);
        assert(forall|i: int| 0 <= i < 64 ==> content@.take(64)[i] == content@[i]);
        if seen {
            assert(first_byte_at(content@.take(64), 0x0a) == nl) by {
                if first_byte_at(content@.take(64), 0x0a) < nl {
                    assert(content@[first_byte_at(content@.take(64), 0x0a) as int]
                        == 0x0a);
                }
                if first_byte_at(content@.take(64), 0x0a) > nl {
                    assert(content@.take(64)[nl as int] != 0x0a);
                }
            }
        } else {
            assert(first_byte_at(content@.take(64), 0x0a) == 64) by {
                if first_byte_at(content@.take(64), 0x0a) < 64 {
                    assert(content@[first_byte_at(content@.take(64), 0x0a) as int]
                        == 0x0a);
                }
            }
        }
        assert(nl == shebang_cut(content@));
    }
    proof {
        reveal_strlit(
            "#!/bin/sh\n'''exec' \"$(dirname -- \"$(realpath -- \"$0\")\")\"/'python3' \"$0\" \"$@\"\n' '''\n",
        );
    }
    let header =
        "#!/bin/sh\n'''exec' \"$(dirname -- \"$(realpath -- \"$0\")\")\"/'python3' \"$0\" \"$@\"\n' '''\n";
    proof {
        assert(vstd::string::is_ascii(header)) by {
            assert(forall|i: int|
                0 <= i < header@.len() ==> '\0' <= #[trigger] header@[i] <= '\u{7f}');
        }
        vstd::string::is_ascii_spec_bytes(header);
    }
    let mut out = header.as_bytes_vec();
    proof {
        assert(out@ =~= ascii_bytes(relocatable_shebang()));
    }
    let ghost prefix = out@;
    let mut k: usize = nl;
    proof {
        assert(out@ =~= prefix + content@.subrange(nl as int, nl as int));
    }
    while k < content.len()
        invariant
            nl <= k <= content@.len(),
            prefix == ascii_bytes(relocatable_shebang()),
            out@ == prefix + content@.subrange(nl as int, k as int),
        decreases content@.len() - k,
    {
        let ghost odv = out@;
        out.push(content[k]);
        proof {
            assert(out@ =~= odv.push(content@[k as int]));
            assert(out@ =~= prefix + content@.subrange(nl as int, k + 1));
        }
        k = k + 1;
    }
    proof {
        assert(content@.subrange(nl as int, content@.len() as int) =~= content@.skip(
            nl as int,
        ));
    }
    (out, true)
}

/// The build-time decisions of creating an empty venv: a missing
/// interpreter with no shim to stand in for it is a configuration error
/// caught up front; otherwise the venv gets its layout, and the config
/// records the runfiles-interpreter keys exactly when the interpreter
/// does not yet exist on disk and a shim will stand at `bin/python`.
pub fn create_empty_venv_layout(
    python_exists: bool,
    has_shim: bool,
    build_dir: &AbsPath,
    location: &Vec<String>,
    version: PythonVersionInfo,
) -> (r: Result<(Virtualenv, bool), VenvError>)
    ensures
        !python_exists && !has_shim ==> r == Err::<(Virtualenv, bool), VenvError>(
            VenvError::MissingInterpreter,
        ),
        (python_exists || has_shim) ==> (r matches Ok(p) && p.0.home_dir@ == build_dir@
            + location.deep_view() && p.0.bin_dir@ == p.0.home_dir@.push("bin"@)
            && p.0.site_dir@ == p.0.home_dir@ + seq![
            "lib"@,
            spec_python_dir_seg(version.major as nat, version.minor as nat),
            "site-packages"@,
        ] && p.0.python_bin@ == p.0.bin_dir@.push("python"@) && p.0.version_info == version
            && p.1 == (!python_exists && has_shim)),
{
    if !python_exists && !has_shim {
        return Err(VenvError::MissingInterpreter);
    }
    let venv = venv_layout(build_dir, location, version);
    Ok((venv, !python_exists && has_shim))
}

/// The `unset` statements an activate script carries: one per
/// environment variable named in the caller's env file (a line names a
/// variable when it carries `=`; the name is what stands before it,
/// trimmed).
pub open spec fn spec_unset_names(lines: Seq<Seq<char>>) -> Seq<Seq<char>>
    decreases lines.len(),
{
    if lines.len() == 0 {
        Seq::empty()
    } else {
        spec_unset_names(lines.drop_last()) + (if first_at(lines.last(), '=')
            < lines.last().len() {
            seq![
                "    unset "@ + spec_trim(
                    lines.last().take(first_at(lines.last(), '=') as int),
                ),
            ]
        } else {
            Seq::empty()
        })
    }
}

/// The `unset` block of an activate script for a caller-supplied env
/// file: one indented `unset` statement per exported variable, joined
/// with newlines.
pub fn envvar_unset_lines(envvars: &str) -> (r: String)
    ensures
        r@ == crate::strutil::spec_join_char(spec_unset_names(spec_lines(envvars@)), '\n'),
{
    let lines = split_lines(envvars);
    let ghost lv = lines.deep_view();
    let mut names: Vec<String> = Vec::new();
    let mut i: usize = 0;
    proof {
        assert(lv.take(0) =~= Seq::<Seq<char>>::empty());
        assert(names.deep_view() =~~= spec_unset_names(lv.take(0)));
    }
    while i < lines.len()
        invariant
            i <= lines.len(),
            lv == lines.deep_view(),
            lv.len() == lines.len(),
            names.deep_view() == spec_unset_names(lv.take(i as int)),
        decreases lines.len() - i,
    {
        proof {
            assert(lv.take(i + 1).drop_last() =~= lv.take(i as int));
            assert(lv.take(i + 1).last() == lv[i as int]);
            assert(lv[i as int] == lines@[i as int]@);
        }
        let line = &lines[i];
        match split_once_char(line.as_str(), '=') {
            Some(p) => {
                let mut stmt = String::from_str("    unset ");
                stmt.append(trim(p.0.as_str()).as_str());
                let ghost dv = names.deep_view();
                names.push(stmt);
                proof {
                    crate::strutil::lemma_first_at(lv[i as int], '=');
                    assert(names.deep_view() =~~= dv.push(
                        "    unset "@ + spec_trim(
                            lv[i as int].take(first_at(lv[i as int], '=') as int),
                        ),
                    ));
                    assert(names.deep_view() =~~= spec_unset_names(lv.take(i + 1)));
                }
            },
            None => {
                proof {
                    crate::strutil::lemma_first_at(lv[i as int], '=');
                    assert(names.deep_view() =~~= spec_unset_names(lv.take(i + 1)));
                }
            },
        }
        i = i + 1;
    }
    proof {
        assert(lv.take(lines.len() as int) =~= lv);
    }
    proof {
        reveal_strlit("\n");
        assert("\n"@ =~= seq!['\n']);
    }
    let r = crate::strutil::join_char(&names, "\n");
    proof {
        assert("\n"@[0] == '\n');
    }
    r
}

/// The grouping key of a command: the destination it writes, or the
/// `.pth` entry it appends.
#[verifier::ext_equal]
pub ghost enum KeyModel {
    Abs(Seq<Seq<char>>),
    Rel(nat, Seq<Seq<char>>),
}

pub open spec fn key_of(c: CmdModel) -> KeyModel {
    match c {
        CmdModel::Copy { dest, .. } => KeyModel::Abs(dest),
        CmdModel::CopyAndPatch { dest, .. } => KeyModel::Abs(dest),
        CmdModel::Symlink { dest, .. } => KeyModel::Abs(dest),
        CmdModel::PthEntry { up, down } => KeyModel::Rel(up, down),
    }
}

/// True if the command would read out of the venv itself.
pub open spec fn is_self_referential(c: CmdModel, home: Seq<Seq<char>>) -> bool {
    match c {
        CmdModel::Copy { src, .. } => is_under(src, home),
        CmdModel::CopyAndPatch { src, .. } => is_under(src, home),
        CmdModel::Symlink { src, .. } => is_under(src, home),
        CmdModel::PthEntry { .. } => false,
    }
}

/// The plan with every self-referential command dropped.
pub open spec fn keep_cmds(cmds: Seq<CmdModel>, home: Seq<Seq<char>>) -> Seq<CmdModel> {
    cmds.filter(|c: CmdModel| !is_self_referential(c, home))
}

/// True if the segment sequence ends in `a` then `b`.
pub open spec fn ends2(s: Seq<Seq<char>>, a: Seq<char>, b: Seq<char>) -> bool {
    s.len() >= 2 && s[s.len() - 2] == a && s[s.len() - 1] == b
}

/// The destinations never materialized: build-tool-injected package
/// markers directly under a site or dist packages root.
pub open spec fn exempt_key(k: KeyModel) -> bool {
    match k {
        KeyModel::Abs(d) => ends2(d, "site-packages"@, "__init__.py"@) || ends2(
            d,
            "dist-packages"@,
            "__init__.py"@,
        ),
        KeyModel::Rel(_, down) => ends2(down, "site-packages"@, "__init__.py"@) || ends2(
            down,
            "dist-packages"@,
            "__init__.py"@,
        ),
    }
}

/// The distinct keys of a plan, in first-occurrence order.
pub open spec fn uniq_keys(cmds: Seq<CmdModel>) -> Seq<KeyModel>
    decreases cmds.len(),
{
    if cmds.len() == 0 {
        Seq::empty()
    } else {
        let ks = uniq_keys(cmds.drop_last());
        if ks.contains(key_of(cmds.last())) {
            ks
        } else {
            ks.push(key_of(cmds.last()))
        }
    }
}

/// How many commands of the plan share the key.
pub open spec fn count_key(cmds: Seq<CmdModel>, k: KeyModel) -> nat
    decreases cmds.len(),
{
    if cmds.len() == 0 {
        0
    } else {
        count_key(cmds.drop_last(), k) + (if key_of(cmds.last()) == k {
            1nat
        } else {
            0nat
        })
    }
}

/// The last command of the plan with the key: the one that wins.
pub open spec fn last_with_key(cmds: Seq<CmdModel>, k: KeyModel) -> CmdModel
    decreases cmds.len(),
{
    if cmds.len() == 0 {
        vstd::pervasive::arbitrary()
    } else if key_of(cmds.last()) == k {
        cmds.last()
    } else {
        last_with_key(cmds.drop_last(), k)
    }
}

/// All commands of the plan with the key, in order.
pub open spec fn group_of(cmds: Seq<CmdModel>, k: KeyModel) -> Seq<CmdModel> {
    cmds.filter(|c: CmdModel| key_of(c) == k)
}

/// The deduplicated plan: for each non-exempt key in first-occurrence
/// order, the last command with that key.
pub open spec fn picks(cmds: Seq<CmdModel>, keys: Seq<KeyModel>) -> Seq<CmdModel>
    decreases keys.len(),
{
    if keys.len() == 0 {
        Seq::empty()
    } else {
        picks(cmds, keys.drop_last()) + (if exempt_key(keys.last()) {
            Seq::empty()
        } else {
            seq![last_with_key(cmds, keys.last())]
        })
    }
}

/// The collisions: every non-exempt key that more than one command
/// targets, with all of its commands for reporting.
pub open spec fn colls(cmds: Seq<CmdModel>, keys: Seq<KeyModel>) -> Seq<
    (KeyModel, Seq<CmdModel>),
>
    decreases keys.len(),
{
    if keys.len() == 0 {
        Seq::empty()
    } else {
        colls(cmds, keys.drop_last()) + (if !exempt_key(keys.last()) && count_key(
            cmds,
            keys.last(),
        ) >= 2 {
            seq![(keys.last(), group_of(cmds, keys.last()))]
        } else {
            Seq::empty()
        })
    }
}

/// What resolution makes of a raw plan: the deduplicated commands and
/// the collision reports.
pub open spec fn spec_resolution(plan: Seq<CmdModel>, home: Seq<Seq<char>>) -> (
    Seq<CmdModel>,
    Seq<(KeyModel, Seq<CmdModel>)>,
) {
    let kept = keep_cmds(plan, home);
    let ks = uniq_keys(kept);
    (picks(kept, ks), colls(kept, ks))
}

/// Resolution under a policy: the aborting policy refuses a plan with
/// any collision; last-wins hands the same outcome back either way.
pub open spec fn spec_resolve_population(
    plan: Seq<CmdModel>,
    home: Seq<Seq<char>>,
    policy: SymlinkCollisionResolutionStrategy,
) -> Result<(Seq<CmdModel>, Seq<(KeyModel, Seq<CmdModel>)>), VenvError> {
    let r = spec_resolution(plan, home);
    if policy is Error && r.1.len() > 0 {
        Err(VenvError::Collisions)
    } else {
        Ok(r)
    }
}

/// The executable form of a grouping key.
#[derive(Debug)]
pub enum DestKey {
    Abs(AbsPath),
    Rel(RelSteps),
}

impl View for DestKey {
    type V = KeyModel;

    open spec fn view(&self) -> KeyModel {
        match self {
            DestKey::Abs(p) => KeyModel::Abs(p@),
            DestKey::Rel(s) => KeyModel::Rel(s@.0, s@.1),
        }
    }
}

impl DeepView for DestKey {
    type V = KeyModel;

    open spec fn deep_view(&self) -> KeyModel {
        self.view()
    }
}

impl Clone for DestKey {
    fn clone(&self) -> (r: Self)
        ensures
            r@ == self@,
    {
        match self {
            DestKey::Abs(p) => DestKey::Abs(p.clone()),
            DestKey::Rel(s) => DestKey::Rel(s.clone()),
        }
    }
}

impl DestKey {
    fn key_eq(&self, other: &DestKey) -> (r: bool)
        ensures
            r == (self@ == other@),
    {
        match (self, other) {
            (DestKey::Abs(a), DestKey::Abs(b)) => a.eq_path(b),
            (DestKey::Rel(a), DestKey::Rel(b)) => a.eq_steps(b),
            _ => false,
        }
    }
}

/// One reported collision: the contended destination and every command
/// that targeted it, in plan order.
#[derive(Debug)]
pub struct Collision {
    pub dest: DestKey,
    pub sources: Vec<Command>,
}

impl View for Collision {
    type V = (KeyModel, Seq<CmdModel>);

    open spec fn view(&self) -> (KeyModel, Seq<CmdModel>) {
        (self.dest@, self.sources.deep_view())
    }
}

impl DeepView for Collision {
    type V = (KeyModel, Seq<CmdModel>);

    open spec fn deep_view(&self) -> (KeyModel, Seq<CmdModel>) {
        self.view()
    }
}

/// A resolved population plan: the commands to execute, one per
/// destination, and the collisions found on the way.
#[derive(Debug)]
pub struct Resolution {
    pub commands: Vec<Command>,
    pub collisions: Vec<Collision>,
}

fn cmd_key(c: &Command) -> (k: DestKey)
    ensures
        k@ == key_of(c@),
{
    match c {
        Command::Copy { dest, .. } => DestKey::Abs(dest.clone()),
        Command::CopyAndPatch { dest, .. } => DestKey::Abs(dest.clone()),
        Command::Symlink { dest, .. } => DestKey::Abs(dest.clone()),
        Command::PthEntry { path } => DestKey::Rel(path.clone()),
    }
}

fn is_self_ref_exec(c: &Command, home: &AbsPath) -> (r: bool)
    ensures
        r == is_self_referential(c@, home@),
{
    match c {
        Command::Copy { src, .. } => src.starts_with(home),
        Command::CopyAndPatch { src, .. } => src.starts_with(home),
        Command::Symlink { src, .. } => src.starts_with(home),
        Command::PthEntry { .. } => false,
    }
}

fn contains_key(keys: &Vec<DestKey>, k: &DestKey) -> (r: bool)
    ensures
        r == keys.deep_view().contains(k@),
{
    let ghost kv = keys.deep_view();
    let mut i: usize = 0;
    while i < keys.len()
        invariant
            i <= keys.len(),
            kv == keys.deep_view(),
            kv.len() == keys.len(),
            forall|j: int| 0 <= j < i ==> kv[j] != k@,
        decreases keys.len() - i,
    {
        proof {
            assert(kv[i as int] == keys@[i as int].deep_view());
        }
        if keys[i].key_eq(k) {
            return true;
        }
        i = i + 1;
    }
    false
}

fn exempt_exec(k: &DestKey) -> (r: bool)
    ensures
        r == exempt_key(k@),
{
    let segs: &Vec<String> = match k {
        DestKey::Abs(p) => &p.segs,
        DestKey::Rel(s) => &s.down,
    };
    let n = segs.len();
    if n < 2 {
        return false;
    }
    proof {
        assert(segs.deep_view()[n - 2] == segs@[n - 2]@);
        assert(segs.deep_view()[n - 1] == segs@[n - 1]@);
    }
    let last_init = str_eq(segs[n - 1].as_str(), "__init__.py");
    if !last_init {
        return false;
    }
    str_eq(segs[n - 2].as_str(), "site-packages") || str_eq(
        segs[n - 2].as_str(),
        "dist-packages",
    )
}

fn count_key_exec(cmds: &Vec<Command>, k: &DestKey) -> (r: usize)
    ensures
        r == count_key(cmds.deep_view(), k@),
{
    let ghost cv = cmds.deep_view();
    let mut r: usize = 0;
    let mut i: usize = 0;
    proof {
        assert(cv.take(0) =~= Seq::<CmdModel>::empty());
    }
    while i < cmds.len()
        invariant
            i <= cmds.len(),
            cv == cmds.deep_view(),
            cv.len() == cmds.len(),
            r <= i,
            r == count_key(cv.take(i as int), k@),
        decreases cmds.len() - i,
    {
        proof {
            assert(cv.take(i + 1).drop_last() =~= cv.take(i as int));
            assert(cv.take(i + 1).last() == cv[i as int]);
            assert(cv[i as int] == cmds@[i as int].deep_view());
        }
        let ck = cmd_key(&cmds[i]);
        if ck.key_eq(k) {
            r = r + 1;
        }
        i = i + 1;
    }
    proof {
        assert(cv.take(cmds.len() as int) =~= cv);
    }
    r
}

fn last_with_key_exec(cmds: &Vec<Command>, k: &DestKey) -> (r: Option<Command>)
    ensures
        count_key(cmds.deep_view(), k@) > 0 ==> (r matches Some(c) && c@ == last_with_key(
            cmds.deep_view(),
            k@,
        )),
        count_key(cmds.deep_view(), k@) == 0 ==> r is None,
{
    let ghost cv = cmds.deep_view();
    let mut i: usize = cmds.len();
    proof {
        assert(cv.take(i as int) =~= cv);
    }
    while i > 0
        invariant
            i <= cmds.len(),
            cv == cmds.deep_view(),
            cv.len() == cmds.len(),
            count_key(cv, k@) == count_key(cv.take(i as int), k@),
            count_key(cv, k@) > 0 ==> last_with_key(cv, k@) == last_with_key(
                cv.take(i as int),
                k@,
            ),
        decreases i,
    {
        i = i - 1;
        proof {
            assert(cv.take(i + 1).drop_last() =~= cv.take(i as int));
            assert(cv.take(i + 1).last() == cv[i as int]);
            assert(cv[i as int] == cmds@[i as int].deep_view());
        }
        let ck = cmd_key(&cmds[i]);
        if ck.key_eq(k) {
            return Some(cmds[i].clone());
        }
    }
    proof {
        assert(cv.take(0) =~= Seq::<CmdModel>::empty());
    }
    None
}

fn group_exec(cmds: &Vec<Command>, k: &DestKey) -> (r: Vec<Command>)
    ensures
        r.deep_view() == group_of(cmds.deep_view(), k@),
{
    let ghost cv = cmds.deep_view();
    let mut r: Vec<Command> = Vec::new();
    let mut i: usize = 0;
    proof {
        reveal(Seq::filter);
        assert(cv.take(0) =~= Seq::<CmdModel>::empty());
        assert(r.deep_view() =~= group_of(cv.take(0), k@));
    }
    while i < cmds.len()
        invariant
            i <= cmds.len(),
            cv == cmds.deep_view(),
            cv.len() == cmds.len(),
            r.deep_view() == group_of(cv.take(i as int), k@),
        decreases cmds.len() - i,
    {
        proof {
            reveal(Seq::filter);
            assert(cv.take(i + 1).drop_last() =~= cv.take(i as int));
            assert(cv.take(i + 1).last() == cv[i as int]);
            assert(cv[i as int] == cmds@[i as int].deep_view());
        }
        let ck = cmd_key(&cmds[i]);
        if ck.key_eq(k) {
            let ghost dv = r.deep_view();
            r.push(cmds[i].clone());
            proof {
                reveal(Seq::filter);
                assert(r.deep_view() =~~= dv.push(cv[i as int]));
            }
        }
        i = i + 1;
    }
    proof {
        assert(cv.take(cmds.len() as int) =~= cv);
    }
    r
}

/// A key that occurs in a plan occurs at least once by count.
proof fn lemma_uniq_keys_counted(cmds: Seq<CmdModel>, k: KeyModel)
    requires
        uniq_keys(cmds).contains(k),
    ensures
        count_key(cmds, k) >= 1,
    decreases cmds.len(),
{
    if cmds.len() > 0 {
        if key_of(cmds.last()) == k {
        } else {
            assert(uniq_keys(cmds.drop_last()).contains(k));
            lemma_uniq_keys_counted(cmds.drop_last(), k);
        }
    }
}

/// Resolves a raw plan: drops commands whose source lies inside the venv
/// itself, drops injected package-marker destinations, groups the rest
/// by destination with the last source in plan order winning, reports
/// every contended destination, and refuses the whole plan under the
/// aborting policy when any collision exists.
pub fn resolve_commands(
    plan: &Vec<Command>,
    home_dir: &AbsPath,
    policy: &SymlinkCollisionResolutionStrategy,
) -> (r: Result<Resolution, VenvError>)
    ensures
        match r {
            Ok(res) => spec_resolve_population(plan.deep_view(), home_dir@, *policy) == Ok::<
                (Seq<CmdModel>, Seq<(KeyModel, Seq<CmdModel>)>),
                VenvError,
            >((res.commands.deep_view(), res.collisions.deep_view())),
            Err(e) => spec_resolve_population(plan.deep_view(), home_dir@, *policy) == Err::<
                (Seq<CmdModel>, Seq<(KeyModel, Seq<CmdModel>)>),
                VenvError,
            >(e),
        },
{
    let ghost pv = plan.deep_view();
    let ghost keep_pred = |c: CmdModel| !is_self_referential(c, home_dir@);
    let mut kept: Vec<Command> = Vec::new();
    let mut i: usize = 0;
    proof {
        reveal(Seq::filter);
        assert(pv.take(0) =~= Seq::<CmdModel>::empty());
        assert(kept.deep_view() =~= pv.take(0).filter(keep_pred));
    }
    while i < plan.len()
        invariant
            i <= plan.len(),
            pv == plan.deep_view(),
            pv.len() == plan.len(),
            keep_pred == (|c: CmdModel| !is_self_referential(c, home_dir@)),
            kept.deep_view() == pv.take(i as int).filter(keep_pred),
        decreases plan.len() - i,
    {
        proof {
            reveal(Seq::filter);
            assert(pv.take(i + 1).drop_last() =~= pv.take(i as int));
            assert(pv.take(i + 1).last() == pv[i as int]);
            assert(pv[i as int] == plan@[i as int].deep_view());
        }
        if !is_self_ref_exec(&plan[i], home_dir) {
            let ghost dv = kept.deep_view();
            kept.push(plan[i].clone());
            proof {
                reveal(Seq::filter);
                assert(kept.deep_view() =~~= dv.push(pv[i as int]));
            }
        }
        i = i + 1;
    }
    proof {
        assert(pv.take(plan.len() as int) =~= pv);
    }
    let ghost kv = kept.deep_view();
    proof {
        assert(kv == keep_cmds(pv, home_dir@));
    }

    let mut keys: Vec<DestKey> = Vec::new();
    let mut j: usize = 0;
    proof {
        assert(kv.take(0) =~= Seq::<CmdModel>::empty());
        assert(keys.deep_view() =~= uniq_keys(kv.take(0)));
    }
    while j < kept.len()
        invariant
            j <= kept.len(),
            kv == kept.deep_view(),
            kv.len() == kept.len(),
            keys.deep_view() == uniq_keys(kv.take(j as int)),
        decreases kept.len() - j,
    {
        proof {
            assert(kv.take(j + 1).drop_last() =~= kv.take(j as int));
            assert(kv.take(j + 1).last() == kv[j as int]);
            assert(kv[j as int] == kept@[j as int].deep_view());
        }
        let k = cmd_key(&kept[j]);
        if !contains_key(&keys, &k) {
            let ghost dv = keys.deep_view();
            keys.push(k);
            proof {
                assert(keys.deep_view() =~~= dv.push(key_of(kv[j as int])));
            }
        }
        j = j + 1;
    }
    proof {
        assert(kv.take(kept.len() as int) =~= kv);
    }
    let ghost ks = keys.deep_view();
    proof {
        assert(ks == uniq_keys(kv));
    }

    let mut commands: Vec<Command> = Vec::new();
    let mut collisions: Vec<Collision> = Vec::new();
    let mut t: usize = 0;
    proof {
        assert(ks.take(0) =~= Seq::<KeyModel>::empty());
        assert(commands.deep_view() =~= picks(kv, ks.take(0)));
        assert(collisions.deep_view() =~~= colls(kv, ks.take(0)));
    }
    while t < keys.len()
        invariant
            t <= keys.len(),
            kv == kept.deep_view(),
            ks == keys.deep_view(),
            ks.len() == keys.len(),
            ks == uniq_keys(kv),
            commands.deep_view() == picks(kv, ks.take(t as int)),
            collisions.deep_view() == colls(kv, ks.take(t as int)),
        decreases keys.len() - t,
    {
        proof {
            assert(ks.take(t + 1).drop_last() =~= ks.take(t as int));
            assert(ks.take(t + 1).last() == ks[t as int]);
            assert(ks[t as int] == keys@[t as int].deep_view());
        }
        let k = &keys[t];
        if exempt_exec(k) {
            proof {
                assert(commands.deep_view() =~= picks(kv, ks.take(t + 1)));
                assert(collisions.deep_view() =~~= colls(kv, ks.take(t + 1)));
            }
        } else {
            proof {
                assert(ks.contains(k@)) by {
                    assert(ks[t as int] == k@);
                }
                lemma_uniq_keys_counted(kv, k@);
            }
            let picked = last_with_key_exec(&kept, k);
            let ghost cdv = commands.deep_view();
            match picked {
                Some(c) => {
                    commands.push(c);
                },
                None => {
                    proof {
                        assert(false);
                    }
                },
            }
            proof {
                assert(commands.deep_view() =~~= cdv.push(last_with_key(kv, k@)));
                assert(commands.deep_view() =~= picks(kv, ks.take(t + 1)));
            }
            let cnt = count_key_exec(&kept, k);
            if cnt > 1 {
                let g = group_exec(&kept, k);
                let ghost ldv = collisions.deep_view();
                collisions.push(Collision { dest: k.clone(), sources: g });
                proof {
                    assert(collisions.deep_view() =~~= ldv.push(
                        (k@, group_of(kv, k@)),
                    ));
                    assert(collisions.deep_view() =~~= colls(kv, ks.take(t + 1)));
                }
            } else {
                proof {
                    assert(collisions.deep_view() =~~= colls(kv, ks.take(t + 1)));
                }
            }
        }
        t = t + 1;
    }
    proof {
        assert(ks.take(keys.len() as int) =~= ks);
    }

    match policy {
        SymlinkCollisionResolutionStrategy::Error => {
            if collisions.len() > 0 {
                return Err(VenvError::Collisions);
            }
        },
        SymlinkCollisionResolutionStrategy::LastWins(_) => {},
    }
    Ok(Resolution { commands, collisions })
}

/// Under last-wins the outcome is the same whether or not warnings were
/// asked for: the warn flag changes what is printed, never what is
/// built.
pub proof fn lemma_last_wins_warn_agnostic(
    plan: Seq<CmdModel>,
    home: Seq<Seq<char>>,
    w1: bool,
    w2: bool,
)
    ensures
        spec_resolve_population(plan, home, SymlinkCollisionResolutionStrategy::LastWins(w1))
            == spec_resolve_population(
            plan,
            home,
            SymlinkCollisionResolutionStrategy::LastWins(w2),
        ),
{
}

/// A key that two kept commands share is reported as a collision.
proof fn lemma_key_collision_reported(cmds: Seq<CmdModel>, keys: Seq<KeyModel>, k: KeyModel)
    requires
        keys.contains(k),
        !exempt_key(k),
        count_key(cmds, k) >= 2,
    ensures
        colls(cmds, keys).len() > 0,
    decreases keys.len(),
{
    if keys.len() > 0 {
        if keys.last() == k {
        } else {
            assert(keys.drop_last().contains(k)) by {
                let w = choose|w: int| 0 <= w < keys.len() && keys[w] == k;
                assert(keys.drop_last()[w] == k);
            }
            lemma_key_collision_reported(cmds, keys.drop_last(), k);
        }
    }
}

/// Every key of a command of the plan occurs among the plan's keys.
proof fn lemma_uniq_keys_complete(cmds: Seq<CmdModel>, i: int)
    requires
        0 <= i < cmds.len(),
    ensures
        uniq_keys(cmds).contains(key_of(cmds[i])),
    decreases cmds.len(),
{
    if i == cmds.len() - 1 {
        if !uniq_keys(cmds.drop_last()).contains(key_of(cmds.last())) {
            assert(uniq_keys(cmds).last() == key_of(cmds.last()));
        }
    } else {
        assert(cmds.drop_last()[i] == cmds[i]);
        lemma_uniq_keys_complete(cmds.drop_last(), i);
        let ks = uniq_keys(cmds.drop_last());
        let w = choose|w: int| 0 <= w < ks.len() && ks[w] == key_of(cmds[i]);
        if ks.contains(key_of(cmds.last())) {
        } else {
            assert(uniq_keys(cmds)[w] == key_of(cmds[i]));
        }
    }
}

/// Two commands of the plan with a shared key count at least twice.
proof fn lemma_two_count(cmds: Seq<CmdModel>, i: int, j: int, k: KeyModel)
    requires
        0 <= i < j < cmds.len(),
        key_of(cmds[i]) == k,
        key_of(cmds[j]) == k,
    ensures
        count_key(cmds, k) >= 2,
    decreases cmds.len(),
{
    lemma_count_from_index(cmds.drop_last(), i, k);
    if j == cmds.len() - 1 {
        assert(cmds.drop_last()[i] == cmds[i]);
    } else {
        assert(cmds.drop_last()[i] == cmds[i]);
        assert(cmds.drop_last()[j] == cmds[j]);
        lemma_two_count(cmds.drop_last(), i, j, k);
    }
}

/// A command's key counts at least once.
proof fn lemma_count_from_index(cmds: Seq<CmdModel>, i: int, k: KeyModel)
    requires
        0 <= i < cmds.len(),
        key_of(cmds[i]) == k,
    ensures
        count_key(cmds, k) >= 1,
    decreases cmds.len(),
{
    if i == cmds.len() - 1 {
    } else {
        assert(cmds.drop_last()[i] == cmds[i]);
        lemma_count_from_index(cmds.drop_last(), i, k);
    }
}

/// The pieces of `s` split on `/` with empty pieces dropped.
pub open spec fn nonempty_pieces(s: Seq<char>) -> Seq<Seq<char>> {
    spec_split(s, '/').filter(|p: Seq<char>| p.len() > 0)
}

/// The `<repo>/<path>` entry a manifest line denotes, or nothing when
/// the line is malformed.  The line is trimmed; one without a separator
/// names the workspace root of its repo; the path is split into
/// segments, empty ones dropped; the repo and every segment must be a
/// well-formed path segment.
pub open spec fn manifest_entry_of(line: Seq<char>) -> Option<(Seq<char>, Seq<Seq<char>>)> {
    let t = spec_trim(line);
    let cut = first_at(t, '/');
    let repo = if cut < t.len() {
        t.take(cut as int)
    } else {
        t
    };
    let segs = if cut < t.len() {
        nonempty_pieces(t.skip(cut as int + 1))
    } else {
        Seq::empty()
    };
    if seg_wf(repo) && segs_wf(segs) {
        Some((repo, segs))
    } else {
        None
    }
}

/// Parses one manifest line into its repo and path segments.
pub fn parse_manifest_entry(line: &str) -> (r: Option<(String, Vec<String>)>)
    ensures
        match r {
            Some(ent) => manifest_entry_of(line@) == Some(
                (ent.0@, ent.1.deep_view()),
            ),
            None => manifest_entry_of(line@) is None,
        },
{
    let t = trim(line);
    let ghost tv = t@;
    let (repo, rest) = match split_once_char(t.as_str(), '/') {
        Some(p) => (p.0, Some(p.1)),
        None => (t, None),
    };
    proof {
        crate::strutil::lemma_first_at(tv, '/');
    }
    if !crate::paths::seg_wf_exec(repo.as_str()) {
        return None;
    }
    let mut segs: Vec<String> = Vec::new();
    match rest {
        Some(rest) => {
            let pieces = split_char(rest.as_str(), '/');
            let ghost pz = pieces.deep_view();
            let ghost keep = |p: Seq<char>| p.len() > 0;
            let mut i: usize = 0;
            proof {
                reveal(Seq::filter);
                assert(pz.take(0) =~= Seq::<Seq<char>>::empty());
                assert(segs.deep_view() =~= pz.take(0).filter(keep));
            }
            while i < pieces.len()
                invariant
                    i <= pieces.len(),
                    pz == pieces.deep_view(),
                    pz.len() == pieces.len(),
                    keep == (|p: Seq<char>| p.len() > 0),
                    segs.deep_view() == pz.take(i as int).filter(keep),
                decreases pieces.len() - i,
            {
                proof {
                    reveal(Seq::filter);
                    assert(pz.take(i + 1).drop_last() =~= pz.take(i as int));
                    assert(pz.take(i + 1).last() == pz[i as int]);
                    assert(pz[i as int] == pieces@[i as int]@);
                }
                if pieces[i].as_str().unicode_len() > 0 {
                    let ghost dv = segs.deep_view();
                    segs.push(pieces[i].clone());
                    proof {
                        reveal(Seq::filter);
                        assert(segs.deep_view() =~~= dv.push(pz[i as int]));
                    }
                }
                i = i + 1;
            }
            proof {
                assert(pz.take(pieces.len() as int) =~= pz);
            }
        },
        None => {
            proof {
                reveal(Seq::filter);
                assert(segs.deep_view() =~= Seq::<Seq<char>>::empty());
            }
        },
    }
    proof {
        assert(manifest_entry_of(line@) == (if segs_wf(segs.deep_view()) {
            Some((repo@, segs.deep_view()))
        } else {
            Option::<(Seq<char>, Seq<Seq<char>>)>::None
        }));
    }
    let mut k: usize = 0;
    while k < segs.len()
        invariant
            k <= segs.len(),
            manifest_entry_of(line@) == (if segs_wf(segs.deep_view()) {
                Some((repo@, segs.deep_view()))
            } else {
                Option::<(Seq<char>, Seq<Seq<char>>)>::None
            }),
            forall|j: int| 0 <= j < k ==> seg_wf(#[trigger] segs.deep_view()[j]),
        decreases segs.len() - k,
    {
        if !crate::paths::seg_wf_exec(segs[k].as_str()) {
            assert(!seg_wf(segs.deep_view()[k as int]));
            return None;
        }
        k = k + 1;
    }
    proof {
        assert(segs_wf(segs.deep_view()));
    }
    Some((repo, segs))
}

/// The raw plan a strategy produces for a whole manifest: the
/// concatenation of its plans for each line, in line order; the first
/// malformed line or failing plan fails the whole manifest.
pub open spec fn spec_populate<S: PthEntryHandler + ?Sized>(
    s: &S,
    venv: &Virtualenv,
    ctx: &PlanContext,
    lines: Seq<Seq<char>>,
) -> Result<Seq<CmdModel>, VenvError>
    decreases lines.len(),
{
    if lines.len() == 0 {
        Ok(Seq::empty())
    } else {
        match spec_populate(s, venv, ctx, lines.drop_last()) {
            Err(e) => Err(e),
            Ok(acc) => match manifest_entry_of(lines.last()) {
                None => Err(VenvError::InvalidManifestEntry),
                Some(ent) => match s.spec_plan(venv, ctx, ent.0, ent.1) {
                    Err(e) => Err(e),
                    Ok(cmds) => Ok(acc + cmds),
                },
            },
        }
    }
}

/// Plans a whole manifest: one strategy invocation per line.
pub fn plan_from_manifest<S: PthEntryHandler>(
    strategy: &S,
    venv: &Virtualenv,
    ctx: &PlanContext,
    manifest: &str,
) -> (r: Result<Vec<Command>, VenvError>)
    requires
        venv.wf(),
        ctx.wf(),
        venv.site_dir@.len() < usize::MAX,
    ensures
        match r {
            Ok(cmds) => spec_populate(strategy, venv, ctx, spec_lines(manifest@)) == Ok::<
                Seq<CmdModel>,
                VenvError,
            >(cmds.deep_view()),
            Err(e) => spec_populate(strategy, venv, ctx, spec_lines(manifest@)) == Err::<
                Seq<CmdModel>,
                VenvError,
            >(e),
        },
{
    let lines = split_lines(manifest);
    let ghost lv = lines.deep_view();
    let mut out: Vec<Command> = Vec::new();
    let mut i: usize = 0;
    proof {
        assert(lv.take(0) =~= Seq::<Seq<char>>::empty());
        assert(out.deep_view() =~= Seq::<CmdModel>::empty());
    }
    while i < lines.len()
        invariant
            i <= lines.len(),
            lv == lines.deep_view(),
            lv == spec_lines(manifest@),
            lv.len() == lines.len(),
            venv.wf(),
            ctx.wf(),
            venv.site_dir@.len() < usize::MAX,
            spec_populate(strategy, venv, ctx, lv.take(i as int)) == Ok::<
                Seq<CmdModel>,
                VenvError,
            >(out.deep_view()),
        decreases lines.len() - i,
    {
        proof {
            assert(lv.take(i + 1).drop_last() =~= lv.take(i as int));
            assert(lv.take(i + 1).last() == lv[i as int]);
            assert(lv[i as int] == lines@[i as int]@);
        }
        let line = &lines[i];
        let Some(ent) = parse_manifest_entry(line.as_str()) else {
            proof {
                lemma_populate_poisoned(strategy, venv, ctx, lv, i as int);
            }
            return Err(VenvError::InvalidManifestEntry);
        };
        match strategy.plan(venv, ctx, ent.0.as_str(), &ent.1) {
            Ok(mut cmds) => {
                let ghost dv = out.deep_view();
                let ghost cv = cmds.deep_view();
                out.append(&mut cmds);
                proof {
                    assert(out.deep_view() =~~= dv + cv);
                }
            },
            Err(e) => {
                proof {
                    lemma_populate_poisoned(strategy, venv, ctx, lv, i as int);
                }
                return Err(e);
            },
        }
        i = i + 1;
    }
    proof {
        assert(lv.take(lines.len() as int) =~= lv);
    }
    Ok(out)
}

/// Once a prefix of the manifest fails, the whole manifest fails with
/// that prefix's error.
proof fn lemma_populate_poisoned<S: PthEntryHandler + ?Sized>(
    s: &S,
    venv: &Virtualenv,
    ctx: &PlanContext,
    lines: Seq<Seq<char>>,
    i: int,
)
    requires
        0 <= i < lines.len(),
        spec_populate(s, venv, ctx, lines.take(i + 1)) is Err,
    ensures
        spec_populate(s, venv, ctx, lines) == spec_populate(s, venv, ctx, lines.take(i + 1)),
    decreases lines.len(),
{
    if i + 1 < lines.len() {
        assert(lines.drop_last().take(i + 1) =~= lines.take(i + 1));
        lemma_populate_poisoned(s, venv, ctx, lines.drop_last(), i);
    } else {
        assert(lines.take(i + 1) =~= lines);
    }
}

/// Plans a whole manifest and resolves the result in one step: what the
/// population of a venv executes, and the collisions it reports.
pub fn resolve_population<S: PthEntryHandler>(
    strategy: &S,
    venv: &Virtualenv,
    ctx: &PlanContext,
    manifest: &str,
    policy: &SymlinkCollisionResolutionStrategy,
) -> (r: Result<Resolution, VenvError>)
    requires
        venv.wf(),
        ctx.wf(),
        venv.site_dir@.len() < usize::MAX,
    ensures
        match spec_populate(strategy, venv, ctx, spec_lines(manifest@)) {
            Err(e) => r matches Err(e2) && e2 == e,
            Ok(plan) => match r {
                Ok(res) => spec_resolve_population(plan, venv.home_dir@, *policy) == Ok::<
                    (Seq<CmdModel>, Seq<(KeyModel, Seq<CmdModel>)>),
                    VenvError,
                >((res.commands.deep_view(), res.collisions.deep_view())),
                Err(e) => spec_resolve_population(plan, venv.home_dir@, *policy) == Err::<
                    (Seq<CmdModel>, Seq<(KeyModel, Seq<CmdModel>)>),
                    VenvError,
                >(e),
            },
        },
{
    let plan = match plan_from_manifest(strategy, venv, ctx, manifest) {
        Ok(p) => p,
        Err(e) => {
            return Err(e);
        },
    };
    resolve_commands(&plan, &venv.home_dir, policy)
}

/// The target written into a planned symlink: the source's path relative
/// to the parent directory of the destination, which is what the link
/// is resolved against.  The target is an offset, never an absolute
/// path, so the tree keeps working wherever it is moved as a whole.
pub fn symlink_target(src: &AbsPath, dest: &AbsPath) -> (r: RelSteps)
    requires
        src.wf(),
        dest.wf(),
        dest@.len() > 0,
    ensures
        r@.0 == diff_up(src@, dest@.drop_last()),
        r@.1 == diff_down(src@, dest@.drop_last()),
{
    let parent = dest.parent();
    proof {
        assert(forall|i: int|
            0 <= i < parent@.len() ==> #[trigger] parent@[i] == dest@[i]);
        assert(parent.wf());
    }
    src.diff_from(&parent)
}

/// A symlink target, resolved against the destination's parent
/// directory, leads exactly back to the source it was computed for.
pub proof fn lemma_symlink_target_resolves(src: Seq<Seq<char>>, dest: Seq<Seq<char>>)
    requires
        dest.len() > 0,
    ensures
        spec_resolve(
            dest.drop_last(),
            diff_up(src, dest.drop_last()),
            diff_down(src, dest.drop_last()),
        ) == Some(src),
{
    crate::paths::lemma_diff_resolves(src, dest.drop_last());
}

/// The lines the planned `.pth` entries contribute, in plan order.
pub open spec fn pth_lines(cmds: Seq<CmdModel>) -> Seq<char>
    decreases cmds.len(),
{
    if cmds.len() == 0 {
        Seq::empty()
    } else {
        pth_lines(cmds.drop_last()) + (match cmds.last() {
            CmdModel::PthEntry { up, down } => spec_render_rel(up, down) + seq!['\n'],
            _ => Seq::empty(),
        })
    }
}

/// The content of the generated `.pth` file: a header marking it as
/// machine-written, then one relative import path per planned entry.
pub fn render_pth_file(cmds: &Vec<Command>) -> (r: String)
    ensures
        r@ == "# Generated by Aspect py_binary\n# Contains relative import paths to non site-package trees within the .runfiles\n"@
            + pth_lines(cmds.deep_view()),
{
    let mut r = String::from_str(
        "# Generated by Aspect py_binary\n# Contains relative import paths to non site-package trees within the .runfiles\n",
    );
    let ghost header = r@;
    let ghost cv = cmds.deep_view();
    let mut i: usize = 0;
    proof {
        assert(cv.take(0) =~= Seq::<CmdModel>::empty());
        assert(r@ =~= header + pth_lines(cv.take(0)));
    }
    while i < cmds.len()
        invariant
            i <= cmds.len(),
            cv == cmds.deep_view(),
            cv.len() == cmds.len(),
            r@ == header + pth_lines(cv.take(i as int)),
        decreases cmds.len() - i,
    {
        proof {
            assert(cv.take(i + 1).drop_last() =~= cv.take(i as int));
            assert(cv.take(i + 1).last() == cv[i as int]);
            assert(cv[i as int] == cmds@[i as int].deep_view());
        }
        match &cmds[i] {
            Command::PthEntry { path } => {
                let line = path.render();
                r.append(line.as_str());
                r.append("\n");
                proof {
                    reveal_strlit("\n");
                    assert(r@ =~= header + pth_lines(cv.take(i + 1)));
                }
            },
            _ => {
                proof {
                    assert(r@ =~= header + pth_lines(cv.take(i + 1)));
                }
            },
        }
        i = i + 1;
    }
    proof {
        assert(cv.take(cmds.len() as int) =~= cv);
    }
    r
}

/// The aborting policy aborts the whole population whenever two distinct
/// kept commands target the same non-exempt destination: no plan with a
/// collision is ever handed back for execution.
pub proof fn lemma_error_policy_aborts(
    plan: Seq<CmdModel>,
    home: Seq<Seq<char>>,
    i: int,
    j: int,
)
    requires
        0 <= i < j < keep_cmds(plan, home).len(),
        key_of(keep_cmds(plan, home)[i]) == key_of(keep_cmds(plan, home)[j]),
        !exempt_key(key_of(keep_cmds(plan, home)[i])),
    ensures
        spec_resolve_population(plan, home, SymlinkCollisionResolutionStrategy::Error)
            is Err,
{
    let kept = keep_cmds(plan, home);
    let k = key_of(kept[i]);
    lemma_two_count(kept, i, j, k);
    lemma_uniq_keys_complete(kept, i);
    lemma_key_collision_reported(kept, uniq_keys(kept), k);
}

} // verus!
