//! Component-level model of filesystem paths.
//!
//! The planner works on absolute paths held as vectors of plain segments
//! (`AbsPath`) and on relative offsets held as a number of `..` steps
//! followed by segments (`RelSteps`).  Resolution of a relative offset
//! against an absolute base is the semantic the planner's guarantees are
//! stated in.
use vstd::prelude::*;

use crate::strutil::{find_char, str_eq};

verus! {

/// A well-formed path segment: nonempty, no separator, and not one of the
/// special `.` / `..` components.
pub open spec fn seg_wf(s: Seq<char>) -> bool {
    s.len() > 0 && (forall|i: int| 0 <= i < s.len() ==> #[trigger] s[i] != '/') && s
        != seq!['.'] && s != seq!['.', '.']
}

/// All segments of `segs` are well formed.
pub open spec fn segs_wf(segs: Seq<Seq<char>>) -> bool {
    forall|i: int| 0 <= i < segs.len() ==> seg_wf(#[trigger] segs[i])
}

/// Checks `seg_wf` for one segment.
pub fn seg_wf_exec(s: &str) -> (r: bool)
    ensures
        r == seg_wf(s@),
{
    let n = s.unicode_len();
    if n == 0 {
        return false;
    }
    if find_char(s, '/') < n {
        proof {
            crate::strutil::lemma_first_at(s@, '/');
        }
        return false;
    }
    proof {
        crate::strutil::lemma_first_at(s@, '/');
    }
    if str_eq(s, ".") {
        proof {
            reveal_strlit(".");
            assert(s@ =~= seq!['.']);
        }
        return false;
    }
    if str_eq(s, "..") {
        proof {
            reveal_strlit("..");
            assert(s@ =~= seq!['.', '.']);
        }
        return false;
    }
    proof {
        reveal_strlit(".");
        reveal_strlit("..");
        if s@ == seq!['.'] {
            assert(s@ =~= "."@);
        }
        if s@ == seq!['.', '.'] {
            assert(s@ =~= ".."@);
        }
    }
    true
}

/// An absolute, normalized path: `/` followed by its segments.
#[derive(Debug)]
pub struct AbsPath {
    pub segs: Vec<String>,
}

impl View for AbsPath {
    type V = Seq<Seq<char>>;

    open spec fn view(&self) -> Seq<Seq<char>> {
        self.segs.deep_view()
    }
}

impl Clone for AbsPath {
    fn clone(&self) -> (r: Self)
        ensures
            r@ == self@,
    {
        AbsPath { segs: self.segs.clone() }
    }
}

/// A relative path offset: `up` leading `..` steps, then the `down`
/// segments.  It never names a root, so moving the referring tree as a
/// whole keeps it valid.
#[derive(Debug)]
pub struct RelSteps {
    pub up: usize,
    pub down: Vec<String>,
}

impl View for RelSteps {
    type V = (nat, Seq<Seq<char>>);

    open spec fn view(&self) -> (nat, Seq<Seq<char>>) {
        (self.up as nat, self.down.deep_view())
    }
}

impl Clone for RelSteps {
    fn clone(&self) -> (r: Self)
        ensures
            r@ == self@,
    {
        RelSteps { up: self.up, down: self.down.clone() }
    }
}

/// The absolute path reached by following `up`-many `..` steps and then
/// `down` from `base`; `None` when the steps climb above the root.
pub open spec fn spec_resolve(base: Seq<Seq<char>>, up: nat, down: Seq<Seq<char>>) -> Option<
    Seq<Seq<char>>,
> {
    if up <= base.len() {
        Some(base.take(base.len() - up) + down)
    } else {
        None
    }
}

impl AbsPath {
    pub open spec fn wf(&self) -> bool {
        segs_wf(self@)
    }

    /// Builds an absolute path from its segments; `None` when a segment is
    /// empty, contains a separator, or is `.` or `..`.
    pub fn new(segs: Vec<String>) -> (r: Option<AbsPath>)
        ensures
            segs_wf(segs.deep_view()) ==> (r matches Some(p) && p@ == segs.deep_view()
                && p.wf()),
            !segs_wf(segs.deep_view()) ==> r is None,
    {
        let mut i: usize = 0;
        while i < segs.len()
            invariant
                i <= segs.len(),
                forall|j: int| 0 <= j < i ==> seg_wf(#[trigger] segs.deep_view()[j]),
            decreases segs.len() - i,
        {
            if !seg_wf_exec(segs[i].as_str()) {
                assert(!seg_wf(segs.deep_view()[i as int]));
                return None;
            }
            i = i + 1;
        }
        Some(AbsPath { segs })
    }

    /// This path extended below by `tail`.
    pub fn join(&self, tail: &Vec<String>) -> (r: AbsPath)
        ensures
            r@ == self@ + tail.deep_view(),
    {
        let mut segs = self.segs.clone();
        let mut i: usize = 0;
        while i < tail.len()
            invariant
                i <= tail.len(),
                segs.deep_view() =~= self@ + tail.deep_view().take(i as int),
            decreases tail.len() - i,
        {
            let ghost old_dv = segs.deep_view();
            segs.push(tail[i].clone());
            proof {
                assert(segs.deep_view() =~~= old_dv.push(tail.deep_view()[i as int]));
                assert(old_dv.push(tail.deep_view()[i as int]) =~~= self@
                    + tail.deep_view().take(i + 1));
            }
            i = i + 1;
        }
        proof {
            assert(tail.deep_view().take(tail.len() as int) =~= tail.deep_view());
        }
        AbsPath { segs }
    }

    /// This path extended below by one segment.
    pub fn child(&self, seg: &str) -> (r: AbsPath)
        ensures
            r@ == self@.push(seg@),
    {
        let mut segs = self.segs.clone();
        let ghost old_dv = segs.deep_view();
        segs.push(String::from_str(seg));
        proof {
            assert(segs.deep_view() =~~= old_dv.push(seg@));
        }
        AbsPath { segs }
    }

    /// The parent directory; the root is its own parent.
    pub fn parent(&self) -> (r: AbsPath)
        ensures
            self@.len() > 0 ==> r@ == self@.drop_last(),
            self@.len() == 0 ==> r@ == self@,
    {
        let mut segs = self.segs.clone();
        if segs.len() > 0 {
            let _ = segs.pop();
            proof {
                assert(segs.deep_view() =~~= self@.drop_last());
            }
        } else {
            proof {
                assert(segs.deep_view() =~~= self@);
            }
        }
        AbsPath { segs }
    }

    /// True if `prefix` is a (not necessarily proper) ancestor-or-self of
    /// this path.
    pub fn starts_with(&self, prefix: &AbsPath) -> (r: bool)
        ensures
            r == (prefix@.len() <= self@.len() && self@.take(prefix@.len() as int)
                == prefix@),
    {
        if prefix.segs.len() > self.segs.len() {
            return false;
        }
        let mut i: usize = 0;
        while i < prefix.segs.len()
            invariant
                i <= prefix.segs.len() <= self.segs.len(),
                forall|j: int| 0 <= j < i ==> self@[j] == prefix@[j],
            decreases prefix.segs.len() - i,
        {
            if !str_eq(self.segs[i].as_str(), prefix.segs[i].as_str()) {
                assert(self@[i as int] != prefix@[i as int]);
                return false;
            }
            i = i + 1;
        }
        proof {
            assert(self@.take(prefix@.len() as int) =~= prefix@);
        }
        true
    }

    /// True if the last segments of this path are exactly `suffix`.
    pub fn ends_with(&self, suffix: &Vec<String>) -> (r: bool)
        ensures
            r == (suffix.deep_view().len() <= self@.len() && self@.skip(
                self@.len() - suffix.deep_view().len(),
            ) == suffix.deep_view()),
    {
        let m = suffix.len();
        if m > self.segs.len() {
            return false;
        }
        let off = self.segs.len() - m;
        let mut i: usize = 0;
        while i < m
            invariant
                m == suffix.deep_view().len(),
                off == self@.len() - m,
                i <= m,
                m <= self.segs.len(),
                off + m == self.segs.len(),
                forall|j: int| 0 <= j < i ==> self@[off + j] == suffix.deep_view()[j],
            decreases m - i,
        {
            if !str_eq(self.segs[off + i].as_str(), suffix[i].as_str()) {
                assert(self@[off + i] != suffix.deep_view()[i as int]);
                return false;
            }
            i = i + 1;
        }
        proof {
            assert(self@.skip(off as int) =~= suffix.deep_view());
        }
        true
    }
}

/// The `..` component, as characters.
pub open spec fn dotdot() -> Seq<char> {
    seq!['.', '.']
}

/// Length of the longest common prefix of two segment sequences.
pub open spec fn common_len(a: Seq<Seq<char>>, b: Seq<Seq<char>>) -> nat
    decreases a.len(),
{
    if a.len() > 0 && b.len() > 0 && a[0] == b[0] {
        1 + common_len(a.drop_first(), b.drop_first())
    } else {
        0
    }
}

pub proof fn lemma_common_len(a: Seq<Seq<char>>, b: Seq<Seq<char>>)
    ensures
        common_len(a, b) <= a.len(),
        common_len(a, b) <= b.len(),
        forall|i: int| 0 <= i < common_len(a, b) ==> a[i] == b[i],
    decreases a.len(),
{
    if a.len() > 0 && b.len() > 0 && a[0] == b[0] {
        lemma_common_len(a.drop_first(), b.drop_first());
        assert(forall|i: int|
            1 <= i < common_len(a, b) ==> a[i] == a.drop_first()[i - 1] && b[i]
                == b.drop_first()[i - 1]);
    }
}

/// Number of `..` steps in the relative offset from `base` to `path`.
pub open spec fn diff_up(path: Seq<Seq<char>>, base: Seq<Seq<char>>) -> nat {
    (base.len() - common_len(path, base)) as nat
}

/// Trailing segments in the relative offset from `base` to `path`.
pub open spec fn diff_down(path: Seq<Seq<char>>, base: Seq<Seq<char>>) -> Seq<Seq<char>> {
    path.skip(common_len(path, base) as int)
}

/// Relies on `pathdiff::diff_paths`: for two absolute paths whose
/// components are all normal (no `.` or `..`), it strips their longest
/// common prefix and returns one `..` component for every remaining base
/// component, followed by the remaining path components.  Both inputs are
/// absolute, so the call always returns a path.
#[verifier::external_body]
fn diff_paths_raw(path: &AbsPath, base: &AbsPath) -> (r: Vec<String>)
    requires
        path.wf(),
        base.wf(),
    ensures
        r.deep_view() == Seq::new(diff_up(path@, base@), |i: int| dotdot()) + diff_down(
            path@,
            base@,
        ),
{
    let mut p = std::path::PathBuf::from("/");
    for s in path.segs.iter() {
        p.push(s);
    }
    let mut b = std::path::PathBuf::from("/");
    for s in base.segs.iter() {
        b.push(s);
    }
    let d = pathdiff::diff_paths(&p, &b).unwrap();
    d.components().map(|c| c.as_os_str().to_str().unwrap().to_string()).collect()
}

impl AbsPath {
    /// The relative offset that leads from `base` to this path, computed by
    /// the `pathdiff` crate and split into its `..` count and trailing
    /// segments.
    pub fn diff_from(&self, base: &AbsPath) -> (r: RelSteps)
        requires
            self.wf(),
            base.wf(),
        ensures
            r@.0 == diff_up(self@, base@),
            r@.1 == diff_down(self@, base@),
    {
        let raw = diff_paths_raw(self, base);
        let ghost up = diff_up(self@, base@);
        let ghost down = diff_down(self@, base@);
        proof {
            lemma_common_len(self@, base@);
            assert(raw.deep_view().len() == up + down.len());
        }
        let mut i: usize = 0;
        let n = raw.len();
        proof {
            assert(raw@.len() == raw.deep_view().len());
        }
        while i < n && str_eq(raw[i].as_str(), "..")
            invariant
                n == raw@.len(),
                raw.deep_view().len() == n,
                raw.deep_view() == Seq::new(up, |j: int| dotdot()) + down,
                up + down.len() == n,
                segs_wf(down),
                i <= n,
                forall|j: int| 0 <= j < i ==> raw.deep_view()[j] == dotdot(),
                i <= up,
            decreases n - i,
        {
            proof {
                reveal_strlit("..");
                assert(raw.deep_view()[i as int] =~= dotdot());
                if i >= up {
                    assert(raw.deep_view()[i as int] == down[i - up]);
                    assert(seg_wf(down[i - up]));
                }
            }
            i = i + 1;
        }
        proof {
            reveal_strlit("..");
            if i < n {
                assert(raw@[i as int]@ != ".."@);
                assert(".."@ =~= dotdot());
            }
            assert(i == up) by {
                if i < up {
                    assert(raw.deep_view()[i as int] == dotdot());
                }
            }
        }
        let mut down_v: Vec<String> = Vec::new();
        let mut k: usize = i;
        while k < n
            invariant
                n == raw@.len(),
                raw.deep_view().len() == n,
                i <= k <= n,
                i == up,
                raw.deep_view() == Seq::new(up, |j: int| dotdot()) + down,
                up + down.len() == n,
                down_v.deep_view() =~= down.take(k - i),
            decreases n - k,
        {
            let ghost old_dv = down_v.deep_view();
            down_v.push(raw[k].clone());
            proof {
                assert(down_v.deep_view() =~~= old_dv.push(raw.deep_view()[k as int]));
                assert(raw.deep_view()[k as int] == down[k - i]);
                assert(old_dv.push(down[k - i]) =~~= down.take(k - i + 1));
            }
            k = k + 1;
        }
        proof {
            assert(down.take(n - i) =~= down);
        }
        RelSteps { up: i, down: down_v }
    }
}

impl AbsPath {
    /// True if the two paths are the same.
    pub fn eq_path(&self, other: &AbsPath) -> (r: bool)
        ensures
            r == (self@ == other@),
    {
        if self.segs.len() != other.segs.len() {
            proof {
                assert(self@.len() != other@.len());
            }
            return false;
        }
        let mut i: usize = 0;
        while i < self.segs.len()
            invariant
                i <= self.segs.len(),
                self@.len() == self.segs.len(),
                other@.len() == self.segs.len(),
                forall|j: int| 0 <= j < i ==> self@[j] == other@[j],
            decreases self.segs.len() - i,
        {
            if !str_eq(self.segs[i].as_str(), other.segs[i].as_str()) {
                assert(self@[i as int] != other@[i as int]);
                return false;
            }
            i = i + 1;
        }
        proof {
            assert(self@ =~= other@);
        }
        true
    }

    /// The segments of this path below `prefix`.
    pub fn strip_prefix(&self, prefix: &AbsPath) -> (r: Vec<String>)
        requires
            prefix@.len() <= self@.len(),
            self@.take(prefix@.len() as int) == prefix@,
        ensures
            r.deep_view() == self@.skip(prefix@.len() as int),
    {
        let mut r: Vec<String> = Vec::new();
        let mut i: usize = prefix.segs.len();
        proof {
            assert(prefix@.len() == prefix.segs.len());
            assert(self@.len() == self.segs.len());
            assert(r.deep_view() =~~= self@.subrange(
                prefix@.len() as int,
                prefix@.len() as int,
            ));
        }
        while i < self.segs.len()
            invariant
                prefix.segs.len() <= i <= self.segs.len(),
                self@.len() == self.segs.len(),
                r.deep_view() == self@.subrange(prefix.segs.len() as int, i as int),
            decreases self.segs.len() - i,
        {
            let ghost old_dv = r.deep_view();
            r.push(self.segs[i].clone());
            proof {
                assert(r.deep_view() =~~= old_dv.push(self@[i as int]));
                assert(r.deep_view() =~~= self@.subrange(prefix.segs.len() as int, i + 1));
            }
            i = i + 1;
        }
        proof {
            assert(self@.subrange(prefix.segs.len() as int, self@.len() as int) =~= self@.skip(
                prefix.segs.len() as int,
            ));
        }
        r
    }
}

/// True if two segment vectors hold the same segments.
pub fn segs_eq(a: &Vec<String>, b: &Vec<String>) -> (r: bool)
    ensures
        r == (a.deep_view() == b.deep_view()),
{
    if a.len() != b.len() {
        proof {
            assert(a.deep_view().len() != b.deep_view().len());
        }
        return false;
    }
    let mut i: usize = 0;
    while i < a.len()
        invariant
            i <= a.len(),
            a.deep_view().len() == a.len(),
            b.deep_view().len() == a.len(),
            forall|j: int| 0 <= j < i ==> a.deep_view()[j] == b.deep_view()[j],
        decreases a.len() - i,
    {
        if !str_eq(a[i].as_str(), b[i].as_str()) {
            assert(a.deep_view()[i as int] != b.deep_view()[i as int]);
            return false;
        }
        i = i + 1;
    }
    proof {
        assert(a.deep_view() =~= b.deep_view());
    }
    true
}

impl RelSteps {
    /// True if the two offsets are the same.
    pub fn eq_steps(&self, other: &RelSteps) -> (r: bool)
        ensures
            r == (self@ == other@),
    {
        let r = self.up == other.up && segs_eq(&self.down, &other.down);
        proof {
            if self@.0 == other@.0 && self@.1 == other@.1 {
                assert(self@ == other@);
            }
        }
        r
    }
}

/// Extending an offset below keeps its resolution, extended below.
pub proof fn lemma_resolve_extend(
    base: Seq<Seq<char>>,
    up: nat,
    down: Seq<Seq<char>>,
    tail: Seq<Seq<char>>,
)
    ensures
        spec_resolve(base, up, down) matches Some(p) ==> spec_resolve(base, up, down + tail)
            == Some(p + tail),
{
    if up <= base.len() {
        assert(base.take(base.len() - up) + (down + tail) =~= (base.take(base.len() - up)
            + down) + tail);
    }
}

/// One `..` step appended to a relative offset, in normalized form: it
/// cancels the last trailing segment if there is one, else it deepens the
/// climb by one.
pub open spec fn spec_then_up(up: nat, down: Seq<Seq<char>>) -> (nat, Seq<Seq<char>>) {
    if down.len() > 0 {
        (up, down.drop_last())
    } else {
        (up + 1, down)
    }
}

/// Appending `..` to an offset moves its resolution to the parent
/// directory, and above the root it stops resolving at all.
pub proof fn lemma_then_up_resolves(base: Seq<Seq<char>>, up: nat, down: Seq<Seq<char>>)
    ensures
        spec_resolve(base, up, down) matches Some(p) ==> (p.len() > 0 ==> spec_resolve(
            base,
            spec_then_up(up, down).0,
            spec_then_up(up, down).1,
        ) == Some(p.drop_last())),
{
    if spec_resolve(base, up, down) is Some {
        let p = spec_resolve(base, up, down).unwrap();
        if p.len() > 0 {
            if down.len() > 0 {
                assert(base.take(base.len() - up) + down.drop_last() =~= (base.take(
                    base.len() - up,
                ) + down).drop_last());
            } else {
                assert(up < base.len());
                assert(base.take(base.len() - (up + 1)) =~= (base.take(base.len() - up)
                    + down).drop_last());
            }
        }
    }
}

impl RelSteps {
    /// This offset with one `..` step appended (normalized form).
    pub fn then_up(&self) -> (r: RelSteps)
        requires
            self.up < usize::MAX,
        ensures
            r@ == spec_then_up(self@.0, self@.1),
    {
        if self.down.len() > 0 {
            let mut down = self.down.clone();
            let _ = down.pop();
            proof {
                assert(down.deep_view() =~~= self@.1.drop_last());
            }
            RelSteps { up: self.up, down }
        } else {
            RelSteps { up: self.up + 1, down: self.down.clone() }
        }
    }

    /// This offset extended below by `tail`.
    pub fn extend(&self, tail: &Vec<String>) -> (r: RelSteps)
        ensures
            r@.0 == self@.0,
            r@.1 == self@.1 + tail.deep_view(),
    {
        let mut down = self.down.clone();
        let mut i: usize = 0;
        while i < tail.len()
            invariant
                i <= tail.len(),
                down.deep_view() =~= self@.1 + tail.deep_view().take(i as int),
            decreases tail.len() - i,
        {
            let ghost old_dv = down.deep_view();
            down.push(tail[i].clone());
            proof {
                assert(down.deep_view() =~~= old_dv.push(tail.deep_view()[i as int]));
                assert(old_dv.push(tail.deep_view()[i as int]) =~~= self@.1
                    + tail.deep_view().take(i + 1));
            }
            i = i + 1;
        }
        proof {
            assert(tail.deep_view().take(tail.len() as int) =~= tail.deep_view());
        }
        RelSteps { up: self.up, down }
    }
}

/// The pieces of a relative offset in order: its `..` steps, then its
/// trailing segments.
pub open spec fn rel_pieces(up: nat, down: Seq<Seq<char>>) -> Seq<Seq<char>> {
    Seq::new(up, |i: int| dotdot()) + down
}

/// Pieces joined with `/` separators, as the offset is written into a
/// `.pth` file or a symlink target.
pub open spec fn spec_join_slash(parts: Seq<Seq<char>>) -> Seq<char>
    decreases parts.len(),
{
    if parts.len() == 0 {
        seq![]
    } else if parts.len() == 1 {
        parts[0]
    } else {
        spec_join_slash(parts.drop_last()) + seq!['/'] + parts[parts.len() - 1]
    }
}

/// The written form of a relative offset.
pub open spec fn spec_render_rel(up: nat, down: Seq<Seq<char>>) -> Seq<char> {
    spec_join_slash(rel_pieces(up, down))
}

impl RelSteps {
    /// Writes this offset as a `/`-separated relative path.
    pub fn render(&self) -> (r: String)
        ensures
            r@ == spec_render_rel(self@.0, self@.1),
    {
        let ghost pieces = rel_pieces(self@.0, self@.1);
        let mut r = String::new();
        let mut i: usize = 0;
        while i < self.up
            invariant
                i <= self.up,
                pieces == rel_pieces(self@.0, self@.1),
                r@ =~= spec_join_slash(pieces.take(i as int)),
            decreases self.up - i,
        {
            if i > 0 {
                r.append("/");
            }
            r.append("..");
            proof {
                reveal_strlit("/");
                reveal_strlit("..");
                assert(pieces.take(i + 1).drop_last() =~= pieces.take(i as int));
                assert(pieces.take(i + 1)[i as int] =~= dotdot());
                if i > 0 {
                    assert(r@ =~= spec_join_slash(pieces.take(i as int)) + seq!['/']
                        + dotdot());
                } else {
                    assert(r@ =~= dotdot());
                }
            }
            i = i + 1;
        }
        let mut k: usize = 0;
        while k < self.down.len()
            invariant
                k <= self.down.len(),
                pieces == rel_pieces(self@.0, self@.1),
                pieces.len() == self@.0 + self.down.deep_view().len(),
                r@ =~= spec_join_slash(pieces.take(self@.0 as int + k)),
            decreases self.down.len() - k,
        {
            if self.up > 0 || k > 0 {
                r.append("/");
            }
            r.append(self.down[k].as_str());
            proof {
                reveal_strlit("/");
                let j = self@.0 as int + k;
                assert(pieces.take(j + 1).drop_last() =~= pieces.take(j));
                assert(pieces.take(j + 1)[j] == self.down.deep_view()[k as int]);
                if j > 0 {
                    assert(r@ =~= spec_join_slash(pieces.take(j)) + seq!['/']
                        + pieces[j]);
                } else {
                    assert(r@ =~= pieces[j]);
                }
            }
            k = k + 1;
        }
        proof {
            assert(pieces.take(pieces.len() as int) =~= pieces);
        }
        r
    }
}

/// Resolving the offset `diff_from` computes leads back exactly to the
/// path it was computed for: relative links and `.pth` entries derived
/// from it stay correct wherever the tree as a whole is placed.
pub proof fn lemma_diff_resolves(path: Seq<Seq<char>>, base: Seq<Seq<char>>)
    ensures
        spec_resolve(base, diff_up(path, base), diff_down(path, base)) == Some(path),
{
    lemma_common_len(path, base);
    let c = common_len(path, base) as int;
    assert(base.take(c) =~= path.take(c));
    assert(base.take(base.len() - diff_up(path, base)) == base.take(c));
    assert(path.take(c) + path.skip(c) =~= path);
}

} // verus!
