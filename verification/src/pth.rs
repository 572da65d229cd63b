//! The dynamic site-packages flow: interpreting the lines of a source
//! `.pth` file and deciding, per file, what a collision between two
//! providers of the same destination means under the configured policy.
use vstd::prelude::*;

use crate::paths::AbsPath;
use crate::strutil::{first_at, spec_lines, spec_trim, trim, str_eq};

verus! {

/// What to do when two sources provide the same destination link.
#[derive(Debug, PartialEq, Eq)]
pub enum SymlinkCollisionResolutionStrategy {
    /// Collisions are a hard error.
    Error,
    /// The last file to provide a target wins; `true` asks for a warning
    /// per collision, `false` keeps quiet.
    LastWins(bool),
}

impl Default for SymlinkCollisionResolutionStrategy {
    fn default() -> (r: Self)
        ensures
            r == SymlinkCollisionResolutionStrategy::Error,
    {
        SymlinkCollisionResolutionStrategy::Error
    }
}

/// Options for laying out the `site-packages` tree.
#[derive(Debug)]
pub struct SitePackageOptions {
    /// Where the `site-packages` tree lives.
    pub dest: AbsPath,
    /// What a colliding link means.
    pub collision_strategy: SymlinkCollisionResolutionStrategy,
}

/// A source `.pth` file: where it lives and an optional prefix to put in
/// front of every entry.
pub struct PthFile {
    pub src: String,
    pub prefix: Option<String>,
}

impl PthFile {
    pub fn new(src: &str, prefix: Option<String>) -> (r: PthFile)
        ensures
            r.src@ == src@,
            r.prefix.deep_view() == prefix.deep_view(),
    {
        PthFile { src: String::from_str(src), prefix }
    }
}

/// The entries of a source `.pth` file whose trees are materialized: the
/// ones naming a packaged site directory, in line order.
pub open spec fn spec_materialize_list(
    lines: Seq<Seq<char>>,
    prefix: Option<Seq<char>>,
) -> Seq<Seq<char>>
    decreases lines.len(),
{
    if lines.len() == 0 {
        Seq::empty()
    } else {
        spec_materialize_list(lines.drop_last(), prefix) + (if spec_file_name(
            spec_pth_entry(lines.last(), prefix),
        ) == "site-packages"@ {
            seq![spec_pth_entry(lines.last(), prefix)]
        } else {
            Seq::empty()
        })
    }
}

/// The content of the destination `.pth` file: every entry that is not
/// materialized, written back one per line.
pub open spec fn spec_emitted_content(lines: Seq<Seq<char>>, prefix: Option<Seq<char>>) -> Seq<
    char,
>
    decreases lines.len(),
{
    if lines.len() == 0 {
        Seq::empty()
    } else {
        spec_emitted_content(lines.drop_last(), prefix) + (if spec_file_name(
            spec_pth_entry(lines.last(), prefix),
        ) == "site-packages"@ {
            Seq::empty()
        } else {
            spec_pth_entry(lines.last(), prefix) + seq!['\n']
        })
    }
}

impl PthFile {
    /// Works through a source `.pth` file for the dynamic site-packages
    /// flow: entries naming a packaged site directory come back as trees
    /// to materialize, every other entry becomes a line of the
    /// destination `.pth` file.  The caller links the trees and writes
    /// the file.
    pub fn set_up_site_packages(&self, content: &str) -> (r: (Vec<String>, String))
        ensures
            r.0.deep_view() == spec_materialize_list(
                spec_lines(content@),
                self.prefix.deep_view(),
            ),
            r.1@ == spec_emitted_content(spec_lines(content@), self.prefix.deep_view()),
    {
        let lines = crate::strutil::split_lines(content);
        let ghost lv = lines.deep_view();
        let ghost pfx = self.prefix.deep_view();
        let mut materialize: Vec<String> = Vec::new();
        let mut emitted = String::new();
        let mut i: usize = 0;
        proof {
            assert(lv.take(0) =~= Seq::<Seq<char>>::empty());
            assert(materialize.deep_view() =~~= spec_materialize_list(lv.take(0), pfx));
            assert(emitted@ =~= spec_emitted_content(lv.take(0), pfx));
        }
        while i < lines.len()
            invariant
                i <= lines.len(),
                lv == lines.deep_view(),
                lv.len() == lines.len(),
                pfx == self.prefix.deep_view(),
                materialize.deep_view() == spec_materialize_list(lv.take(i as int), pfx),
                emitted@ == spec_emitted_content(lv.take(i as int), pfx),
            decreases lines.len() - i,
        {
            proof {
                assert(lv.take(i + 1).drop_last() =~= lv.take(i as int));
                assert(lv.take(i + 1).last() == lv[i as int]);
                assert(lv[i as int] == lines@[i as int]@);
            }
            let line = &lines[i];
            match classify_pth_line(line.as_str(), &self.prefix) {
                PthLineAction::Materialize(entry) => {
                    let ghost dv = materialize.deep_view();
                    materialize.push(entry);
                    proof {
                        assert(materialize.deep_view() =~~= dv.push(
                            spec_pth_entry(lv[i as int], pfx),
                        ));
                        assert(materialize.deep_view() =~~= spec_materialize_list(
                            lv.take(i + 1),
                            pfx,
                        ));
                        assert(emitted@ =~= spec_emitted_content(lv.take(i + 1), pfx));
                    }
                },
                PthLineAction::Emit(entry) => {
                    emitted.append(entry.as_str());
                    emitted.append("\n");
                    proof {
                        reveal_strlit("\n");
                        assert(emitted@ =~= spec_emitted_content(lv.take(i + 1), pfx));
                        assert(materialize.deep_view() =~~= spec_materialize_list(
                            lv.take(i + 1),
                            pfx,
                        ));
                    }
                },
            }
            i = i + 1;
        }
        proof {
            assert(lv.take(lines.len() as int) =~= lv);
        }
        (materialize, emitted)
    }
}

/// `s` with its run of trailing separators removed.
pub open spec fn strip_trailing_slashes(s: Seq<char>) -> Seq<char>
    decreases s.len(),
{
    if s.len() > 0 && s[s.len() - 1] == '/' {
        strip_trailing_slashes(s.drop_last())
    } else {
        s
    }
}

/// The run of non-separator characters at the end of `s`.
pub open spec fn tail_after_slash(s: Seq<char>) -> Seq<char>
    decreases s.len(),
{
    if s.len() == 0 {
        s
    } else if s[s.len() - 1] == '/' {
        Seq::empty()
    } else {
        tail_after_slash(s.drop_last()).push(s[s.len() - 1])
    }
}

/// The last nonempty segment of a path written as one string (what the
/// standard library calls the file name).
pub open spec fn spec_file_name(s: Seq<char>) -> Seq<char> {
    tail_after_slash(strip_trailing_slashes(s))
}

proof fn lemma_strip_trailing_window(s: Seq<char>, hi: int)
    requires
        0 <= hi <= s.len(),
        forall|i: int| hi <= i < s.len() ==> s[i] == '/',
        hi > 0 ==> s[hi - 1] != '/',
    ensures
        strip_trailing_slashes(s) == s.take(hi),
    decreases s.len(),
{
    if s.len() > 0 && s[s.len() - 1] == '/' {
        assert(forall|i: int| 0 <= i < s.len() - 1 ==> s.drop_last()[i] == s[i]);
        lemma_strip_trailing_window(s.drop_last(), hi);
        assert(s.drop_last().take(hi) =~= s.take(hi));
    } else {
        assert(hi == s.len());
        assert(s.take(hi) =~= s);
    }
}

proof fn lemma_tail_after_slash_window(s: Seq<char>, lo: int)
    requires
        0 <= lo <= s.len(),
        forall|i: int| lo <= i < s.len() ==> s[i] != '/',
        lo > 0 ==> s[lo - 1] == '/',
    ensures
        tail_after_slash(s) == s.skip(lo),
    decreases s.len(),
{
    if s.len() == 0 {
        assert(s.skip(lo) =~= s);
    } else if s[s.len() - 1] == '/' {
        assert(lo == s.len());
        assert(s.skip(lo) =~= Seq::<char>::empty());
    } else {
        assert(forall|i: int| 0 <= i < s.len() - 1 ==> s.drop_last()[i] == s[i]);
        lemma_tail_after_slash_window(s.drop_last(), lo);
        assert(s.drop_last().skip(lo).push(s[s.len() - 1]) =~= s.skip(lo));
    }
}

/// The last nonempty segment of `s`.
pub fn file_name_of(s: &str) -> (r: String)
    ensures
        r@ == spec_file_name(s@),
{
    let n = s.unicode_len();
    let mut hi: usize = n;
    while hi > 0 && s.get_char(hi - 1) == '/'
        invariant
            hi <= n,
            n == s@.len(),
            forall|i: int| hi <= i < n ==> s@[i] == '/',
        decreases hi,
    {
        hi = hi - 1;
    }
    let mut lo: usize = hi;
    while lo > 0 && s.get_char(lo - 1) != '/'
        invariant
            lo <= hi <= n,
            n == s@.len(),
            forall|i: int| lo <= i < hi ==> s@[i] != '/',
        decreases lo,
    {
        lo = lo - 1;
    }
    let r = String::from_str(s.substring_char(lo, hi));
    proof {
        lemma_strip_trailing_window(s@, hi as int);
        lemma_tail_after_slash_window(s@.take(hi as int), lo as int);
        assert(forall|i: int| 0 <= i < hi ==> s@.take(hi as int)[i] == s@[i]);
        assert(s@.take(hi as int).skip(lo as int) =~= s@.subrange(lo as int, hi as int));
    }
    r
}

/// What one line of a source `.pth` file asks for.
pub enum PthLineAction {
    /// The entry names a packaged site directory: its tree is
    /// materialized into the destination.
    Materialize(String),
    /// The entry is written into the destination `.pth` file as is.
    Emit(String),
}

/// The entry a line denotes: the trimmed line, put below the prefix
/// unless it stands alone or is absolute.
pub open spec fn spec_pth_entry(line: Seq<char>, prefix: Option<Seq<char>>) -> Seq<char> {
    let t = spec_trim(line);
    match prefix {
        Some(p) => if t.len() > 0 && t[0] == '/' {
            t
        } else {
            p + seq!['/'] + t
        },
        None => t,
    }
}

/// Classifies one line of a source `.pth` file: an entry whose last
/// segment is `site-packages` is materialized, every other entry is
/// emitted verbatim.
pub fn classify_pth_line(line: &str, prefix: &Option<String>) -> (r: PthLineAction)
    ensures
        ({
            let entry = spec_pth_entry(line@, prefix.deep_view());
            if spec_file_name(entry) == "site-packages"@ {
                r matches PthLineAction::Materialize(e) && e@ == entry
            } else {
                r matches PthLineAction::Emit(e) && e@ == entry
            }
        }),
{
    let t = trim(line);
    let entry = match prefix {
        Some(p) => {
            let abs = t.as_str().unicode_len() > 0 && t.as_str().get_char(0) == '/';
            if abs {
                t
            } else {
                let mut e = p.clone();
                e.append("/");
                e.append(t.as_str());
                proof {
                    reveal_strlit("/");
                    assert(e@ =~= p@ + seq!['/'] + spec_trim(line@));
                }
                e
            }
        },
        None => t,
    };
    let name = file_name_of(entry.as_str());
    if str_eq(name.as_str(), "site-packages") {
        PthLineAction::Materialize(entry)
    } else {
        PthLineAction::Emit(entry)
    }
}

/// What to do with one planned link.
#[derive(Debug, PartialEq, Eq)]
pub enum SymlinkAction {
    /// Nothing stands in the way: create the link.
    Create,
    /// The destination already carries the same content: leave it.
    Skip,
    /// Replace the existing link; `true` asks for a warning.
    Replace(bool),
}

/// Decides one planned link against what is already at its destination.
/// Identical content is never a collision: it is skipped under every
/// policy.  Differing content defers to the policy: last-wins replaces
/// (warning or not), the error policy refuses.
pub fn plan_symlink(
    link_exists: bool,
    same_content: bool,
    policy: &SymlinkCollisionResolutionStrategy,
) -> (r: Result<SymlinkAction, VenvCollision>)
    ensures
        !link_exists ==> r == Ok::<SymlinkAction, VenvCollision>(SymlinkAction::Create),
        link_exists && same_content ==> r == Ok::<SymlinkAction, VenvCollision>(
            SymlinkAction::Skip,
        ),
        policy matches SymlinkCollisionResolutionStrategy::LastWins(warn) ==> (link_exists
            && !same_content ==> r == Ok::<SymlinkAction, VenvCollision>(
            SymlinkAction::Replace(*warn),
        )),
        (link_exists && !same_content && policy is Error) ==> r == Err::<
            SymlinkAction,
            VenvCollision,
        >(VenvCollision),
{
    if !link_exists {
        Ok(SymlinkAction::Create)
    } else if same_content {
        Ok(SymlinkAction::Skip)
    } else {
        match policy {
            SymlinkCollisionResolutionStrategy::LastWins(warn) => Ok(
                SymlinkAction::Replace(*warn),
            ),
            SymlinkCollisionResolutionStrategy::Error => Err(VenvCollision),
        }
    }
}

/// The error of a refused link collision.
#[derive(Debug, PartialEq, Eq)]
pub struct VenvCollision;

} // verus!
