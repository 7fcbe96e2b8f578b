//! Canonical path resolution: a font file path is followed through any chain
//! of symbolic links until a path yields no further link target. Relative
//! link targets are resolved against the parent directory of the link, and a
//! hop bound turns a pathological link cycle into an error instead of a hang.
//!
//! The resolver itself is a step machine: the caller reads each link target
//! (from the filesystem, or from an in-memory table) and hands it in, so the
//! decision logic here is independent of where the links live.

use vstd::prelude::*;
use crate::text::chars_eq;
use crate::text::copy_chars;

verus! {

/// Most link hops a resolution may take before it is abandoned.
pub const MAX_LINK_HOPS: u32 = 32;

/// Index of the last `/` in a path, or `-1` when it has none.
pub open spec fn last_slash(p: Seq<char>) -> int
    decreases p.len(),
{
    if p.len() == 0 {
        -1
    } else if p.last() == '/' {
        p.len() - 1
    } else {
        last_slash(p.drop_last())
    }
}

/// The parent directory of a path: everything before the last `/`; the root
/// when the last `/` is the first character; empty when there is no `/`.
pub open spec fn parent_dir(p: Seq<char>) -> Seq<char> {
    if last_slash(p) < 0 {
        Seq::empty()
    } else if last_slash(p) == 0 {
        seq!['/']
    } else {
        p.subrange(0, last_slash(p))
    }
}

/// Whether a path is absolute.
pub open spec fn is_absolute(p: Seq<char>) -> bool {
    p.len() > 0 && p[0] == '/'
}

/// A directory joined with a path beneath it.
pub open spec fn join_path(dir: Seq<char>, rest: Seq<char>) -> Seq<char> {
    if dir.len() == 0 {
        rest
    } else if dir.last() == '/' {
        dir + rest
    } else {
        dir + seq!['/'] + rest
    }
}

/// The path one link hop leads to: an absolute target replaces the current
/// path; a relative target is resolved against the parent directory of the
/// link being followed.
pub open spec fn next_path(current: Seq<char>, target: Seq<char>) -> Seq<char> {
    if is_absolute(target) {
        target
    } else {
        join_path(parent_dir(current), target)
    }
}

/// What one resolution step found.
#[derive(Clone, Copy, Debug, PartialEq, Eq, Structural)]
pub enum StepOutcome {
    /// The current path is no link: resolution is finished.
    Done,
    /// A link was followed; the current path moved to its target.
    Followed,
    /// The hop bound was reached; the chain is treated as a cycle.
    TooManyLinks,
}

/// The state of one path resolution: where the walk stands and how many
/// links it has followed.
pub struct SymlinkResolver {
    current: Vec<char>,
    hops: u32,
}

impl SymlinkResolver {
    /// The path the walk currently stands on.
    pub closed spec fn current_path(&self) -> Seq<char> {
        self.current@
    }

    /// How many links the walk has followed.
    pub closed spec fn hop_count(&self) -> u32 {
        self.hops
    }

    /// A resolution starting from the given path.
    pub fn new(path: Vec<char>) -> (r: SymlinkResolver)
        ensures
            r.current_path() == path@,
            r.hop_count() == 0,
    {
        SymlinkResolver { current: path, hops: 0 }
    }

    /// The path the walk currently stands on; the canonical path once a step
    /// has reported [`StepOutcome::Done`].
    pub fn current(&self) -> (r: &Vec<char>)
        ensures
            r@ == self.current_path(),
    {
        &self.current
    }

    /// Advance by one link reading: `target` is what the filesystem (or a
    /// table) reports for the current path, `None` meaning it is no link.
    pub fn step(&mut self, target: Option<Vec<char>>) -> (r: StepOutcome)
        ensures
            match target {
                None => r == StepOutcome::Done && *final(self) == *old(self),
                Some(t) => {
                    if old(self).hop_count() >= MAX_LINK_HOPS {
                        r == StepOutcome::TooManyLinks && *final(self) == *old(self)
                    } else {
                        r == StepOutcome::Followed && final(self).current_path() == next_path(
                            old(self).current_path(),
                            t@,
                        ) && final(self).hop_count() == old(self).hop_count() + 1
                    }
                },
            },
    {
        match target {
            None => StepOutcome::Done,
            Some(t) => {
                if self.hops >= MAX_LINK_HOPS {
                    StepOutcome::TooManyLinks
                } else {
                    self.current = next_path_chars(&self.current, t);
                    self.hops = self.hops + 1;
                    StepOutcome::Followed
                }
            },
        }
    }
}

/// Index of the last `/` of a path, executable form.
fn find_last_slash(p: &Vec<char>) -> (r: Option<usize>)
    ensures
        match r {
            Some(i) => last_slash(p@) == i && i < p@.len(),
            None => last_slash(p@) == -1,
        },
{
    let mut i: usize = p.len();
    proof {
        assert(p@.subrange(0, p@.len() as int) =~= p@);
    }
    while i > 0
        invariant
            i <= p@.len(),
            last_slash(p@) == last_slash(p@.subrange(0, i as int)),
        decreases i,
    {
        proof {
            let pre: Seq<char> = p@.subrange(0, i as int);
            assert(pre.drop_last() =~= p@.subrange(0, i - 1));
            assert(pre.last() == p@[i - 1]);
        }
        if p[i - 1] == '/' {
            return Some(i - 1);
        }
        i = i - 1;
    }
    proof {
        assert(p@.subrange(0, 0) =~= Seq::<char>::empty());
    }
    None
}

/// The path one link hop leads to, executable form.
pub fn next_path_chars(current: &Vec<char>, target: Vec<char>) -> (r: Vec<char>)
    ensures
        r@ == next_path(current@, target@),
{
    if target.len() > 0 && target[0] == '/' {
        return target;
    }
    // relative target: resolve against the parent directory of the link
    let mut dir: Vec<char>;
    match find_last_slash(current) {
        None => {
            dir = Vec::new();
            proof {
                assert(dir@ =~= parent_dir(current@));
            }
        },
        Some(i) => {
            if i == 0 {
                dir = Vec::new();
                dir.push('/');
                proof {
                    assert(dir@ =~= parent_dir(current@));
                }
            } else {
                dir = Vec::new();
                let mut k: usize = 0;
                while k < i
                    invariant
                        k <= i < current@.len(),
                        dir@ =~= current@.subrange(0, k as int),
                    decreases i - k,
                {
                    dir.push(current[k]);
                    k = k + 1;
                }
                proof {
                    assert(dir@ =~= parent_dir(current@));
                }
            }
        },
    }
    // join the parent directory with the relative target
    let mut r: Vec<char>;
    if dir.len() == 0 {
        r = target;
        proof {
            assert(r@ =~= join_path(dir@, r@));
        }
    } else {
        r = dir;
        if r[r.len() - 1] != '/' {
            r.push('/');
        }
        let mut k: usize = 0;
        let ghost base: Seq<char> = r@;
        while k < target.len()
            invariant
                k <= target@.len(),
                r@ =~= base + target@.subrange(0, k as int),
            decreases target@.len() - k,
        {
            r.push(target[k]);
            k = k + 1;
        }
        proof {
            assert(r@ =~= join_path(dir@, target@));
        }
    }
    r
}

/// The target the link table gives for a path: the first entry whose key
/// matches, or nothing when the path is no link.
pub open spec fn table_lookup(links: Seq<(Seq<char>, Seq<char>)>, p: Seq<char>) -> Option<
    Seq<char>,
>
    decreases links.len(),
{
    if links.len() == 0 {
        None
    } else if links[0].0 == p {
        Some(links[0].1)
    } else {
        table_lookup(links.drop_first(), p)
    }
}

/// The mathematical image of an in-memory link table.
pub open spec fn table_view(links: Seq<(Vec<char>, Vec<char>)>) -> Seq<(Seq<char>, Seq<char>)> {
    links.map_values(|pr: (Vec<char>, Vec<char>)| (pr.0@, pr.1@))
}

/// The canonical path a walk reaches from `p` within `fuel` hops, or nothing
/// when the chain is longer than that (in particular, on a link cycle).
pub open spec fn spec_resolve(
    links: Seq<(Seq<char>, Seq<char>)>,
    p: Seq<char>,
    fuel: nat,
) -> Option<Seq<char>>
    decreases fuel,
{
    match table_lookup(links, p) {
        None => Some(p),
        Some(t) => if fuel == 0 {
            None
        } else {
            spec_resolve(links, next_path(p, t), (fuel - 1) as nat)
        },
    }
}

proof fn lemma_table_lookup_skip(links: Seq<(Seq<char>, Seq<char>)>, p: Seq<char>, i: int)
    requires
        0 <= i < links.len(),
        links[i].0 != p,
    ensures
        table_lookup(links.skip(i), p) == table_lookup(links.skip(i + 1), p),
{
    assert(links.skip(i).drop_first() =~= links.skip(i + 1));
    assert(links.skip(i)[0] == links[i]);
}

/// The first table entry for a path, executable form.
fn table_get(links: &Vec<(Vec<char>, Vec<char>)>, key: &Vec<char>) -> (r: Option<usize>)
    ensures
        match r {
            Some(i) => i < links@.len() && table_lookup(table_view(links@), key@) == Some(
                links@[i as int].1@,
            ),
            None => table_lookup(table_view(links@), key@) is None,
        },
{
    let n: usize = links.len();
    let mut i: usize = 0;
    proof {
        assert(table_view(links@).skip(0) =~= table_view(links@));
    }
    while i < n
        invariant
            n == links@.len(),
            i <= n,
            table_view(links@).len() == n,
            table_lookup(table_view(links@), key@) == table_lookup(
                table_view(links@).skip(i as int),
                key@,
            ),
        decreases n - i,
    {
        proof {
            assert(table_view(links@).skip(i as int)[0] == table_view(links@)[i as int]);
        }
        if chars_eq(&links[i].0, key) {
            return Some(i);
        }
        proof {
            lemma_table_lookup_skip(table_view(links@), key@, i as int);
        }
        i = i + 1;
    }
    proof {
        assert(table_view(links@).skip(n as int).len() == 0);
    }
    None
}

/// Resolve a path against an in-memory link table, following link hops until
/// a path is no link; `None` when the chain exceeds [`MAX_LINK_HOPS`].
#[verifier::loop_isolation(false)]
pub fn resolve_with_table(links: &Vec<(Vec<char>, Vec<char>)>, path: Vec<char>) -> (r: Option<
    Vec<char>,
>)
    ensures
        match r {
            Some(q) => spec_resolve(table_view(links@), path@, MAX_LINK_HOPS as nat) == Some(q@),
            None => spec_resolve(table_view(links@), path@, MAX_LINK_HOPS as nat) is None,
        },
{
    let ghost tv: Seq<(Seq<char>, Seq<char>)> = table_view(links@);
    let ghost p0: Seq<char> = path@;
    let mut res = SymlinkResolver::new(path);
    loop
        invariant
            tv == table_view(links@),
            res.hop_count() <= MAX_LINK_HOPS,
            spec_resolve(tv, p0, MAX_LINK_HOPS as nat) == spec_resolve(
                tv,
                res.current_path(),
                (MAX_LINK_HOPS - res.hop_count()) as nat,
            ),
        decreases MAX_LINK_HOPS - res.hop_count(),
    {
        let target: Option<Vec<char>> = match table_get(links, res.current()) {
            None => None,
            Some(i) => Some(copy_chars(&links[i].1)),
        };
        match res.step(target) {
            StepOutcome::Done => {
                return Some(copy_chars(res.current()));
            },
            StepOutcome::TooManyLinks => {
                return None;
            },
            StepOutcome::Followed => {},
        }
    }
}

} // verus!
