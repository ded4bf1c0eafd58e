//! Lexical path normalization and containment for native (Unix byte) paths, and the scan
//! target with its identity at the start of an investigation.
use vstd::prelude::*;
use crate::text::{bytes_occur_at, pieces, split_bytes};

verus! {

/// `b"."`
pub open spec fn dot() -> Seq<u8> {
    seq![46u8]
}

/// `b".."`
pub open spec fn dot_dot() -> Seq<u8> {
    seq![46u8, 46u8]
}

/// The named components left after reading the given `/`-separated pieces in order:
/// empty pieces and `.` are skipped, `..` removes the last named component (never the
/// root), and every other piece is appended.
pub open spec fn fold_parts(ps: Seq<Seq<u8>>) -> Seq<Seq<u8>>
    decreases ps.len(),
{
    if ps.len() == 0 {
        Seq::empty()
    } else {
        let acc = fold_parts(ps.drop_last());
        let x = ps.last();
        if x.len() == 0 || x == dot() {
            acc
        } else if x == dot_dot() {
            if acc.len() > 0 { acc.drop_last() } else { acc }
        } else {
            acc.push(x)
        }
    }
}

/// Whether the path is absolute.
pub open spec fn rooted(p: Seq<u8>) -> bool {
    p.len() > 0 && p[0] == 47
}

/// The named components of the lexically cleaned path.
pub open spec fn cleaned_parts(p: Seq<u8>) -> Seq<Seq<u8>> {
    fold_parts(pieces(p, 47u8))
}

/// Components joined by `/`.
pub open spec fn join_parts(ps: Seq<Seq<u8>>) -> Seq<u8>
    decreases ps.len(),
{
    if ps.len() == 0 {
        Seq::empty()
    } else if ps.len() == 1 {
        ps[0]
    } else {
        join_parts(ps.drop_last()) + seq![47u8] + ps.last()
    }
}

/// The lexically cleaned path: `.` and empty components dropped, `..` applied to the
/// preceding component.
pub open spec fn clean_view(p: Seq<u8>) -> Seq<u8> {
    (if rooted(p) { seq![47u8] } else { Seq::empty() }) + join_parts(cleaned_parts(p))
}

/// `child` lies at or below `parent`, component by component, after both are cleaned.
pub open spec fn path_contains(parent: Seq<u8>, child: Seq<u8>) -> bool {
    let (r1, n1) = (rooted(parent), cleaned_parts(parent));
    let (r2, n2) = (rooted(child), cleaned_parts(child));
    (r1 == r2 && n1.is_prefix_of(n2)) || (!r1 && r2 && n1.len() == 0)
}

fn is_dot(x: &Vec<u8>) -> (r: bool)
    ensures
        r == (x@ == dot()),
{
    if x.len() == 1 && x[0] == 46 {
        assert(x@ =~= dot());
        true
    } else {
        false
    }
}

fn is_dot_dot(x: &Vec<u8>) -> (r: bool)
    ensures
        r == (x@ == dot_dot()),
{
    if x.len() == 2 && x[0] == 46 && x[1] == 46 {
        assert(x@ =~= dot_dot());
        true
    } else {
        false
    }
}

/// The named components of the cleaned path.
fn parts(path: &[u8]) -> (r: Vec<Vec<u8>>)
    ensures
        r@.map_values(|w: Vec<u8>| w@) == cleaned_parts(path@),
{
    let split = split_bytes(path, 47);
    let ghost ps = pieces(path@, 47u8);
    let mut acc: Vec<Vec<u8>> = Vec::new();
    let mut i: usize = 0;
    while i < split.len()
        invariant
            i <= split@.len(),
            split@.map_values(|w: Vec<u8>| w@) == ps,
            acc@.map_values(|w: Vec<u8>| w@) == fold_parts(ps.take(i as int)),
        decreases split@.len() - i,
    {
        let ghost before = acc@.map_values(|w: Vec<u8>| w@);
        assert(ps.take(i as int + 1).drop_last() =~= ps.take(i as int));
        assert(ps.take(i as int + 1).last() == split@[i as int]@);
        let x = &split[i];
        if x.len() == 0 || is_dot(x) {
        } else if is_dot_dot(x) {
            if acc.len() > 0 {
                acc.pop();
                assert(acc@.map_values(|w: Vec<u8>| w@) =~= before.drop_last());
            }
        } else {
            acc.push(crate::model::copy_bytes(x));
            assert(acc@.map_values(|w: Vec<u8>| w@) =~= before.push(x@));
        }
        i = i + 1;
    }
    assert(ps.take(split@.len() as int) =~= ps);
    acc
}

/// Lexically clean a path: drop `.` and empty components and apply `..`.
pub fn clean(path: &[u8]) -> (r: Vec<u8>)
    ensures
        r@ == clean_view(path@),
{
    let ps = parts(path);
    let ghost v = ps@.map_values(|w: Vec<u8>| w@);
    let mut out: Vec<u8> = Vec::new();
    if path.len() > 0 && path[0] == 47 {
        out.push(47);
    }
    let ghost prefix = out@;
    let mut i: usize = 0;
    while i < ps.len()
        invariant
            i <= ps@.len(),
            v == ps@.map_values(|w: Vec<u8>| w@),
            out@ == prefix + join_parts(v.take(i as int)),
        decreases ps@.len() - i,
    {
        let ghost before = out@;
        if i > 0 {
            out.push(47);
        }
        let part = &ps[i];
        let ghost mid = out@;
        let mut k: usize = 0;
        while k < part.len()
            invariant
                k <= part@.len(),
                out@ == mid + part@.take(k as int),
            decreases part@.len() - k,
        {
            out.push(part[k]);
            assert(part@.take(k as int + 1) =~= part@.take(k as int).push(part@[k as int]));
            k = k + 1;
        }
        proof {
            assert(part@.take(part@.len() as int) =~= part@);
            assert(v.take(i as int + 1).drop_last() =~= v.take(i as int));
            assert(v[i as int] == part@);
            if i == 0 {
                assert(out@ =~= prefix + part@);
            } else {
                assert(out@ =~= prefix + (join_parts(v.take(i as int)) + seq![47u8] + part@));
            }
        }
        i = i + 1;
    }
    assert(v.take(v.len() as int) =~= v);
    out
}

/// The path after normalization for comparison; on Unix, its lexically cleaned form.
pub fn normalize(path: &[u8]) -> (r: Vec<u8>)
    ensures
        r@ == clean_view(path@),
{
    clean(path)
}

/// Test lexical containment of `child` in `parent`, component by component.
pub fn contains(parent: &[u8], child: &[u8]) -> (r: bool)
    ensures
        r == path_contains(parent@, child@),
{
    let a = parts(parent);
    let b = parts(child);
    let ghost n1 = a@.map_values(|w: Vec<u8>| w@);
    let ghost n2 = b@.map_values(|w: Vec<u8>| w@);
    let r1 = parent.len() > 0 && parent[0] == 47;
    let r2 = child.len() > 0 && child[0] == 47;
    if !r1 && r2 {
        return a.len() == 0;
    }
    if r1 != r2 || a.len() > b.len() {
        return false;
    }
    let mut i: usize = 0;
    while i < a.len()
        invariant
            i <= a@.len() <= b@.len(),
            n1 == a@.map_values(|w: Vec<u8>| w@),
            n2 == b@.map_values(|w: Vec<u8>| w@),
            forall|k: int| 0 <= k < i ==> n1[k] == n2[k],
            n1 == cleaned_parts(parent@),
            n2 == cleaned_parts(child@),
            r1 == rooted(parent@),
            r2 == rooted(child@),
            r1 == r2,
        decreases a@.len() - i,
    {
        if a[i].len() != b[i].len() || !bytes_occur_at(&a[i], &b[i], 0) {
            proof {
                if n1[i as int] == n2[i as int] {
                    assert(a@[i as int]@.subrange(0, b@[i as int]@.len() as int) =~= b@[i as int]@);
                }
            }
            assert(n1[i as int] != n2[i as int]);
            assert(n2.subrange(0, n1.len() as int)[i as int] == n2[i as int]);
            assert(!n1.is_prefix_of(n2));
            return false;
        }
        assert(a@[i as int]@.subrange(0, b@[i as int]@.len() as int) =~= a@[i as int]@);
        i = i + 1;
    }
    assert(n1 =~= n2.subrange(0, n1.len() as int));
    true
}

/// Canonical scan target and its identity at the start of an investigation.
#[derive(Debug)]
pub struct Target {
    /// Absolute path with the longest existing ancestor resolved.
    pub path: Vec<u8>,
    /// Whether the target existed as a directory when resolved.
    pub directory: bool,
    /// Device and inode of the target when it existed, to tell aliases from replacements.
    pub identity: Option<(u64, u64)>,
}

impl Clone for Target {
    fn clone(&self) -> (r: Self)
        ensures
            r.path@ == self.path@,
            r.directory == self.directory,
            r.identity == self.identity,
    {
        Target { path: crate::model::copy_bytes(&self.path), directory: self.directory, identity: self.identity }
    }
}

/// An observation at `path`, with file identity `meta` when known, is the target: below it
/// for a directory target; otherwise the same file by identity when both identities are
/// known, or the same cleaned path.
pub open spec fn target_matches(t_path: Seq<u8>, directory: bool, identity: Option<(u64, u64)>, path: Seq<u8>, meta: Option<(u64, u64)>) -> bool {
    if directory {
        path_contains(t_path, path)
    } else if identity is Some && meta is Some {
        identity == meta
    } else {
        clean_view(t_path) == clean_view(path)
    }
}

/// A mapped file at `path` on device `dev` with inode `ino` is the target: below a directory
/// target; for a file target, the same device and inode when its identity is known, else the
/// same cleaned path.
pub open spec fn keeps_mapping_view(t_path: Seq<u8>, directory: bool, identity: Option<(u64, u64)>, path: Seq<u8>, dev: u64, ino: u64) -> bool {
    if directory {
        path_contains(t_path, path)
    } else {
        match identity {
            Some(id) => id.0 == dev && id.1 == ino,
            None => clean_view(t_path) == clean_view(path),
        }
    }
}

impl Target {
    /// Whether a mapped file is the target.
    pub fn keeps_mapping(&self, path: &[u8], dev: u64, ino: u64) -> (r: bool)
        ensures
            r == keeps_mapping_view(self.path@, self.directory, self.identity, path@, dev, ino),
    {
        if self.directory {
            return self.contains(path);
        }
        match self.identity {
            Some(id) => id.0 == dev && id.1 == ino,
            None => self.matches(path, None),
        }
    }

    /// Test lexical containment of an already resolved native observation path.
    pub fn contains(&self, path: &[u8]) -> (r: bool)
        ensures
            r == path_contains(self.path@, path@),
    {
        contains(&self.path, path)
    }

    /// Match an observation using file identity when available, otherwise its path.
    pub fn matches(&self, path: &[u8], meta: Option<(u64, u64)>) -> (r: bool)
        ensures
            r == target_matches(self.path@, self.directory, self.identity, path@, meta),
    {
        if self.directory {
            return self.contains(path);
        }
        match (self.identity, meta) {
            (Some(a), Some(b)) => {
                return a.0 == b.0 && a.1 == b.1;
            },
            _ => {},
        }
        let x = normalize(&self.path);
        let y = normalize(path);
        if x.len() != y.len() {
            return false;
        }
        let same = bytes_occur_at(&x, &y, 0);
        proof {
            if same {
                assert(x@.subrange(0, y@.len() as int) =~= x@);
            } else if x@ == y@ {
                assert(x@.subrange(0, y@.len() as int) =~= y@);
            }
        }
        same
    }
}

} // verus!
