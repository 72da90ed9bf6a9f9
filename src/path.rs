use vstd::prelude::*;
use vstd::string::StringSliceAdditionalSpecFns;
use crate::bytes::{bytes_eq, copy_range, push_str};
use crate::request::seqs_view;

verus! {

/// Why a URL path was not mapped into the served directory.
#[derive(PartialEq, Eq, Structural, Debug, Clone, Copy)]
pub enum PathError {
    /// The path names the filesystem root after its leading `/`.
    InvalidComponent,
    /// The assembled path does not lie under the served directory.
    PathTraversal,
}

/// Components that a path walk drops: empty ones, `.` and `..`.
pub open spec fn skipped(c: Seq<u8>) -> bool {
    c.len() == 0 || c == seq![46u8] || c == seq![46u8, 46u8]
}

pub open spec fn keep(c: Seq<u8>) -> Seq<Seq<u8>> {
    if skipped(c) {
        seq![]
    } else {
        seq![c]
    }
}

/// The kept `/`-separated components of `s[start..]`, scanning from `i`.
pub open spec fn parts_from(s: Seq<u8>, i: int, start: int) -> Seq<Seq<u8>>
    decreases s.len() - i,
{
    if i < 0 || i >= s.len() {
        keep(s.subrange(start, s.len() as int))
    } else if s[i] == 47 {
        keep(s.subrange(start, i)) + parts_from(s, i + 1, i + 1)
    } else {
        parts_from(s, i + 1, start)
    }
}

/// The components of a path: its `/`-separated parts, less empty ones, `.` and `..`.
pub open spec fn components(s: Seq<u8>) -> Seq<Seq<u8>> {
    parts_from(s, 0, 0)
}

/// Where a URL path leads below the served directory `root`.
pub open spec fn resolve_spec(root: Seq<u8>, url: Seq<u8>) -> Result<Seq<Seq<u8>>, PathError> {
    if url == seq![47u8] {
        Ok(components(root).push("index.html".spec_bytes()))
    } else {
        let rest = if url.len() > 0 && url[0] == 47 {
            url.drop_first()
        } else {
            url
        };
        if rest.len() > 0 && rest[0] == 47 {
            Err(PathError::InvalidComponent)
        } else {
            Ok(components(root) + components(rest))
        }
    }
}

pub proof fn lemma_parts_kept(s: Seq<u8>, i: int, start: int)
    requires
        0 <= start <= i <= s.len(),
    ensures
        forall|k: int|
            0 <= k < parts_from(s, i, start).len() ==> !skipped(#[trigger] parts_from(s, i, start)[k]),
    decreases s.len() - i,
{
    if i >= s.len() {
        let c = s.subrange(start, s.len() as int);
        assert(parts_from(s, i, start) == keep(c));
        if !skipped(c) {
            assert(keep(c) =~= seq![c]);
        } else {
            assert(keep(c).len() == 0);
        }
    } else {
        if s[i] == 47 {
            lemma_parts_kept(s, i + 1, i + 1);
            let a = keep(s.subrange(start, i));
            let b = parts_from(s, i + 1, i + 1);
            assert(parts_from(s, i, start) == a + b);
            assert forall|k: int| 0 <= k < (a + b).len() implies !skipped(#[trigger] (a + b)[k]) by {
                if k >= a.len() {
                    assert((a + b)[k] == b[k - a.len()]);
                } else {
                    assert(a =~= seq![s.subrange(start, i)]);
                }
            }
        } else {
            lemma_parts_kept(s, i + 1, start);
            assert(parts_from(s, i, start) == parts_from(s, i + 1, start));
        }
    }
}

/// A path that resolves lies inside the served directory: its components begin
/// with those of `root`, and none of those that follow is empty, `.` or `..`,
/// whatever `..` segments the URL path holds.
pub proof fn lemma_resolve_stays_inside(root: Seq<u8>, url: Seq<u8>)
    ensures
        resolve_spec(root, url) is Ok ==> {
            let p = resolve_spec(root, url)->Ok_0;
            &&& components(root).len() <= p.len()
            &&& p.subrange(0, components(root).len() as int) == components(root)
            &&& forall|k: int| components(root).len() <= k < p.len() ==> !skipped(#[trigger] p[k])
        },
{
    let r = components(root);
    if url == seq![47u8] {
        let p = r.push("index.html".spec_bytes());
        assert(p.subrange(0, r.len() as int) =~= r);
        reveal_strlit("index.html");
        assert("index.html".spec_bytes().len() > 2) by {
            vstd::string::is_ascii_spec_bytes("index.html");
        }
    } else {
        let rest = if url.len() > 0 && url[0] == 47 {
            url.drop_first()
        } else {
            url
        };
        if !(rest.len() > 0 && rest[0] == 47) {
            let c = components(rest);
            let p = r + c;
            lemma_parts_kept(rest, 0, 0);
            assert(p.subrange(0, r.len() as int) =~= r);
            assert forall|k: int| r.len() <= k < p.len() implies !skipped(#[trigger] p[k]) by {
                assert(p[k] == c[k - r.len()]);
            }
        }
    }
}

/// The components of `s`: its `/`-separated parts, less empty ones, `.` and `..`.
pub fn path_components(s: &[u8]) -> (r: Vec<Vec<u8>>)
    ensures
        seqs_view(r@) == components(s@),
{
    let mut acc: Vec<Vec<u8>> = Vec::new();
    let mut i: usize = 0;
    let mut start: usize = 0;
    proof {
        assert(seqs_view(acc@) + parts_from(s@, 0, 0) =~= components(s@));
    }
    while i < s.len()
        invariant
            start <= i <= s@.len(),
            seqs_view(acc@) + parts_from(s@, i as int, start as int) == components(s@),
        decreases s@.len() - i,
    {
        if s[i] == 47 {
            let ghost a0 = seqs_view(acc@);
            let c = copy_range(s, start, i);
            push_kept(&mut acc, c);
            proof {
                assert(seqs_view(acc@) + parts_from(s@, i + 1, i + 1) =~= a0 + (keep(
                    s@.subrange(start as int, i as int),
                ) + parts_from(s@, i + 1, i + 1)));
            }
            start = i + 1;
        }
        i += 1;
    }
    let c = copy_range(s, start, s.len());
    push_kept(&mut acc, c);
    acc
}

/// Appends `c` to `acc` unless it is empty, `.` or `..`.
fn push_kept(acc: &mut Vec<Vec<u8>>, c: Vec<u8>)
    ensures
        seqs_view(final(acc)@) == seqs_view(old(acc)@) + keep(c@),
{
    let ghost a0 = seqs_view(acc@);
    let skip = c.len() == 0 || (c.len() == 1 && c[0] == 46) || (c.len() == 2 && c[0] == 46 && c[1]
        == 46);
    proof {
        if c@.len() == 1 && c@[0] == 46 {
            assert(c@ =~= seq![46u8]);
        }
        if c@.len() == 2 && c@[0] == 46 && c@[1] == 46 {
            assert(c@ =~= seq![46u8, 46u8]);
        }
    }
    if !skip {
        acc.push(c);
        proof {
            assert(seqs_view(acc@) =~= a0 + keep(c@));
        }
    } else {
        proof {
            assert(seqs_view(acc@) =~= a0 + keep(c@));
        }
    }
}

/// Whether the components `p` begin with the components `root`.
pub fn starts_with_components(p: &Vec<Vec<u8>>, root: &Vec<Vec<u8>>) -> (r: bool)
    ensures
        r == (root@.len() <= p@.len() && seqs_view(p@).subrange(0, root@.len() as int)
            == seqs_view(root@)),
{
    if root.len() > p.len() {
        return false;
    }
    let mut i: usize = 0;
    while i < root.len()
        invariant
            i <= root@.len() <= p@.len(),
            seqs_view(p@).subrange(0, i as int) == seqs_view(root@).subrange(0, i as int),
        decreases root@.len() - i,
    {
        if !bytes_eq(p[i].as_slice(), root[i].as_slice()) {
            proof {
                assert(seqs_view(p@).subrange(0, root@.len() as int)[i as int] == p@[i as int]@);
                assert(seqs_view(root@)[i as int] == root@[i as int]@);
            }
            return false;
        }
        i += 1;
        proof {
            assert(seqs_view(p@).subrange(0, i as int) =~= seqs_view(root@).subrange(0, i as int));
        }
    }
    proof {
        assert(seqs_view(root@).subrange(0, root@.len() as int) =~= seqs_view(root@));
    }
    true
}

/// Maps a URL path to a path below the served directory `root`: `/` maps to
/// `index.html`; otherwise one leading `/` is dropped, empty components, `.`
/// and `..` are dropped, and the rest is appended to `root`.  A path that
/// names the filesystem root after its leading `/` is refused, and so is a
/// result that does not begin with `root`.
pub fn resolve(root: &[u8], url_path: &[u8]) -> (r: Result<Vec<Vec<u8>>, PathError>)
    ensures
        match resolve_spec(root@, url_path@) {
            Ok(p) => r.is_ok() && seqs_view(r->Ok_0@) == p,
            Err(e) => r == Err::<Vec<Vec<u8>>, PathError>(e),
        },
{
    let base = path_components(root);
    let mut out = path_components(root);
    if url_path.len() == 1 && url_path[0] == 47 {
        proof {
            assert(url_path@ =~= seq![47u8]);
        }
        let mut name: Vec<u8> = Vec::new();
        push_str(&mut name, "index.html");
        let ghost o = seqs_view(out@);
        out.push(name);
        proof {
            assert(seqs_view(out@) =~= o.push("index.html".spec_bytes()));
        }
        return Ok(out);
    }
    proof {
        assert(url_path@ != seq![47u8]);
    }
    let from: usize = if url_path.len() > 0 && url_path[0] == 47 {
        1
    } else {
        0
    };
    let rest = copy_range(url_path, from, url_path.len());
    proof {
        if from == 1 {
            assert(rest@ =~= url_path@.drop_first());
        } else {
            assert(rest@ =~= url_path@);
        }
    }
    if rest.len() > 0 && rest[0] == 47 {
        return Err(PathError::InvalidComponent);
    }
    let tail = path_components(rest.as_slice());
    let mut k: usize = 0;
    let ghost o = seqs_view(out@);
    while k < tail.len()
        invariant
            k <= tail@.len(),
            seqs_view(out@) == o + seqs_view(tail@).subrange(0, k as int),
        decreases tail@.len() - k,
    {
        let c = copy_range(tail[k].as_slice(), 0, tail[k].len());
        proof {
            assert(c@ =~= tail@[k as int]@);
        }
        let ghost prev = seqs_view(out@);
        out.push(c);
        k += 1;
        proof {
            assert(seqs_view(out@) =~= prev.push(c@));
            assert(seqs_view(tail@).subrange(0, k as int) =~= seqs_view(tail@).subrange(
                0,
                k - 1,
            ).push(tail@[k - 1]@));
            assert(seqs_view(out@) =~= o + seqs_view(tail@).subrange(0, k as int));
        }
    }
    proof {
        assert(seqs_view(tail@).subrange(0, tail@.len() as int) =~= seqs_view(tail@));
    }
    proof {
        assert(seqs_view(out@).subrange(0, base@.len() as int) =~= seqs_view(base@));
    }
    if !starts_with_components(&out, &base) {
        return Err(PathError::PathTraversal);
    }
    Ok(out)
}

} // verus!
