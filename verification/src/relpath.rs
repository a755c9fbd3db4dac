use vstd::prelude::*;

use crate::bytes::{subvec, extend_bytes, SLASH, DOT};

verus! {

/// Join path components with `/` separators.
pub open spec fn join_comps(cs: Seq<Seq<u8>>) -> Seq<u8>
    decreases cs.len(),
{
    if cs.len() == 0 {
        Seq::empty()
    } else if cs.len() == 1 {
        cs[0]
    } else {
        join_comps(cs.drop_last()) + seq![SLASH] + cs.last()
    }
}

/// Split a path into its components at every `/`.
///
/// The empty path has one empty component; a trailing `/` yields a trailing
/// empty component, so joining the result always reproduces the input.
pub open spec fn split_path(p: Seq<u8>) -> Seq<Seq<u8>>
    decreases p.len(),
{
    if p.len() == 0 {
        seq![Seq::<u8>::empty()]
    } else if p.last() == SLASH {
        split_path(p.drop_last()).push(Seq::empty())
    } else {
        let s = split_path(p.drop_last());
        s.update(s.len() - 1, s.last().push(p.last()))
    }
}

pub proof fn lemma_split_path_len(p: Seq<u8>)
    ensures
        split_path(p).len() >= 1,
    decreases p.len(),
{
    if p.len() > 0 {
        lemma_split_path_len(p.drop_last());
    }
}

/// Appending a byte to the last component appends it to the joined path.
pub proof fn lemma_join_push_last(cs: Seq<Seq<u8>>, c: u8)
    requires
        cs.len() >= 1,
    ensures
        join_comps(cs.update(cs.len() - 1, cs.last().push(c))) == join_comps(cs).push(c),
    decreases cs.len(),
{
    let cs2 = cs.update(cs.len() - 1, cs.last().push(c));
    if cs.len() == 1 {
        assert(join_comps(cs2) == cs2[0]);
        assert(cs2[0] == cs.last().push(c));
        assert(join_comps(cs) == cs[0]);
    } else {
        assert(cs2.drop_last() =~= cs.drop_last());
        assert(cs2.last() == cs.last().push(c));
        assert(join_comps(cs2) == join_comps(cs.drop_last()) + seq![SLASH] + cs.last().push(c));
        assert(join_comps(cs.drop_last()) + seq![SLASH] + cs.last().push(c) =~= (join_comps(
            cs.drop_last(),
        ) + seq![SLASH] + cs.last()).push(c));
    }
}

/// Appending one more component appends a separator and the component.
pub proof fn lemma_join_push_comp(cs: Seq<Seq<u8>>, f: Seq<u8>)
    ensures
        join_comps(cs.push(f)) == if cs.len() == 0 {
            f
        } else {
            join_comps(cs) + seq![SLASH] + f
        },
{
    let cs2 = cs.push(f);
    if cs.len() == 0 {
        assert(join_comps(cs2) == cs2[0]);
    } else {
        assert(cs2.drop_last() =~= cs);
        assert(cs2.last() == f);
    }
}

/// Splitting and rejoining reproduces any path exactly.
pub proof fn lemma_join_split(p: Seq<u8>)
    ensures
        join_comps(split_path(p)) == p,
    decreases p.len(),
{
    lemma_split_path_len(p);
    if p.len() == 0 {
        assert(join_comps(split_path(p)) == Seq::<u8>::empty());
        assert(p =~= Seq::<u8>::empty());
    } else if p.last() == SLASH {
        lemma_join_split(p.drop_last());
        lemma_split_path_len(p.drop_last());
        lemma_join_push_comp(split_path(p.drop_last()), Seq::empty());
        assert(join_comps(split_path(p)) == p.drop_last() + seq![SLASH] + Seq::<u8>::empty());
        assert(p.drop_last() + seq![SLASH] + Seq::<u8>::empty() =~= p);
    } else {
        lemma_join_split(p.drop_last());
        lemma_split_path_len(p.drop_last());
        lemma_join_push_last(split_path(p.drop_last()), p.last());
        assert(join_comps(split_path(p)) == p.drop_last().push(p.last()));
        assert(p.drop_last().push(p.last()) =~= p);
    }
}

/// The last component of a split is empty exactly for the paths with no file
/// name: the empty path and paths ending in a separator.
pub proof fn lemma_split_last_empty(p: Seq<u8>)
    ensures
        split_path(p).last().len() == 0 <==> (p.len() == 0 || p.last() == SLASH),
{
    lemma_split_path_len(p);
    if p.len() > 0 && p.last() != SLASH {
        lemma_split_path_len(p.drop_last());
    }
}

/// Split a byte path into its components.
pub fn split_bytes_path(p: &Vec<u8>) -> (r: Vec<Vec<u8>>)
    ensures
        r.deep_view() == split_path(p@),
        r@.len() >= 1,
{
    broadcast use crate::bytes::lemma_bytes_deep_view;

    let mut comps: Vec<Vec<u8>> = Vec::new();
    let mut cur: Vec<u8> = Vec::new();
    let n = p.len();
    let mut i: usize = 0;
    proof {
        assert(p@.take(0) =~= Seq::<u8>::empty());
        assert(comps.deep_view().push(cur@) =~= split_path(p@.take(0)));
    }
    while i < n
        invariant
            i <= n,
            n == p@.len(),
            comps.deep_view().push(cur@) == split_path(p@.take(i as int)),
        decreases n - i,
    {
        let ghost prev = comps.deep_view().push(cur@);
        proof {
            assert(p@.take(i + 1).drop_last() =~= p@.take(i as int));
            assert(p@.take(i + 1).last() == p@[i as int]);
        }
        let b = p[i];
        if b == SLASH {
            comps.push(cur);
            cur = Vec::new();
            proof {
                assert(comps.deep_view().push(cur@) =~~= prev.push(Seq::<u8>::empty()));
            }
        } else {
            cur.push(b);
            proof {
                assert(comps.deep_view().push(cur@) =~~= prev.update(
                    prev.len() - 1,
                    prev.last().push(b),
                ));
            }
        }
        i = i + 1;
    }
    proof {
        assert(p@.take(n as int) =~= p@);
    }
    comps.push(cur);
    proof {
        lemma_split_path_len(p@);
    }
    comps
}

/// Join directory components and a file name into one path.
pub fn join_with_file(dirs: &Vec<Vec<u8>>, file: &Vec<u8>) -> (r: Vec<u8>)
    ensures
        r@ == join_comps(dirs.deep_view().push(file@)),
{
    let r = join_prefix_with_file(dirs, dirs.len(), file);
    proof {
        assert(dirs.deep_view().take(dirs@.len() as int) =~= dirs.deep_view());
    }
    r
}

/// Join the first `k` directory components and a file name into one path.
pub fn join_prefix_with_file(dirs: &Vec<Vec<u8>>, k: usize, file: &Vec<u8>) -> (r: Vec<u8>)
    requires
        k <= dirs@.len(),
    ensures
        r@ == join_comps(dirs.deep_view().take(k as int).push(file@)),
{
    broadcast use crate::bytes::lemma_bytes_deep_view;

    let ghost dv = dirs.deep_view().take(k as int);
    let mut r: Vec<u8> = Vec::new();
    let n = k;
    let mut i: usize = 0;
    proof {
        assert(dv.take(0) =~= Seq::<Seq<u8>>::empty());
        assert(r@ =~= join_comps(dv.take(0)));
    }
    while i < n
        invariant
            i <= n,
            n == dv.len(),
            n <= dirs@.len(),
            dv == dirs.deep_view().take(n as int),
            r@ == join_comps(dv.take(i as int)),
        decreases n - i,
    {
        proof {
            assert(dv.take(i + 1).drop_last() =~= dv.take(i as int));
            assert(dv.take(i + 1).last() == dv[i as int]);
            assert(dv[i as int] == dirs.deep_view()[i as int]);
            assert(dv[i as int] == dirs@[i as int]@);
            lemma_join_push_comp(dv.take(i as int), dv[i as int]);
            assert(dv.take(i + 1) =~= dv.take(i as int).push(dv[i as int]));
        }
        if i == 0 {
            let ghost before = r@;
            extend_bytes(&mut r, &dirs[i]);
            proof {
                assert(before =~= Seq::<u8>::empty());
                assert(r@ =~= dv[i as int]);
            }
        } else {
            r.push(SLASH);
            extend_bytes(&mut r, &dirs[i]);
            proof {
                assert(r@ =~= join_comps(dv.take(i as int)) + seq![SLASH] + dv[i as int]);
            }
        }
        i = i + 1;
    }
    proof {
        assert(dv.take(n as int) =~= dv);
        lemma_join_push_comp(dv, file@);
    }
    if n == 0 {
        let ghost before = r@;
        extend_bytes(&mut r, file);
        proof {
            assert(before =~= Seq::<u8>::empty());
            assert(r@ =~= file@);
        }
    } else {
        r.push(SLASH);
        extend_bytes(&mut r, file);
        proof {
            assert(r@ =~= join_comps(dv) + seq![SLASH] + file@);
        }
    }
    r
}

/// Join all components into one path.
pub fn join_all(comps: &Vec<Vec<u8>>) -> (r: Vec<u8>)
    ensures
        r@ == join_comps(comps.deep_view()),
{
    broadcast use crate::bytes::lemma_bytes_deep_view;

    let n = comps.len();
    if n == 0 {
        let r: Vec<u8> = Vec::new();
        proof {
            assert(comps.deep_view() =~= Seq::<Seq<u8>>::empty());
            assert(r@ =~= join_comps(comps.deep_view()));
        }
        return r;
    }
    let r = join_prefix_with_file(comps, n - 1, &comps[n - 1]);
    proof {
        assert(comps.deep_view().take(n - 1).push(comps@[n - 1]@) =~= comps.deep_view());
    }
    r
}

/// Index of the last `.` that can begin an extension, or `-1`.
///
/// A leading `.` never begins an extension, matching the usual file-stem
/// convention.
pub open spec fn last_dot(f: Seq<u8>) -> int
    decreases f.len(),
{
    if f.len() <= 1 {
        -1
    } else if f.last() == DOT {
        f.len() - 1
    } else {
        last_dot(f.drop_last())
    }
}

pub proof fn lemma_last_dot_bounds(f: Seq<u8>)
    ensures
        -1 <= last_dot(f) < f.len(),
        last_dot(f) >= 0 ==> last_dot(f) >= 1 && f[last_dot(f)] == DOT,
    decreases f.len(),
{
    if f.len() > 1 && f.last() != DOT {
        lemma_last_dot_bounds(f.drop_last());
    }
}

/// Bytes past position `j` that are not dots do not move the last dot.
pub proof fn lemma_last_dot_prefix(f: Seq<u8>, j: int)
    requires
        1 <= j <= f.len(),
        forall|k: int| j <= k < f.len() ==> f[k] != DOT,
    ensures
        last_dot(f) == last_dot(f.take(j)),
    decreases f.len(),
{
    if j == f.len() {
        assert(f.take(j) =~= f);
    } else {
        assert(f.last() != DOT);
        assert(f.drop_last() =~= f.take(f.len() - 1));
        lemma_last_dot_prefix(f.take(f.len() - 1), j);
        assert(f.take(f.len() - 1).take(j) =~= f.take(j));
    }
}

/// File stem: everything before the extension dot.
pub open spec fn stem_of(f: Seq<u8>) -> Seq<u8> {
    if last_dot(f) < 0 {
        f
    } else {
        f.take(last_dot(f))
    }
}

/// File extension: everything after the extension dot, if there is one.
pub open spec fn ext_of(f: Seq<u8>) -> Option<Seq<u8>> {
    if last_dot(f) < 0 {
        Option::None
    } else {
        Option::Some(f.skip(last_dot(f) + 1))
    }
}

/// Stem, dot and extension concatenate back to the file name.
pub proof fn lemma_stem_ext_rejoin(f: Seq<u8>)
    requires
        last_dot(f) >= 0,
    ensures
        stem_of(f) + seq![DOT] + ext_of(f).unwrap() == f,
{
    lemma_last_dot_bounds(f);
    assert(stem_of(f) + seq![DOT] + f.skip(last_dot(f) + 1) =~= f);
}

/// Split a file name into stem and optional extension.
pub fn split_filename(f: &Vec<u8>) -> (r: (Vec<u8>, Option<Vec<u8>>))
    ensures
        r.0@ == stem_of(f@),
        r.1.deep_view() == ext_of(f@),
{
    broadcast use crate::bytes::lemma_bytes_deep_view;

    proof {
        lemma_last_dot_bounds(f@);
    }
    let n = f.len();
    let mut j: usize = n;
    while j > 1
        invariant
            n == f@.len(),
            j <= n,
            forall|k: int| j <= k < n ==> f@[k] != DOT,
        decreases j,
    {
        if f[j - 1] == DOT {
            proof {
                lemma_last_dot_prefix(f@, j as int);
                assert(f@.take(j as int).last() == f@[j - 1]);
                assert(f@.take(j as int).len() == j);
                assert(last_dot(f@) == j - 1);
            }
            let stem = subvec(f, 0, j - 1);
            let ext = subvec(f, j, n);
            proof {
                assert(stem@ =~= stem_of(f@));
                assert(ext@ =~= ext_of(f@).unwrap());
            }
            return (stem, Option::Some(ext));
        }
        j = j - 1;
    }
    proof {
        if n > 0 {
            lemma_last_dot_prefix(f@, 1);
        }
        assert(last_dot(f@) == -1);
    }
    let stem = subvec(f, 0, n);
    proof {
        assert(stem@ =~= f@);
    }
    (stem, Option::None)
}

} // verus!
