use vstd::prelude::*;

use crate::files::{listing, ProjectFile};
use crate::stamp::Timestamp;

verus! {

/// Whether a (name, timestamp) entry carries the timestamp of rank `k`.
pub open spec fn at_rank(k: int) -> spec_fn((Seq<char>, Timestamp)) -> bool {
    |e: (Seq<char>, Timestamp)| e.1.rank() == k
}

/// Ascending by timestamp.
pub open spec fn sorted_by_date(s: Seq<(Seq<char>, Timestamp)>) -> bool {
    forall|i: int, j: int| 0 <= i < j < s.len() ==> #[trigger] s[i].1.rank() <= #[trigger] s[j].1.rank()
}

/// `r` is the plan for `files` against the watermark `last`: the files newer
/// than `last`, ascending by timestamp, and files with equal timestamps in
/// the order in which `files` lists them.
pub open spec fn is_plan(
    files: Seq<(Seq<char>, Timestamp)>,
    last: Timestamp,
    r: Seq<(Seq<char>, Timestamp)>,
) -> bool {
    &&& sorted_by_date(r)
    &&& forall|k: int| #[trigger]
        r.filter(at_rank(k)) == if k > last.rank() {
            files.filter(at_rank(k))
        } else {
            Seq::empty()
        }
}

pub(crate) proof fn lemma_filter_push<A>(s: Seq<A>, x: A, p: spec_fn(A) -> bool)
    ensures
        s.push(x).filter(p) == if p(x) {
            s.filter(p).push(x)
        } else {
            s.filter(p)
        },
{
    reveal_with_fuel(Seq::filter, 1);
    assert(s.push(x).drop_last() =~= s);
}

proof fn lemma_filter_none<A>(s: Seq<A>, p: spec_fn(A) -> bool)
    requires
        forall|i: int| 0 <= i < s.len() ==> !p(#[trigger] s[i]),
    ensures
        s.filter(p) == Seq::<A>::empty(),
    decreases s.len(),
{
    reveal_with_fuel(Seq::filter, 1);
    if s.len() > 0 {
        lemma_filter_none(s.drop_last(), p);
    }
}

/// The migration files of `files` that are not applied yet, given the
/// watermark `last_applied`, in the order in which to apply them.
pub fn plan(files: &Vec<ProjectFile>, last_applied: &Timestamp) -> (r: Vec<ProjectFile>)
    ensures
        is_plan(listing(files@), *last_applied, listing(r@)),
{
    let ghost fs = listing(files@);
    let mut r: Vec<ProjectFile> = Vec::new();
    let mut i: usize = 0;
    while i < files.len()
        invariant
            i <= files.len(),
            fs == listing(files@),
            sorted_by_date(listing(r@)),
            forall|k: int| #[trigger]
                listing(r@).filter(at_rank(k)) == if k > last_applied.rank() {
                    fs.take(i as int).filter(at_rank(k))
                } else {
                    Seq::empty()
                },
        decreases files.len() - i,
    {
        let f = &files[i];
        let ghost x = f@;
        let ghost old_r = listing(r@);
        assert(fs.take(i + 1) =~= fs.take(i as int).push(x));
        if f.date.is_after(last_applied) {
            let key = f.date.key();
            let mut p: usize = r.len();
            while p > 0 && r[p - 1].date.key() > key
                invariant
                    p <= r.len(),
                    forall|j: int| p <= j < r.len() ==> #[trigger] r@[j].date.rank() > key,
                decreases p,
            {
                p = p - 1;
            }
            proof {
                if p > 0 {
                    assert(old_r[p - 1].1.rank() <= key);
                }
            }
            r.insert(p, f.duplicate());
            proof {
                let nr = listing(r@);
                let lo = old_r.take(p as int);
                let hi = old_r.skip(p as int);
                assert(nr =~= lo.push(x) + hi);
                assert(old_r =~= lo + hi);
                assert forall|a: int, b: int| 0 <= a < b < nr.len() implies #[trigger] nr[a].1.rank()
                    <= #[trigger] nr[b].1.rank() by {
                    if a < p && b > p {
                        assert(nr[b] == old_r[b - 1]);
                    } else if a > p {
                        assert(nr[a] == old_r[a - 1]);
                        assert(nr[b] == old_r[b - 1]);
                    } else if a == p {
                        assert(nr[b] == old_r[b - 1]);
                    } else if b == p {
                        assert(old_r[a].1.rank() <= old_r[p - 1].1.rank());
                    }
                }
                assert forall|k: int| #[trigger]
                    nr.filter(at_rank(k)) == if k > last_applied.rank() {
                        fs.take(i + 1).filter(at_rank(k))
                    } else {
                        Seq::empty()
                    } by {
                    Seq::filter_distributes_over_add(lo.push(x), hi, at_rank(k));
                    Seq::filter_distributes_over_add(lo, hi, at_rank(k));
                    lemma_filter_push(lo, x, at_rank(k));
                    lemma_filter_push(fs.take(i as int), x, at_rank(k));
                    if k == x.1.rank() {
                        lemma_filter_none(hi, at_rank(k));
                        assert(hi.filter(at_rank(k)) + Seq::empty() =~= hi.filter(at_rank(k)));
                        assert(lo.filter(at_rank(k)).push(x) + hi.filter(at_rank(k)) =~= (
                        lo.filter(at_rank(k)) + hi.filter(at_rank(k))).push(x));
                    }
                }
            }
        } else {
            proof {
                assert forall|k: int| #[trigger]
                    old_r.filter(at_rank(k)) == if k > last_applied.rank() {
                        fs.take(i + 1).filter(at_rank(k))
                    } else {
                        Seq::empty()
                    } by {
                    lemma_filter_push(fs.take(i as int), x, at_rank(k));
                }
            }
        }
        i = i + 1;
    }
    assert(fs.take(files.len() as int) =~= fs);
    r
}

proof fn lemma_push_contains<A>(a: Seq<A>, l: A, x: A)
    ensures
        a.push(l).contains(x) <==> (a.contains(x) || x == l),
{
    if a.contains(x) {
        let i = choose|i: int| 0 <= i < a.len() && a[i] == x;
        assert(a.push(l)[i] == x);
    }
    if x == l {
        assert(a.push(l)[a.len() as int] == l);
    }
    if a.push(l).contains(x) {
        let i = choose|i: int| 0 <= i < a.push(l).len() && a.push(l)[i] == x;
        if i < a.len() {
            assert(a[i] == x);
        }
    }
}

proof fn lemma_filter_member<A>(s: Seq<A>, p: spec_fn(A) -> bool, x: A)
    ensures
        s.filter(p).contains(x) <==> (s.contains(x) && p(x)),
    decreases s.len(),
{
    if s.len() == 0 {
        reveal_with_fuel(Seq::filter, 1);
    } else {
        let d = s.drop_last();
        let l = s.last();
        assert(s =~= d.push(l));
        lemma_filter_member(d, p, x);
        lemma_filter_push(d, l, p);
        lemma_push_contains(d, l, x);
        lemma_push_contains(d.filter(p), l, x);
    }
}

proof fn lemma_filter_nonempty(s: Seq<(Seq<char>, Timestamp)>, k: int)
    requires
        s.filter(at_rank(k)).len() > 0,
    ensures
        exists|j: int| 0 <= j < s.len() && #[trigger] s[j].1.rank() == k,
{
    let e = s.filter(at_rank(k))[0];
    assert(s.filter(at_rank(k)).contains(e));
    lemma_filter_member(s, at_rank(k), e);
}

/// The plan holds exactly the files of `files` that are newer than `last`.
pub proof fn lemma_plan_members(
    files: Seq<(Seq<char>, Timestamp)>,
    last: Timestamp,
    r: Seq<(Seq<char>, Timestamp)>,
    e: (Seq<char>, Timestamp),
)
    requires
        is_plan(files, last, r),
    ensures
        r.contains(e) <==> (files.contains(e) && e.1.rank() > last.rank()),
{
    let k = e.1.rank();
    assert(r.filter(at_rank(k)) == if k > last.rank() {
        files.filter(at_rank(k))
    } else {
        Seq::empty()
    });
    lemma_filter_member(r, at_rank(k), e);
    lemma_filter_member(files, at_rank(k), e);
}

proof fn lemma_last_group(a: Seq<(Seq<char>, Timestamp)>, b: Seq<(Seq<char>, Timestamp)>)
    requires
        sorted_by_date(b),
        a.len() > 0,
        forall|k: int| #[trigger] a.filter(at_rank(k)) == b.filter(at_rank(k)),
    ensures
        b.len() > 0,
        a.last().1.rank() <= b.last().1.rank(),
{
    let k = a.last().1.rank();
    assert(a.contains(a.last())) by {
        assert(a[a.len() - 1] == a.last());
    }
    lemma_filter_member(a, at_rank(k), a.last());
    assert(a.filter(at_rank(k)) == b.filter(at_rank(k)));
    lemma_filter_member(b, at_rank(k), a.last());
    let j = choose|j: int| 0 <= j < b.len() && b[j] == a.last();
    if j < b.len() - 1 {
        assert(b[j].1.rank() <= b[b.len() - 1].1.rank());
    }
}

proof fn lemma_same_groups(a: Seq<(Seq<char>, Timestamp)>, b: Seq<(Seq<char>, Timestamp)>)
    requires
        sorted_by_date(a),
        sorted_by_date(b),
        forall|k: int| #[trigger] a.filter(at_rank(k)) == b.filter(at_rank(k)),
    ensures
        a == b,
    decreases a.len(),
{
    if a.len() == 0 && b.len() == 0 {
        assert(a =~= b);
    } else {
        if a.len() > 0 {
            lemma_last_group(a, b);
            lemma_last_group(b, a);
        } else {
            lemma_last_group(b, a);
        }
        let k = a.last().1.rank();
        let (ad, x) = (a.drop_last(), a.last());
        let (bd, y) = (b.drop_last(), b.last());
        assert(a =~= ad.push(x));
        assert(b =~= bd.push(y));
        assert forall|k2: int| #[trigger] ad.filter(at_rank(k2)) == bd.filter(at_rank(k2)) by {
            lemma_filter_push(ad, x, at_rank(k2));
            lemma_filter_push(bd, y, at_rank(k2));
            assert(a.filter(at_rank(k2)) == b.filter(at_rank(k2)));
            if k2 == k {
                assert(ad.filter(at_rank(k2)) =~= a.filter(at_rank(k2)).drop_last());
                assert(bd.filter(at_rank(k2)) =~= b.filter(at_rank(k2)).drop_last());
            }
        }
        lemma_filter_push(ad, x, at_rank(k));
        lemma_filter_push(bd, y, at_rank(k));
        assert(a.filter(at_rank(k)) == b.filter(at_rank(k)));
        assert(x == a.filter(at_rank(k)).last());
        assert(y == b.filter(at_rank(k)).last());
        lemma_same_groups(ad, bd);
    }
}

/// A plan is fully determined by the files and the watermark: two plans for
/// the same files and watermark, such as those of two calls of `plan`, are
/// the same list.
pub proof fn lemma_plan_unique(
    files: Seq<(Seq<char>, Timestamp)>,
    last: Timestamp,
    r1: Seq<(Seq<char>, Timestamp)>,
    r2: Seq<(Seq<char>, Timestamp)>,
)
    requires
        is_plan(files, last, r1),
        is_plan(files, last, r2),
    ensures
        r1 == r2,
{
    assert forall|k: int| #[trigger] r1.filter(at_rank(k)) == r2.filter(at_rank(k)) by {
        assert(r1.filter(at_rank(k)) == if k > last.rank() {
            files.filter(at_rank(k))
        } else {
            Seq::empty()
        });
        assert(r2.filter(at_rank(k)) == if k > last.rank() {
            files.filter(at_rank(k))
        } else {
            Seq::empty()
        });
    }
    lemma_same_groups(r1, r2);
}

/// Once the watermark is moved to the latest timestamp of a non-empty plan,
/// planning again over the same files gives nothing.
pub proof fn lemma_plan_after_latest(
    files: Seq<(Seq<char>, Timestamp)>,
    last: Timestamp,
    pending: Seq<(Seq<char>, Timestamp)>,
    i: int,
)
    requires
        is_plan(files, last, pending),
        0 <= i < pending.len(),
        forall|j: int| 0 <= j < pending.len() ==> #[trigger] pending[j].1.rank() <= pending[i].1.rank(),
    ensures
        is_plan(files, pending[i].1, Seq::empty()),
{
    let t = pending[i].1;
    let empty = Seq::<(Seq<char>, Timestamp)>::empty();
    lemma_plan_members(files, last, pending, pending[i]);
    assert(pending.contains(pending[i]));
    assert forall|k: int| #[trigger]
        empty.filter(at_rank(k)) == if k > t.rank() {
            files.filter(at_rank(k))
        } else {
            Seq::empty()
        } by {
        lemma_filter_none(empty, at_rank(k));
        if k > t.rank() && files.filter(at_rank(k)).len() > 0 {
            assert(pending.filter(at_rank(k)) == files.filter(at_rank(k)));
            lemma_filter_nonempty(pending, k);
        }
        if k > t.rank() {
            assert(files.filter(at_rank(k)) =~= Seq::<(Seq<char>, Timestamp)>::empty());
        }
    }
}

} // verus!
