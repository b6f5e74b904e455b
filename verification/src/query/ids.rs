use vstd::prelude::*;

verus! {

/// The ids are in strictly increasing order.
pub open spec fn ascending(s: Seq<u64>) -> bool {
    forall|i: int, j: int| 0 <= i < j < s.len() ==> s[i] < s[j]
}

/// The first `n` items, or all where there are fewer.
pub open spec fn take_at_most(s: Seq<u64>, n: int) -> Seq<u64> {
    if s.len() <= n {
        s
    } else {
        s.subrange(0, n)
    }
}

/// Whether `x` is among the ids.
pub fn contains_id(v: &Vec<u64>, x: u64) -> (r: bool)
    ensures
        r == v@.contains(x),
{
    let mut i: usize = 0;
    while i < v.len()
        invariant
            i <= v@.len(),
            forall|j: int| 0 <= j < i ==> v@[j] != x,
        decreases v@.len() - i,
    {
        if v[i] == x {
            assert(v@[i as int] == x);
            return true;
        }
        i = i + 1;
    }
    false
}

/// Adds `x` to ascending ids, where it is not there yet, keeping them ascending.
pub fn insert_ascending(v: &mut Vec<u64>, x: u64)
    requires
        ascending(old(v)@),
    ensures
        ascending(final(v)@),
        final(v)@.to_set() == old(v)@.to_set().insert(x),
{
    let ghost pre = v@;
    let mut i: usize = 0;
    while i < v.len() && v[i] < x
        invariant
            i <= v@.len(),
            v@ == pre,
            ascending(pre),
            forall|j: int| 0 <= j < i ==> pre[j] < x,
        decreases v@.len() - i,
    {
        i = i + 1;
    }
    if i < v.len() && v[i] == x {
        proof {
            assert(pre.contains(x));
            assert(pre.to_set().insert(x) =~= pre.to_set());
        }
        return;
    }
    v.insert(i, x);
    proof {
        let post = v@;
        assert(post == pre.insert(i as int, x));
        assert forall|a: int, b: int| 0 <= a < b < post.len() implies post[a] < post[b] by {
            if b < i {
                assert(post[a] == pre[a] && post[b] == pre[b]);
            } else if b == i {
                assert(post[a] == pre[a]);
            } else if a < i {
                assert(post[a] == pre[a] && post[b] == pre[b - 1]);
                assert(pre[b - 1] >= x || b - 1 >= i);
                if i < pre.len() {
                    assert(pre[i as int] > x);
                    if b - 1 > i {
                        assert(pre[i as int] < pre[b - 1]);
                    }
                }
            } else if a == i {
                assert(post[b] == pre[b - 1]);
                assert(pre[i as int] > x);
                if b - 1 > i {
                    assert(pre[i as int] < pre[b - 1]);
                }
            } else {
                assert(post[a] == pre[a - 1] && post[b] == pre[b - 1]);
            }
        }
        assert forall|y: u64| #[trigger] post.to_set().contains(y) == pre.to_set().insert(x).contains(y) by {
            if post.contains(y) {
                let k = choose|k: int| 0 <= k < post.len() && post[k] == y;
                if k < i {
                    assert(pre[k] == y);
                } else if k > i {
                    assert(pre[k - 1] == y);
                }
            }
            if pre.contains(y) {
                let k = choose|k: int| 0 <= k < pre.len() && pre[k] == y;
                if k < i {
                    assert(post[k] == y);
                } else {
                    assert(post[k + 1] == y);
                }
            }
            if y == x {
                assert(post[i as int] == x);
            }
        }
        assert(post.to_set() =~= pre.to_set().insert(x));
    }
}

/// The ids of `a`, in their order, that are also among `b`.
pub open spec fn keep_in(a: Seq<u64>, b: Seq<u64>) -> Seq<u64>
    decreases a.len(),
{
    if a.len() == 0 {
        Seq::empty()
    } else {
        let r = keep_in(a.drop_last(), b);
        if b.contains(a.last()) {
            r.push(a.last())
        } else {
            r
        }
    }
}

/// The ids of `a`, in their order, that are also among `b`.
pub fn retain_in(a: &Vec<u64>, b: &Vec<u64>) -> (r: Vec<u64>)
    ensures
        r@ == keep_in(a@, b@),
        ascending(a@) ==> ascending(r@),
{
    let mut out: Vec<u64> = Vec::new();
    let mut i: usize = 0;
    while i < a.len()
        invariant
            i <= a@.len(),
            out@ == keep_in(a@.subrange(0, i as int), b@),
        decreases a@.len() - i,
    {
        let x = a[i];
        proof {
            assert(a@.subrange(0, i + 1).drop_last() =~= a@.subrange(0, i as int));
            assert(a@.subrange(0, i + 1).last() == x);
        }
        if contains_id(b, x) {
            out.push(x);
        }
        i = i + 1;
    }
    proof {
        assert(a@.subrange(0, i as int) =~= a@);
        if ascending(a@) {
            lemma_keep_in(a@, b@);
        }
    }
    out
}

/// Keeping the ids of ascending ids that are among `b` keeps them ascending, and keeps
/// exactly those.
pub proof fn lemma_keep_in(a: Seq<u64>, b: Seq<u64>)
    requires
        ascending(a),
    ensures
        ascending(keep_in(a, b)),
        forall|x: u64| #[trigger] keep_in(a, b).contains(x) <==> a.contains(x) && b.contains(x),
    decreases a.len(),
{
    if a.len() > 0 {
        let d = a.drop_last();
        assert(ascending(d));
        lemma_keep_in(d, b);
        let fd = keep_in(d, b);
        let f = keep_in(a, b);
        assert forall|x: u64| #[trigger] f.contains(x) <==> a.contains(x) && b.contains(x) by {
            if a.contains(x) && b.contains(x) {
                let k = choose|k: int| 0 <= k < a.len() && a[k] == x;
                if k < d.len() {
                    assert(d[k] == x);
                    assert(fd.contains(x));
                    let j = choose|j: int| 0 <= j < fd.len() && fd[j] == x;
                    if b.contains(a.last()) {
                        assert(f[j] == x);
                    }
                } else {
                    assert(f[f.len() - 1] == x);
                }
            }
            if f.contains(x) {
                let j = choose|j: int| 0 <= j < f.len() && f[j] == x;
                if b.contains(a.last()) && j == f.len() - 1 {
                    assert(a[a.len() - 1] == x);
                } else {
                    assert(fd[j] == x);
                    assert(fd.contains(x));
                    let k = choose|k: int| 0 <= k < d.len() && d[k] == x;
                    assert(a[k] == x);
                }
            }
        }
        if b.contains(a.last()) {
            assert forall|i: int, j: int| 0 <= i < j < f.len() implies f[i] < f[j] by {
                if j == f.len() - 1 {
                    assert(fd[i] == f[i]);
                    assert(fd.contains(f[i]));
                    let k = choose|k: int| 0 <= k < d.len() && d[k] == f[i];
                    assert(a[k] < a[a.len() - 1]);
                } else {
                    assert(fd[i] == f[i] && fd[j] == f[j]);
                }
            }
        }
    }
}

} // verus!
