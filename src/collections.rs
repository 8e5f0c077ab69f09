//! Sorting with duplicates removed.
use vstd::prelude::*;

verus! {

/// Every element of `s` is smaller than the next: sorted, without repeats.
pub open spec fn strictly_increasing(s: Seq<i32>) -> bool {
    forall|a: int, b: int| 0 <= a < b < s.len() ==> s[a] < s[b]
}

/// The distinct values of `list`, in increasing order.
pub fn unique(list: Vec<i32>) -> (r: Vec<i32>)
    ensures
        strictly_increasing(r@),
        forall|x: i32| r@.contains(x) <==> list@.contains(x),
{
    let mut out: Vec<i32> = Vec::new();
    let mut i: usize = 0;
    while i < list.len()
        invariant
            i <= list@.len(),
            strictly_increasing(out@),
            forall|x: i32| out@.contains(x) <==> list@.take(i as int).contains(x),
        decreases list@.len() - i,
    {
        let x = list[i];
        let mut pos: usize = 0;
        while pos < out.len() && out[pos] < x
            invariant
                pos <= out@.len(),
                forall|k: int| 0 <= k < pos ==> out@[k] < x,
                i < list@.len(),
                x == list@[i as int],
                strictly_increasing(out@),
                forall|y: i32| out@.contains(y) <==> list@.take(i as int).contains(y),
            decreases out@.len() - pos,
        {
            pos = pos + 1;
        }
        let ghost before = out@;
        let ghost seen = list@.take(i as int);
        assert(list@.take(i as int + 1) =~= seen.push(x));
        proof {
            lemma_push_contains(seen, x);
        }
        if pos < out.len() && out[pos] == x {
            assert(before.contains(x));
        } else {
            out.insert(pos, x);
            assert(out@ =~= before.insert(pos as int, x));
            assert forall|y: i32| out@.contains(y) <==> before.contains(y) || y == x by {
                if out@.contains(y) {
                    let k = choose|k: int| 0 <= k < out@.len() && out@[k] == y;
                    if k < pos {
                        assert(before[k] == y);
                    } else if k > pos {
                        assert(before[k - 1] == y);
                    }
                }
                if before.contains(y) {
                    let k = choose|k: int| 0 <= k < before.len() && before[k] == y;
                    if k < pos {
                        assert(out@[k] == y);
                    } else {
                        assert(out@[k + 1] == y);
                    }
                }
                if y == x {
                    assert(out@[pos as int] == x);
                }
            }
        }
        assert forall|y: i32| #[trigger] out@.contains(y) <==> list@.take(i as int + 1).contains(y) by {
            assert(seen.push(x).contains(y) <==> seen.contains(y) || y == x);
            assert(before.contains(y) <==> seen.contains(y));
        }
        i = i + 1;
    }
    assert(list@.take(i as int) =~= list@);
    out
}

/// Pushing `x` adds exactly `x` to what a sequence contains.
proof fn lemma_push_contains(s: Seq<i32>, x: i32)
    ensures
        forall|y: i32| #[trigger] s.push(x).contains(y) <==> s.contains(y) || y == x,
{
    assert forall|y: i32| #[trigger] s.push(x).contains(y) <==> s.contains(y) || y == x by {
        if s.push(x).contains(y) && y != x {
            let k = choose|k: int| 0 <= k < s.len() + 1 && s.push(x)[k] == y;
            assert(s[k] == y);
        }
        if s.contains(y) {
            let k = choose|k: int| 0 <= k < s.len() && s[k] == y;
            assert(s.push(x)[k] == y);
        }
        if y == x {
            assert(s.push(x)[s.len() as int] == x);
        }
    }
}

} // verus!
