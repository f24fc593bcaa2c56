use vstd::prelude::*;

verus! {

/// Node `a` comes before node `b` in the ranking: it has the higher degree,
/// or the same degree and the lower index.
pub open spec fn outranks(degrees: Seq<usize>, a: int, b: int) -> bool {
    degrees[a] > degrees[b] || (degrees[a] == degrees[b] && a < b)
}

/// `top` lists the `k` best-ranked of the first `count` nodes, best first;
/// all of them, where they are fewer than `k`.
pub open spec fn leads(degrees: Seq<usize>, top: Seq<usize>, k: nat, count: int) -> bool {
    &&& top.len() == if k <= count {
        k as int
    } else {
        count
    }
    &&& forall|p: int| 0 <= p < top.len() ==> #[trigger] top[p] < count
    &&& forall|p: int, q: int|
        0 <= p < q < top.len() ==> outranks(degrees, #[trigger] top[p] as int, #[trigger] top[q] as int)
    &&& forall|j: usize, p: int|
        j < count && !top.contains(j) && 0 <= p < top.len() ==> #[trigger] outranks(
            degrees,
            top[p] as int,
            j as int,
        )
}

/// `top` lists the `k` best-ranked nodes, best first: its entries are in
/// ranking order, and each of them outranks every node that it leaves out.
pub open spec fn is_top(degrees: Seq<usize>, top: Seq<usize>, k: nat) -> bool {
    leads(degrees, top, k, degrees.len() as int)
}

/// The `k` best-ranked nodes, best first.
pub open spec fn top_nodes(degrees: Seq<usize>, k: nat) -> Seq<usize> {
    choose|top: Seq<usize>| is_top(degrees, top, k)
}

/// As long as fewer than `k` nodes were seen, the list holds them all.
pub open spec fn keeps_all(top: Seq<usize>, k: nat, count: int) -> bool {
    top.len() < k ==> forall|j: usize| j < count ==> top.contains(j)
}

/// Two lists of the `k` best-ranked nodes agree up to any position.
proof fn lemma_same_entry(degrees: Seq<usize>, a: Seq<usize>, b: Seq<usize>, k: nat, p: int)
    requires
        is_top(degrees, a, k),
        is_top(degrees, b, k),
        0 <= p < a.len(),
    ensures
        a[p] == b[p],
    decreases p,
{
    assert forall|q: int| 0 <= q < p implies a[q] == b[q] by {
        lemma_same_entry(degrees, a, b, k, q);
    }
    lemma_not_ahead(degrees, a, b, k, p);
    lemma_not_ahead(degrees, b, a, k, p);
}

/// Where two lists of the `k` best-ranked nodes agree before position `p`,
/// the entry of the one at `p` does not outrank that of the other.
proof fn lemma_not_ahead(degrees: Seq<usize>, a: Seq<usize>, b: Seq<usize>, k: nat, p: int)
    requires
        is_top(degrees, a, k),
        is_top(degrees, b, k),
        0 <= p < a.len(),
        forall|q: int| 0 <= q < p ==> a[q] == b[q],
    ensures
        !outranks(degrees, a[p] as int, b[p] as int),
{
    if !outranks(degrees, a[p] as int, b[p] as int) {
    } else if b.contains(a[p]) {
        let q = choose|q: int| 0 <= q < b.len() && b[q] == a[p];
        if q < p {
            assert(outranks(degrees, a[q] as int, a[p] as int));
        } else if q > p {
            assert(outranks(degrees, b[p] as int, b[q] as int));
        }
    } else {
        assert(outranks(degrees, b[p] as int, a[p] as int));
    }
}

/// There is only one list of the `k` best-ranked nodes.
pub proof fn lemma_top_unique(degrees: Seq<usize>, a: Seq<usize>, b: Seq<usize>, k: nat)
    requires
        is_top(degrees, a, k),
        is_top(degrees, b, k),
    ensures
        a == b,
{
    assert forall|p: int| 0 <= p < a.len() implies a[p] == b[p] by {
        lemma_same_entry(degrees, a, b, k, p);
    }
    assert(a =~= b);
}

/// The entries of a list of best-ranked nodes come by falling degree.
pub proof fn lemma_top_degrees_fall(degrees: Seq<usize>, top: Seq<usize>, k: nat, p: int, q: int)
    requires
        is_top(degrees, top, k),
        0 <= p <= q < top.len(),
    ensures
        degrees[top[p] as int] >= degrees[top[q] as int],
{
    if p < q {
        assert(outranks(degrees, top[p] as int, top[q] as int));
    }
}

/// Node `i` takes the place `pos` in the list of the best of the nodes
/// before it, and the entry that no longer fits drops off the end.
proof fn lemma_placed(degrees: Seq<usize>, before: Seq<usize>, k: nat, i: usize, pos: int)
    requires
        i < degrees.len(),
        leads(degrees, before, k, i as int),
        keeps_all(before, k, i as int),
        0 <= pos <= before.len(),
        pos < k,
        forall|p: int| 0 <= p < pos ==> degrees[#[trigger] before[p] as int] >= degrees[i as int],
        pos < before.len() ==> degrees[before[pos] as int] < degrees[i as int],
    ensures
        ({
            let grown = before.insert(pos, i);
            let after = if grown.len() > k {
                grown.drop_last()
            } else {
                grown
            };
            leads(degrees, after, k, i + 1) && keeps_all(after, k, i + 1)
        }),
{
    let grown = before.insert(pos, i);
    let after = if grown.len() > k {
        grown.drop_last()
    } else {
        grown
    };
    assert forall|q: int| pos <= q < before.len() implies degrees[#[trigger] before[q] as int]
        < degrees[i as int] by {
        if pos < q {
            assert(outranks(degrees, before[pos] as int, before[q] as int));
        }
    }
    assert forall|p: int| 0 <= p < after.len() implies #[trigger] after[p] < i + 1 by {
        if p < pos {
            assert(after[p] == before[p]);
        } else if p > pos {
            assert(after[p] == before[p - 1]);
        }
    }
    assert forall|p: int, q: int| 0 <= p < q < after.len() implies outranks(
        degrees,
        #[trigger] after[p] as int,
        #[trigger] after[q] as int,
    ) by {
        if q < pos {
            assert(after[p] == before[p] && after[q] == before[q]);
        } else if q == pos {
            assert(after[p] == before[p]);
        } else if p < pos {
            assert(after[p] == before[p] && after[q] == before[q - 1]);
        } else if p == pos {
            assert(after[q] == before[q - 1]);
        } else {
            assert(after[p] == before[p - 1] && after[q] == before[q - 1]);
        }
    }
    assert forall|j: usize| j < i && before.contains(j) && !after.contains(j) implies grown.len()
        > k && j == before.last() by {
        let at = choose|at: int| 0 <= at < before.len() && before[at] == j;
        if at < pos {
            assert(grown[at] == j);
            if at < after.len() {
                assert(after[at] == j);
            }
        } else {
            assert(grown[at + 1] == j);
            if at + 1 < after.len() {
                assert(after[at + 1] == j);
            }
        }
    }
    assert(after[pos] == i);
    assert forall|j: usize, p: int|
        j < i + 1 && !after.contains(j) && 0 <= p < after.len() implies #[trigger] outranks(
        degrees,
        after[p] as int,
        j as int,
    ) by {
        if before.contains(j) {
            assert(j == before.last());
            if p < pos {
                assert(after[p] == before[p]);
            } else if p > pos {
                assert(after[p] == before[p - 1]);
            }
        } else {
            assert(before.len() == k);
            if p < pos {
                assert(after[p] == before[p]);
            } else if p > pos {
                assert(after[p] == before[p - 1]);
            } else {
                assert(outranks(degrees, before[pos] as int, j as int));
            }
        }
    }
    if after.len() < k {
        assert forall|j: usize| j < i + 1 implies after.contains(j) by {
            if j < i {
                assert(before.contains(j));
            }
        }
    }
}

/// Lists the `k` best-ranked of the nodes whose degrees are given by node
/// index: those of the highest degree, and among nodes of one degree those
/// of the lowest index. Where there are fewer than `k` nodes, all are
/// listed.
pub fn top_ranked(degrees: &[usize], k: usize) -> (top: Vec<usize>)
    ensures
        is_top(degrees@, top@, k as nat),
        top@ == top_nodes(degrees@, k as nat),
{
    let mut top: Vec<usize> = Vec::new();
    let mut i: usize = 0;
    while i < degrees.len()
        invariant
            i <= degrees@.len(),
            leads(degrees@, top@, k as nat, i as int),
            keeps_all(top@, k as nat, i as int),
        decreases degrees@.len() - i,
    {
        let mut pos: usize = 0;
        while pos < top.len() && degrees[top[pos]] >= degrees[i]
            invariant
                i < degrees@.len(),
                pos <= top@.len(),
                forall|p: int| 0 <= p < top@.len() ==> #[trigger] top@[p] < i,
                forall|p: int|
                    0 <= p < pos ==> degrees@[#[trigger] top@[p] as int] >= degrees@[i as int],
            decreases top@.len() - pos,
        {
            pos = pos + 1;
        }
        if pos < k {
            proof {
                lemma_placed(degrees@, top@, k as nat, i, pos as int);
            }
            top.insert(pos, i);
            if top.len() > k {
                top.pop();
            }
        }
        i = i + 1;
    }
    proof {
        lemma_top_unique(degrees@, top@, top_nodes(degrees@, k as nat), k as nat);
    }
    top
}

} // verus!
