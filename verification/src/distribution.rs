use std::collections::HashMap;
use vstd::prelude::*;
use vstd::set_lib::lemma_len_subset;

verus! {

/// How many nodes have degree `d`.
pub open spec fn nodes_of_degree(degrees: Seq<usize>, d: usize) -> nat {
    degrees.to_multiset().count(d)
}

/// The degrees above `d` that some node has.
pub open spec fn degrees_above(degrees: Seq<usize>, d: usize) -> Set<usize> {
    Set::new(|v: usize| v > d && degrees.contains(v))
}

/// Some node has degree `d`, and fewer than `k` higher degrees occur: `d`
/// is one of the `k` highest degrees.
pub open spec fn among_highest(degrees: Seq<usize>, d: usize, k: nat) -> bool {
    degrees.contains(d) && degrees_above(degrees, d).len() < k
}

/// The degree distribution, cut down to the `k` highest degrees: each of
/// them with the number of nodes of that degree and the number of all
/// nodes. The share of a degree is the first number over the second.
pub open spec fn distribution(degrees: Seq<usize>, k: nat) -> Map<usize, (usize, usize)> {
    Map::new(
        |d: usize| among_highest(degrees, d, k),
        |d: usize| (nodes_of_degree(degrees, d) as usize, degrees.len() as usize),
    )
}

/// The sum, over the listed degrees, of the number of nodes of each.
pub open spec fn nodes_of_degrees(degrees: Seq<usize>, listed: Seq<usize>) -> nat
    decreases listed.len(),
{
    if listed.len() == 0 {
        0
    } else {
        nodes_of_degrees(degrees, listed.drop_last()) + nodes_of_degree(degrees, listed.last())
    }
}

/// `d` lies below the bound, where there is one.
pub open spec fn is_below(d: usize, bound: Option<usize>) -> bool {
    match bound {
        Some(b) => d < b,
        None => true,
    }
}

/// One more node raises the sum over the listed degrees by the number of
/// times that its degree is listed.
proof fn lemma_nodes_of_degrees_push(degrees: Seq<usize>, d: usize, listed: Seq<usize>)
    ensures
        nodes_of_degrees(degrees.push(d), listed) == nodes_of_degrees(degrees, listed)
            + listed.to_multiset().count(d),
    decreases listed.len(),
{
    broadcast use vstd::seq_lib::group_to_multiset_ensures;

    if listed.len() == 0 {
        assert(listed.to_multiset().count(d) == 0) by {
            assert(!listed.contains(d));
        }
    } else {
        lemma_nodes_of_degrees_push(degrees, d, listed.drop_last());
        assert(listed.drop_last().push(listed.last()) == listed);
    }
}

/// Over a list that names every degree that occurs, and none twice, the
/// numbers of nodes add up to the number of all nodes: the shares of all
/// degrees together are the whole.
pub proof fn lemma_shares_add_up(degrees: Seq<usize>, listed: Seq<usize>)
    requires
        listed.no_duplicates(),
        forall|a: int| 0 <= a < degrees.len() ==> listed.contains(#[trigger] degrees[a]),
    ensures
        nodes_of_degrees(degrees, listed) == degrees.len(),
    decreases degrees.len(),
{
    broadcast use vstd::seq_lib::group_to_multiset_ensures;

    if degrees.len() == 0 {
        lemma_no_nodes(degrees, listed);
    } else {
        let d = degrees.last();
        let fewer = degrees.drop_last();
        assert forall|a: int| 0 <= a < fewer.len() implies listed.contains(#[trigger] fewer[a]) by {
            assert(fewer[a] == degrees[a]);
        }
        lemma_shares_add_up(fewer, listed);
        lemma_nodes_of_degrees_push(fewer, d, listed);
        assert(fewer.push(d) == degrees);
        listed.lemma_multiset_has_no_duplicates();
        assert(listed.contains(degrees[degrees.len() - 1]));
    }
}

/// Where no more than `k` degrees occur, the distribution keeps every one
/// of them, so that its shares together are the whole.
pub proof fn lemma_distribution_keeps_all(
    degrees: Seq<usize>,
    listed: Seq<usize>,
    k: nat,
    d: usize,
)
    requires
        degrees.len() <= usize::MAX,
        listed.no_duplicates(),
        forall|a: int| 0 <= a < degrees.len() ==> listed.contains(#[trigger] degrees[a]),
        listed.len() <= k,
        degrees.contains(d),
    ensures
        distribution(degrees, k).contains_key(d),
        distribution(degrees, k)[d].0 == nodes_of_degree(degrees, d),
        distribution(degrees, k)[d].1 == degrees.len(),
{
    broadcast use vstd::seq_lib::group_to_multiset_ensures;

    let others = listed.to_set().remove(d);
    listed.unique_seq_to_set();
    assert(listed.to_set().contains(d));
    assert forall|v: usize| degrees_above(degrees, d).contains(v) implies others.contains(v) by {
        let a = choose|a: int| 0 <= a < degrees.len() && degrees[a] == v;
        assert(listed.contains(degrees[a]));
    }
    assert(degrees_above(degrees, d).subset_of(others));
    lemma_len_subset(degrees_above(degrees, d), others);
    assert(degrees.to_multiset().count(d) <= degrees.to_multiset().len());
}

/// Without nodes every sum of node numbers is zero.
proof fn lemma_no_nodes(degrees: Seq<usize>, listed: Seq<usize>)
    requires
        degrees.len() == 0,
    ensures
        nodes_of_degrees(degrees, listed) == 0,
    decreases listed.len(),
{
    broadcast use vstd::seq_lib::group_to_multiset_ensures;

    if listed.len() > 0 {
        lemma_no_nodes(degrees, listed.drop_last());
        assert(!degrees.contains(listed.last()));
    }
}

/// The highest degree that occurs below the bound, if there is one.
pub fn highest_below(degrees: &[usize], bound: Option<usize>) -> (found: Option<usize>)
    ensures
        match found {
            Some(d) => {
                &&& degrees@.contains(d)
                &&& is_below(d, bound)
                &&& forall|v: usize| degrees@.contains(v) && is_below(v, bound) ==> v <= d
            },
            None => forall|v: usize| degrees@.contains(v) ==> !is_below(v, bound),
        },
{
    let mut found: Option<usize> = None;
    let mut a: usize = 0;
    while a < degrees.len()
        invariant
            a <= degrees@.len(),
            match found {
                Some(d) => {
                    &&& degrees@.take(a as int).contains(d)
                    &&& is_below(d, bound)
                    &&& forall|v: usize|
                        degrees@.take(a as int).contains(v) && is_below(v, bound) ==> v <= d
                },
                None => forall|v: usize| degrees@.take(a as int).contains(v) ==> !is_below(v, bound),
            },
        decreases degrees@.len() - a,
    {
        let d = degrees[a];
        let below = match bound {
            Some(b) => d < b,
            None => true,
        };
        let higher = match found {
            Some(best) => d > best,
            None => true,
        };
        proof {
            let seen = degrees@.take(a as int);
            let grown = degrees@.take(a + 1);
            assert(grown == seen.push(d));
            assert forall|v: usize| grown.contains(v) implies seen.contains(v) || v == d by {
                let at = choose|at: int| 0 <= at < grown.len() && grown[at] == v;
                if at < a {
                    assert(seen[at] == v);
                }
            }
            assert(grown[a as int] == d);
            assert forall|v: usize| seen.contains(v) implies grown.contains(v) by {
                let at = choose|at: int| 0 <= at < seen.len() && seen[at] == v;
                assert(grown[at] == v);
            }
        }
        if below && higher {
            found = Some(d);
        }
        a = a + 1;
    }
    proof {
        assert(degrees@.take(a as int) == degrees@);
    }
    found
}

/// Counts the nodes of degree `d`.
pub fn count_degree(degrees: &[usize], d: usize) -> (count: usize)
    ensures
        count == nodes_of_degree(degrees@, d),
{
    broadcast use vstd::seq_lib::group_to_multiset_ensures;

    let mut count: usize = 0;
    let mut a: usize = 0;
    while a < degrees.len()
        invariant
            a <= degrees@.len(),
            count <= a,
            count == nodes_of_degree(degrees@.take(a as int), d),
        decreases degrees@.len() - a,
    {
        proof {
            let seen = degrees@.take(a as int);
            assert(degrees@.take(a + 1) == seen.push(degrees@[a as int]));
            vstd::seq_lib::to_multiset_build(seen, degrees@[a as int]);
        }
        if degrees[a] == d {
            count = count + 1;
        }
        a = a + 1;
    }
    proof {
        assert(degrees@.take(a as int) == degrees@);
    }
    count
}

/// Tallies the degrees of the nodes and keeps the `k` highest degrees that
/// occur: each is mapped to the number of nodes of that degree and the
/// number of all nodes.
pub fn degree_distribution(degrees: &[usize], k: usize) -> (table: HashMap<usize, (usize, usize)>)
    ensures
        table@ == distribution(degrees@, k as nat),
{
    broadcast use vstd::seq_lib::group_to_multiset_ensures;

    let mut table: HashMap<usize, (usize, usize)> = HashMap::new();
    let mut bound: Option<usize> = None;
    let mut rounds: usize = 0;
    let mut more: bool = true;
    while more && rounds < k
        invariant
            rounds <= k,
            table@.dom().finite(),
            table@.dom().len() == rounds,
            bound is None ==> rounds == 0,
            forall|v: usize| #[trigger]
                table@.contains_key(v) <==> degrees@.contains(v) && !is_below(v, bound) && bound is Some,
            forall|v: usize| #[trigger]
                table@.contains_key(v) ==> among_highest(degrees@, v, k as nat) && table@[v] == (
                    nodes_of_degree(degrees@, v) as usize,
                    degrees@.len() as usize,
                ),
            !more ==> forall|v: usize| degrees@.contains(v) ==> table@.contains_key(v),
        decreases (if more { 1int } else { 0int }), k - rounds,
    {
        match highest_below(degrees, bound) {
            Some(d) => {
                let count = count_degree(degrees, d);
                proof {
                    let above = degrees_above(degrees@, d);
                    assert forall|v: usize| above.contains(v) implies table@.dom().contains(v) by {
                        if is_below(v, bound) {
                            assert(v <= d);
                        }
                        assert(table@.contains_key(v));
                    }
                    assert forall|v: usize| table@.dom().contains(v) implies above.contains(v) by {
                        assert(table@.contains_key(v));
                    }
                    assert(above =~= table@.dom());
                }
                table.insert(d, (count, degrees.len()));
                bound = Some(d);
                rounds = rounds + 1;
            },
            None => {
                proof {
                    assert forall|v: usize| degrees@.contains(v) implies table@.contains_key(v) by {
                        assert(!is_below(v, bound));
                    }
                }
                more = false;
            },
        }
    }
    proof {
        assert forall|d: usize| among_highest(degrees@, d, k as nat) implies table@.contains_key(
            d,
        ) by {
            if more && !table@.contains_key(d) {
                assert(table@.dom().subset_of(degrees_above(degrees@, d)));
                assert(degrees_above(degrees@, d).subset_of(degrees@.to_set()));
                lemma_len_subset(table@.dom(), degrees_above(degrees@, d));
            }
        }
        assert(table@ =~= distribution(degrees@, k as nat));
    }
    table
}

} // verus!
