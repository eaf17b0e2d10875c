//! Sorting: the order in which items come out, as a list of their places.
use vstd::prelude::*;

verus! {

/// What an item is sorted by: three numbers, the first deciding first.
pub type SortKey = (u128, u128, u128);

pub open spec fn key_less(a: SortKey, b: SortKey) -> bool {
    ||| a.0 < b.0
    ||| a.0 == b.0 && a.1 < b.1
    ||| a.0 == b.0 && a.1 == b.1 && a.2 < b.2
}

/// Whether the item at `a` comes out before the item at `b`: by key, and among
/// equal keys by place.
pub open spec fn comes_first(keys: Seq<SortKey>, a: int, b: int) -> bool {
    key_less(keys[a], keys[b]) || (keys[a] == keys[b] && a < b)
}

/// Every place below `n`, each once.
pub open spec fn is_arrangement(order: Seq<usize>, n: nat) -> bool {
    &&& order.len() == n
    &&& forall|i: int| 0 <= i < order.len() ==> (#[trigger] order[i]) < n
    &&& order.no_duplicates()
}

/// The places of `keys` in the order in which a stable sort puts them.
pub open spec fn is_stable_order(order: Seq<usize>, keys: Seq<SortKey>) -> bool {
    &&& is_arrangement(order, keys.len())
    &&& forall|i: int, j: int|
        0 <= i < j < order.len() ==> comes_first(
            keys,
            #[trigger] order[i] as int,
            #[trigger] order[j] as int,
        )
}

/// The order in which a stable sort puts keys.
pub open spec fn sorted_places(keys: Seq<SortKey>) -> Seq<usize> {
    choose|order: Seq<usize>| is_stable_order(order, keys)
}

fn less(a: &SortKey, b: &SortKey) -> (smaller: bool)
    ensures
        smaller == key_less(*a, *b),
{
    a.0 < b.0 || (a.0 == b.0 && (a.1 < b.1 || (a.1 == b.1 && a.2 < b.2)))
}

/// Sorts by key, keeping the order of items with equal keys.
pub fn stable_order(keys: &Vec<SortKey>) -> (order: Vec<usize>)
    ensures
        is_stable_order(order@, keys@),
        order@ == sorted_places(keys@),
{
    let mut order: Vec<usize> = Vec::new();
    let mut next: usize = 0;
    while next < keys.len()
        invariant
            0 <= next <= keys@.len(),
            is_arrangement(order@, next as nat),
            forall|i: int, j: int|
                0 <= i < j < order@.len() ==> comes_first(
                    keys@,
                    #[trigger] order@[i] as int,
                    #[trigger] order@[j] as int,
                ),
        decreases keys@.len() - next,
    {
        let mut place: usize = order.len();
        while place > 0 && less(&keys[next], &keys[order[place - 1]])
            invariant
                0 <= place <= order@.len(),
                next < keys@.len(),
                is_arrangement(order@, next as nat),
                forall|i: int|
                    place <= i < order@.len() ==> key_less(
                        keys@[next as int],
                        keys@[#[trigger] order@[i] as int],
                    ),
            decreases place,
        {
            place -= 1;
        }
        let ghost before = order@;
        order.insert(place, next);
        proof {
            assert forall|i: int| 0 <= i < order@.len() implies (#[trigger] order@[i]) < next
                + 1 by {
                if i < place {
                    assert(order@[i] == before[i]);
                } else if i > place {
                    assert(order@[i] == before[i - 1]);
                }
            }
            assert forall|i: int, j: int| 0 <= i < j < order@.len() implies comes_first(
                keys@,
                #[trigger] order@[i] as int,
                #[trigger] order@[j] as int,
            ) by {
                if j < place {
                    assert(order@[i] == before[i] && order@[j] == before[j]);
                } else if j == place {
                    assert(order@[i] == before[i]);
                    if i < place - 1 {
                        assert(comes_first(keys@, before[i] as int, before[place - 1] as int));
                    }
                } else if i < place {
                    assert(order@[i] == before[i] && order@[j] == before[j - 1]);
                } else if i == place {
                    assert(order@[j] == before[j - 1]);
                } else {
                    assert(order@[i] == before[i - 1] && order@[j] == before[j - 1]);
                }
            }
            assert forall|i: int, j: int| 0 <= i < j < order@.len() implies order@[i]
                != order@[j] by {
                assert(comes_first(keys@, order@[i] as int, order@[j] as int));
            }
        }
        next += 1;
    }
    proof {
        sorting_is_possible(keys@);
        stable_orders_agree(order@, sorted_places(keys@), keys@);
    }
    order
}

/// Where a new key goes among sorted ones: behind those that are not greater.
proof fn lemma_insertion_point(
    order: Seq<usize>,
    keys: Seq<SortKey>,
    new: SortKey,
    upto: int,
) -> (place: int)
    requires
        0 <= upto <= order.len(),
        forall|i: int|
            upto <= i < order.len() ==> key_less(new, keys[#[trigger] order[i] as int]),
    ensures
        0 <= place <= upto,
        forall|i: int|
            place <= i < order.len() ==> key_less(new, keys[#[trigger] order[i] as int]),
        place > 0 ==> !key_less(new, keys[order[place - 1] as int]),
    decreases upto,
{
    if upto > 0 && key_less(new, keys[order[upto - 1] as int]) {
        lemma_insertion_point(order, keys, new, upto - 1)
    } else {
        upto
    }
}

proof fn lemma_insert(order: Seq<usize>, keys: Seq<SortKey>, place: int)
    requires
        0 < keys.len() <= usize::MAX,
        is_stable_order(order, keys.drop_last()),
        0 <= place <= order.len(),
        forall|i: int|
            place <= i < order.len() ==> key_less(keys.last(), keys[#[trigger] order[i] as int]),
        place > 0 ==> !key_less(keys.last(), keys[order[place - 1] as int]),
    ensures
        is_stable_order(order.insert(place, (keys.len() - 1) as usize), keys),
{
    let shorter = keys.drop_last();
    let last = (keys.len() - 1) as usize;
    let grown = order.insert(place, last);
    assert forall|i: int| 0 <= i < grown.len() implies (#[trigger] grown[i]) < keys.len() by {
        if i < place {
            assert(grown[i] == order[i]);
        } else if i > place {
            assert(grown[i] == order[i - 1]);
        }
    }
    assert forall|i: int, j: int| 0 <= i < j < grown.len() implies comes_first(
        keys,
        #[trigger] grown[i] as int,
        #[trigger] grown[j] as int,
    ) by {
        if j < place {
            assert(grown[i] == order[i] && grown[j] == order[j]);
            assert(comes_first(shorter, order[i] as int, order[j] as int));
        } else if j == place {
            assert(grown[i] == order[i]);
            assert(order[i] < shorter.len());
            if i < place - 1 {
                assert(comes_first(shorter, order[i] as int, order[place - 1] as int));
            }
        } else if i < place {
            assert(grown[i] == order[i] && grown[j] == order[j - 1]);
            assert(comes_first(shorter, order[i] as int, order[j - 1] as int));
        } else if i == place {
            assert(grown[j] == order[j - 1]);
        } else {
            assert(grown[i] == order[i - 1] && grown[j] == order[j - 1]);
            assert(comes_first(shorter, order[i - 1] as int, order[j - 1] as int));
        }
    }
    assert forall|i: int, j: int| 0 <= i < j < grown.len() implies grown[i] != grown[j] by {
        assert(comes_first(keys, grown[i] as int, grown[j] as int));
    }
}

/// Any list can be sorted.
pub proof fn sorting_is_possible(keys: Seq<SortKey>)
    requires
        keys.len() <= usize::MAX,
    ensures
        is_stable_order(sorted_places(keys), keys),
    decreases keys.len(),
{
    if keys.len() == 0 {
        assert(is_stable_order(Seq::<usize>::empty(), keys));
    } else {
        let shorter = keys.drop_last();
        sorting_is_possible(shorter);
        let order = sorted_places(shorter);
        let place = lemma_insertion_point(order, keys, keys.last(), order.len() as int);
        lemma_insert(order, keys, place);
    }
}

/// There is one such order only.
pub proof fn stable_orders_agree(a: Seq<usize>, b: Seq<usize>, keys: Seq<SortKey>)
    requires
        is_stable_order(a, keys),
        is_stable_order(b, keys),
    ensures
        a == b,
{
    assert forall|i: int| 0 <= i < a.len() implies a[i] == b[i] by {
        lemma_same_place(a, b, keys, i);
    }
    assert(a =~= b);
}

proof fn lemma_same_place(a: Seq<usize>, b: Seq<usize>, keys: Seq<SortKey>, i: int)
    requires
        is_stable_order(a, keys),
        is_stable_order(b, keys),
        0 <= i < a.len(),
    ensures
        a[i] == b[i],
    decreases i,
{
    assert forall|j: int| 0 <= j < i implies a[j] == b[j] by {
        lemma_same_place(a, b, keys, j);
    }
    if a[i] != b[i] {
        lemma_arrangement_covers(b, keys.len(), a[i]);
        lemma_arrangement_covers(a, keys.len(), b[i]);
        let p = choose|p: int| 0 <= p < b.len() && b[p] == a[i];
        let q = choose|q: int| 0 <= q < a.len() && a[q] == b[i];
        if p < i {
            assert(a[p] == b[p]);
        } else if q < i {
            assert(a[q] == b[q]);
        } else {
            assert(comes_first(keys, b[i] as int, b[p] as int));
            assert(comes_first(keys, a[i] as int, a[q] as int));
        }
    }
}

/// An arrangement leaves no place out.
pub proof fn lemma_arrangement_covers(order: Seq<usize>, n: nat, place: usize)
    requires
        is_arrangement(order, n),
        place < n,
    ensures
        order.contains(place),
{
    let places = order.map_values(|p: usize| p as int);
    assert(places.no_duplicates()) by {
        assert forall|i: int, j: int| 0 <= i < j < places.len() implies places[i] != places[j] by {
            assert(order[i] != order[j]);
        }
    }
    let all = vstd::set_lib::set_int_range(0, n as int);
    vstd::set_lib::lemma_int_range(0, n as int);
    places.unique_seq_to_set();
    assert(places.to_set().subset_of(all)) by {
        assert forall|x: int| places.to_set().contains(x) implies all.contains(x) by {
            let i = choose|i: int| 0 <= i < places.len() && places[i] == x;
            assert(order[i] < n);
        }
    }
    vstd::set_lib::lemma_subset_equality(places.to_set(), all);
    assert(all.contains(place as int));
    assert(places.contains(place as int));
    let i = choose|i: int| 0 <= i < places.len() && places[i] == place as int;
    assert(order[i] == place);
}

/// Keys are compared number by number, the first that differs deciding, and of
/// two different keys one is the smaller.
pub proof fn the_first_difference_decides(a: SortKey, b: SortKey)
    ensures
        a.0 < b.0 ==> key_less(a, b),
        a.0 == b.0 && a.1 < b.1 ==> key_less(a, b),
        a.0 == b.0 && a.1 == b.1 && a.2 < b.2 ==> key_less(a, b),
        key_less(a, b) ==> !key_less(b, a),
        a != b ==> key_less(a, b) || key_less(b, a),
{
}

} // verus!
