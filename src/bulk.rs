use crate::keys::names_of;
use vstd::prelude::*;

verus! {

/// The most keys that one multi-get of the store takes.
pub const BATCH_SIZE: usize = 100;

/// The batches laid end to end.
pub open spec fn joined<A>(batches: Seq<Seq<A>>) -> Seq<A>
    decreases batches.len(),
{
    if batches.len() == 0 {
        Seq::empty()
    } else {
        joined(batches.drop_last()) + batches.last()
    }
}

pub open spec fn batch_views(batches: Seq<Vec<String>>) -> Seq<Seq<Seq<char>>> {
    batches.map_values(|b: Vec<String>| names_of(b@))
}

/// What one multi-get of `keys` gives on a store holding `store`: the keys
/// that have a value, with their values; keys without one are left out.
pub open spec fn fetched<V>(store: Map<Seq<char>, V>, keys: Seq<Seq<char>>) -> Map<Seq<char>, V> {
    store.restrict(keys.to_set())
}

/// The results of one multi-get per batch, put together.
pub open spec fn fetched_batches<V>(store: Map<Seq<char>, V>, batches: Seq<Seq<Seq<char>>>) -> Map<
    Seq<char>,
    V,
>
    decreases batches.len(),
{
    if batches.len() == 0 {
        Map::empty()
    } else {
        fetched_batches(store, batches.drop_last()).union_prefer_right(
            fetched(store, batches.last()),
        )
    }
}

/// Reading in batches gives what one unbounded multi-get of all the keys
/// would give.
pub proof fn lemma_batched_read_is_single_read<V>(
    store: Map<Seq<char>, V>,
    batches: Seq<Seq<Seq<char>>>,
)
    ensures
        fetched_batches(store, batches) == fetched(store, joined(batches)),
    decreases batches.len(),
{
    if batches.len() == 0 {
        assert(joined(batches).to_set() =~= Set::<Seq<char>>::empty());
        assert(fetched(store, joined(batches)) =~= Map::<Seq<char>, V>::empty());
    } else {
        let rest = batches.drop_last();
        lemma_batched_read_is_single_read(store, rest);
        let a = joined(rest);
        let b = batches.last();
        assert((a + b).to_set() =~= a.to_set().union(b.to_set())) by {
            assert forall|k: Seq<char>| (a + b).to_set().contains(k) <==> a.to_set().contains(k)
                || b.to_set().contains(k) by {
                if (a + b).contains(k) {
                    let i = choose|i: int| 0 <= i < (a + b).len() && (a + b)[i] == k;
                    if i < a.len() {
                        assert(a[i] == k);
                    } else {
                        assert(b[i - a.len()] == k);
                    }
                }
                if a.contains(k) {
                    let i = choose|i: int| 0 <= i < a.len() && a[i] == k;
                    assert((a + b)[i] == k);
                }
                if b.contains(k) {
                    let i = choose|i: int| 0 <= i < b.len() && b[i] == k;
                    assert((a + b)[a.len() + i] == k);
                }
            }
        }
        assert(fetched_batches(store, batches) =~= fetched(store, joined(batches)));
    }
}

/// Splits `keys` into consecutive batches of at most `BATCH_SIZE` keys, one
/// multi-get each: `ceil(n / 100)` batches that, laid end to end, are `keys`.
pub fn batches(keys: &Vec<String>) -> (r: Vec<Vec<String>>)
    ensures
        r@.len() == (keys@.len() + 99) / 100,
        forall|i: int| 0 <= i < r@.len() ==> 0 < #[trigger] r@[i]@.len() <= 100,
        joined(batch_views(r@)) == names_of(keys@),
{
    let n = keys.len();
    let mut r: Vec<Vec<String>> = Vec::new();
    let mut start: usize = 0;
    while start < n
        invariant
            start <= n == keys@.len(),
            start % 100 == 0 || start == n,
            r@.len() == (start + 99) / 100,
            forall|i: int| 0 <= i < r@.len() ==> 0 < #[trigger] r@[i]@.len() <= 100,
            joined(batch_views(r@)) == names_of(keys@.subrange(0, start as int)),
        decreases n - start,
    {
        let end: usize = if n - start > BATCH_SIZE {
            start + BATCH_SIZE
        } else {
            n
        };
        let mut batch: Vec<String> = Vec::new();
        let mut j: usize = start;
        while j < end
            invariant
                start <= j <= end <= n == keys@.len(),
                batch@ == keys@.subrange(start as int, j as int),
            decreases end - j,
        {
            batch.push(keys[j].clone());
            j = j + 1;
            assert(batch@ =~= keys@.subrange(start as int, j as int));
        }
        let ghost before = r@;
        r.push(batch);
        assert(batch_views(r@).drop_last() =~= batch_views(before));
        assert(names_of(keys@.subrange(0, end as int)) =~= names_of(keys@.subrange(0, start as int))
            + names_of(keys@.subrange(start as int, end as int)));
        start = end;
    }
    assert(keys@.subrange(0, n as int) =~= keys@);
    r
}

/// The values that were found, in order, without the absent ones.
pub open spec fn found_values<T>(results: Seq<(String, Option<T>)>) -> Seq<(String, T)>
    decreases results.len(),
{
    if results.len() == 0 {
        Seq::empty()
    } else {
        let rest = found_values(results.drop_last());
        match results.last().1 {
            Some(v) => rest.push((results.last().0, v)),
            None => rest,
        }
    }
}

/// Keeps the keys of a multi-get result that have a value, with the value;
/// a key without a value does not exist and is left out.
pub fn bulk_collect<T>(results: Vec<(String, Option<T>)>) -> (r: Vec<(String, T)>)
    ensures
        r@ == found_values(results@),
{
    let ghost all = results@;
    let mut rest = results;
    let mut out: Vec<(String, T)> = Vec::new();
    let n = rest.len();
    let mut i: usize = 0;
    while i < n
        invariant
            i <= n == all.len(),
            rest@ == all.subrange(i as int, n as int),
            out@ == found_values(all.subrange(0, i as int)),
        decreases n - i,
    {
        let (key, value) = rest.remove(0);
        assert(all.subrange(0, i + 1).drop_last() =~= all.subrange(0, i as int));
        assert(all[i as int] == (key, value));
        match value {
            Some(v) => out.push((key, v)),
            None => {},
        }
        i = i + 1;
        assert(rest@ =~= all.subrange(i as int, n as int));
    }
    assert(all.subrange(0, n as int) =~= all);
    out
}

} // verus!
