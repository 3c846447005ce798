//! Properties of the store that hold across several operations.

use vstd::prelude::*;
use crate::store::{
    first_free, first_free_from, lemma_all_taken_from, lemma_lookup_absent, lemma_push_fresh,
    MappingStore,
};

verus! {

/// `stores` is a sequence of states of a store where step `k` was a
/// successful insertion of `urls[k]` that returned `codes[k]`, exactly as the
/// insertion operations describe a success.
pub open spec fn insert_steps(
    stores: Seq<MappingStore>,
    codes: Seq<Seq<char>>,
    urls: Seq<Seq<char>>,
) -> bool {
    &&& stores.len() == codes.len() + 1
    &&& codes.len() == urls.len()
    &&& forall|k: int|
        #![trigger codes[k]]
        0 <= k < codes.len() ==> !stores[k].has_code(codes[k]) && stores[k + 1].entries()
            == stores[k].entries().push((codes[k], urls[k]))
}

/// Such a sequence of successful insertions that started from an empty store.
pub open spec fn insert_history(
    stores: Seq<MappingStore>,
    codes: Seq<Seq<char>>,
    urls: Seq<Seq<char>>,
) -> bool {
    &&& insert_steps(stores, codes, urls)
    &&& stores[0].entries().len() == 0
}

proof fn lemma_steps_wf(stores: Seq<MappingStore>, codes: Seq<Seq<char>>, urls: Seq<Seq<char>>, n: int)
    requires
        insert_steps(stores, codes, urls),
        stores[0].wf(),
        0 <= n <= codes.len(),
    ensures
        stores[n].wf(),
    decreases n,
{
    if n > 0 {
        let k = n - 1;
        lemma_steps_wf(stores, codes, urls, k);
        assert(!stores[k].has_code(codes[k]));
        lemma_push_fresh(stores[k].entries(), codes[k], urls[k]);
    }
}

proof fn lemma_steps_kept(
    stores: Seq<MappingStore>,
    codes: Seq<Seq<char>>,
    urls: Seq<Seq<char>>,
    code: Seq<char>,
    j: int,
    n: int,
)
    requires
        insert_steps(stores, codes, urls),
        stores[0].wf(),
        0 <= j <= n <= codes.len(),
        stores[j].has_code(code),
    ensures
        stores[n].has_code(code),
        stores[n].lookup(code) == stores[j].lookup(code),
    decreases n - j,
{
    if n > j {
        let k = n - 1;
        lemma_steps_kept(stores, codes, urls, code, j, k);
        lemma_steps_wf(stores, codes, urls, k);
        assert(!stores[k].has_code(codes[k]));
        lemma_push_fresh(stores[k].entries(), codes[k], urls[k]);
        let e = stores[k].entries();
        let i = choose|i: int| 0 <= i < e.len() && (#[trigger] e[i]).0 == code;
        assert(stores[n].entries()[i] == e[i]);
    }
}

/// Across any number of successful insertions, a code that the store already
/// held keeps resolving to the same target: repeated reads agree.
pub proof fn reads_unchanged_by_inserts(
    stores: Seq<MappingStore>,
    codes: Seq<Seq<char>>,
    urls: Seq<Seq<char>>,
    code: Seq<char>,
)
    requires
        insert_steps(stores, codes, urls),
        stores[0].wf(),
        stores[0].has_code(code),
    ensures
        forall|m: int| 0 <= m < stores.len() ==> (#[trigger] stores[m]).lookup(code) == stores[0].lookup(
            code,
        ),
{
    assert forall|m: int| 0 <= m < stores.len() implies (#[trigger] stores[m]).lookup(code)
        == stores[0].lookup(code) by {
        lemma_steps_kept(stores, codes, urls, code, 0, m);
    }
}

/// Every code that a successful insertion returned resolves to the URL it was
/// given, however many insertions come after it.
pub proof fn resolve_after_later_inserts(
    stores: Seq<MappingStore>,
    codes: Seq<Seq<char>>,
    urls: Seq<Seq<char>>,
)
    requires
        insert_steps(stores, codes, urls),
        stores[0].wf(),
    ensures
        forall|k: int, m: int|
            0 <= k < m < stores.len() ==> (#[trigger] stores[m]).lookup(#[trigger] codes[k]) == Some(
                urls[k],
            ),
{
    assert forall|k: int, m: int| 0 <= k < m < stores.len() implies (#[trigger] stores[m]).lookup(
        #[trigger] codes[k],
    ) == Some(urls[k]) by {
        lemma_steps_wf(stores, codes, urls, k);
        assert(!stores[k].has_code(codes[k]));
        lemma_push_fresh(stores[k].entries(), codes[k], urls[k]);
        lemma_steps_kept(stores, codes, urls, codes[k], k + 1, m);
    }
}

proof fn lemma_history_prefix(
    stores: Seq<MappingStore>,
    codes: Seq<Seq<char>>,
    urls: Seq<Seq<char>>,
    n: int,
)
    requires
        insert_history(stores, codes, urls),
        0 <= n <= codes.len(),
    ensures
        stores[n].wf(),
        stores[n].entries().len() == n,
        forall|j: int| 0 <= j < n ==> #[trigger] stores[n].entries()[j] == (codes[j], urls[j]),
    decreases n,
{
    if n > 0 {
        lemma_history_prefix(stores, codes, urls, n - 1);
        let k = n - 1;
        assert(!stores[k].has_code(codes[k]));
        lemma_push_fresh(stores[k].entries(), codes[k], urls[k]);
        assert forall|j: int| 0 <= j < n implies #[trigger] stores[n].entries()[j] == (
            codes[j],
            urls[j],
        ) by {
            if j < k {
                assert(stores[n].entries()[j] == stores[k].entries()[j]);
            }
        }
    }
}

/// After a run of successful insertions into an empty store, the store holds
/// exactly one mapping per insertion, in order, each one the code returned
/// with the URL given; so listing returns exactly those mappings.
pub proof fn listing_complete(stores: Seq<MappingStore>, codes: Seq<Seq<char>>, urls: Seq<Seq<char>>)
    requires
        insert_history(stores, codes, urls),
    ensures
        stores.last().entries().len() == codes.len(),
        forall|j: int|
            0 <= j < codes.len() ==> #[trigger] stores.last().entries()[j] == (codes[j], urls[j]),
{
    lemma_history_prefix(stores, codes, urls, codes.len() as int);
}

/// No two successful insertions return the same code, and the store stays
/// free of shared codes throughout.
pub proof fn issued_codes_unique(
    stores: Seq<MappingStore>,
    codes: Seq<Seq<char>>,
    urls: Seq<Seq<char>>,
)
    requires
        insert_history(stores, codes, urls),
    ensures
        forall|k: int| 0 <= k < stores.len() ==> (#[trigger] stores[k]).wf(),
        forall|i: int, j: int| 0 <= i < codes.len() && 0 <= j < codes.len() && i != j ==> codes[i]
            != codes[j],
{
    assert forall|k: int| 0 <= k < stores.len() implies (#[trigger] stores[k]).wf() by {
        lemma_history_prefix(stores, codes, urls, k);
    }
    let n = codes.len() as int;
    lemma_history_prefix(stores, codes, urls, n);
    assert forall|i: int, j: int| 0 <= i < n && 0 <= j < n && i != j implies codes[i] != codes[j] by {
        assert(stores[n].entries()[i] == (codes[i], urls[i]));
        assert(stores[n].entries()[j] == (codes[j], urls[j]));
    }
}

/// After a run of successful insertions into an empty store, a code that none
/// of them returned resolves to nothing.
pub proof fn unissued_code_not_found(
    stores: Seq<MappingStore>,
    codes: Seq<Seq<char>>,
    urls: Seq<Seq<char>>,
    code: Seq<char>,
)
    requires
        insert_history(stores, codes, urls),
        !codes.contains(code),
    ensures
        stores.last().lookup(code) is None,
{
    let n = codes.len() as int;
    lemma_history_prefix(stores, codes, urls, n);
    let s = stores[n].entries();
    assert forall|i: int| 0 <= i < s.len() implies (#[trigger] s[i]).0 != code by {
        assert(s[i] == (codes[i], urls[i]));
    }
    lemma_lookup_absent(s, code);
}

/// Resolving the code that a successful insertion returned gives back the URL
/// that was inserted, and every other code resolves as it did before.
pub proof fn resolve_after_insert(
    before: MappingStore,
    after: MappingStore,
    code: Seq<char>,
    url: Seq<char>,
)
    requires
        before.wf(),
        !before.has_code(code),
        after.entries() == before.entries().push((code, url)),
    ensures
        after.wf(),
        after.lookup(code) == Some(url),
        forall|k: Seq<char>| k != code ==> #[trigger] after.lookup(k) == before.lookup(k),
{
    lemma_push_fresh(before.entries(), code, url);
}

/// When the first candidate is already in use and the second is free, the
/// insertion skips the first and succeeds with the second.
pub proof fn collision_recovery(store: MappingStore, used: Seq<char>, fresh: Seq<char>)
    requires
        store.has_code(used),
        !store.has_code(fresh),
    ensures
        first_free(store.entries(), seq![used, fresh]) == Some(1nat),
{
    let c = seq![used, fresh];
    assert(c[0] == used && c[1] == fresh);
    assert(first_free_from(store.entries(), c, 1) == Some(1nat));
}

/// When every candidate is already in use, the insertion finds no free code:
/// it reports exhausted capacity and overwrites nothing.
pub proof fn capacity_exhaustion(store: MappingStore, cands: Seq<Seq<char>>)
    requires
        forall|i: int| 0 <= i < cands.len() ==> store.has_code(#[trigger] cands[i]),
    ensures
        first_free(store.entries(), cands) is None,
{
    lemma_all_taken_from(store.entries(), cands, 0);
}

} // verus!
