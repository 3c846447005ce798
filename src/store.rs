//! An in-memory mapping store: the table of (short code, long URL) pairs,
//! kept in insertion order, with every code unique.

use vstd::prelude::*;
use crate::code::{generate_code, is_code};
use crate::retry::{after_write, Step, StoreError, WriteOutcome, MAX_ATTEMPTS};

verus! {

/// One stored association between a short code and its target.
#[derive(Debug)]
pub struct Mapping {
    pub short_code: String,
    pub long_url: String,
}

/// The mapping of a stored pair, as plain sequences of characters.
pub open spec fn pair_view(m: Mapping) -> (Seq<char>, Seq<char>) {
    (m.short_code@, m.long_url@)
}

/// The views of a sequence of strings.
pub open spec fn string_views(v: Seq<String>) -> Seq<Seq<char>> {
    v.map_values(|s: String| s@)
}

/// The view of an optional string.
pub open spec fn opt_view(o: Option<String>) -> Option<Seq<char>> {
    match o {
        Some(s) => Some(s@),
        None => None,
    }
}

/// No two entries share a code.
pub open spec fn codes_distinct(s: Seq<(Seq<char>, Seq<char>)>) -> bool {
    forall|i: int, j: int| 0 <= i < s.len() && 0 <= j < s.len() && i != j ==> s[i].0 != s[j].0
}

/// Some entry has the given code.
pub open spec fn holds_code(s: Seq<(Seq<char>, Seq<char>)>, code: Seq<char>) -> bool {
    exists|i: int| 0 <= i < s.len() && (#[trigger] s[i]).0 == code
}

/// The target stored under `code`, found from the most recent entry back.
pub open spec fn lookup_in(s: Seq<(Seq<char>, Seq<char>)>, code: Seq<char>) -> Option<Seq<char>>
    decreases s.len(),
{
    if s.len() == 0 {
        None
    } else if s.last().0 == code {
        Some(s.last().1)
    } else {
        lookup_in(s.drop_last(), code)
    }
}

/// The index of the first candidate within the retry budget whose code is
/// free, looking from index `k` on.
pub open spec fn first_free_from(
    s: Seq<(Seq<char>, Seq<char>)>,
    cands: Seq<Seq<char>>,
    k: nat,
) -> Option<nat>
    decreases MAX_ATTEMPTS - k,
{
    if k >= cands.len() || k >= MAX_ATTEMPTS {
        None
    } else if !holds_code(s, cands[k as int]) {
        Some(k)
    } else {
        first_free_from(s, cands, k + 1)
    }
}

/// The index of the first candidate within the retry budget whose code is free.
pub open spec fn first_free(s: Seq<(Seq<char>, Seq<char>)>, cands: Seq<Seq<char>>) -> Option<nat> {
    first_free_from(s, cands, 0)
}

/// Looking up a code that no entry has finds nothing.
pub proof fn lemma_lookup_absent(s: Seq<(Seq<char>, Seq<char>)>, code: Seq<char>)
    requires
        !holds_code(s, code),
    ensures
        lookup_in(s, code) is None,
    decreases s.len(),
{
    if s.len() > 0 {
        assert(s.last() == s[s.len() - 1]);
        assert forall|i: int| 0 <= i < s.drop_last().len() implies (#[trigger] s.drop_last()[i]).0 != code by {
            assert(s.drop_last()[i] == s[i]);
        }
        lemma_lookup_absent(s.drop_last(), code);
    }
}

/// With distinct codes, looking up an entry's code finds that entry's target.
pub proof fn lemma_lookup_present(s: Seq<(Seq<char>, Seq<char>)>, i: int)
    requires
        codes_distinct(s),
        0 <= i < s.len(),
    ensures
        lookup_in(s, s[i].0) == Some(s[i].1),
    decreases s.len(),
{
    if i != s.len() - 1 {
        let t = s.drop_last();
        assert(t[i] == s[i]);
        assert forall|a: int, b: int| 0 <= a < t.len() && 0 <= b < t.len() && a != b implies t[a].0 != t[b].0 by {
            assert(t[a] == s[a] && t[b] == s[b]);
        }
        lemma_lookup_present(t, i);
    }
}

/// Appending an entry with a new code keeps the codes distinct, makes the new
/// code find the new target, and leaves every other lookup as it was.
pub proof fn lemma_push_fresh(s: Seq<(Seq<char>, Seq<char>)>, code: Seq<char>, url: Seq<char>)
    requires
        codes_distinct(s),
        !holds_code(s, code),
    ensures
        codes_distinct(s.push((code, url))),
        holds_code(s.push((code, url)), code),
        lookup_in(s.push((code, url)), code) == Some(url),
        forall|k: Seq<char>|
            k != code ==> #[trigger] lookup_in(s.push((code, url)), k) == lookup_in(s, k),
{
    let t = s.push((code, url));
    assert(t.drop_last() =~= s);
    assert(t[s.len() as int] == (code, url));
    assert forall|a: int, b: int| 0 <= a < t.len() && 0 <= b < t.len() && a != b implies t[a].0 != t[b].0 by {
        if a < s.len() && b < s.len() {
            assert(t[a] == s[a] && t[b] == s[b]);
        } else if a < s.len() {
            assert(t[a] == s[a]);
        } else {
            assert(t[b] == s[b]);
        }
    }
}

/// The table of mappings.
pub struct MappingStore {
    entries: Vec<Mapping>,
}

impl MappingStore {
    /// The stored pairs, in the order they were inserted.
    pub closed spec fn entries(&self) -> Seq<(Seq<char>, Seq<char>)> {
        self.entries@.map_values(|m: Mapping| pair_view(m))
    }

    /// The store's invariant: no two mappings share a code.
    pub open spec fn wf(&self) -> bool {
        codes_distinct(self.entries())
    }

    /// Some mapping has the given code.
    pub open spec fn has_code(&self, code: Seq<char>) -> bool {
        holds_code(self.entries(), code)
    }

    /// The target stored under `code`, if any.
    pub open spec fn lookup(&self, code: Seq<char>) -> Option<Seq<char>> {
        lookup_in(self.entries(), code)
    }

    /// An empty store.
    pub fn new() -> (r: MappingStore)
        ensures
            r.wf(),
            r.entries().len() == 0,
    {
        let r = MappingStore { entries: Vec::new() };
        assert(r.entries() =~= Seq::empty());
        r
    }

    /// The number of stored mappings.
    pub fn len(&self) -> (r: usize)
        ensures
            r == self.entries().len(),
    {
        self.entries.len()
    }

    /// Whether some mapping has the given code.
    pub fn contains_code(&self, code: &String) -> (r: bool)
        ensures
            r == self.has_code(code@),
    {
        let mut i: usize = 0;
        while i < self.entries.len()
            invariant
                i <= self.entries@.len(),
                forall|j: int| 0 <= j < i ==> (#[trigger] self.entries()[j]).0 != code@,
            decreases self.entries@.len() - i,
        {
            if self.entries[i].short_code == *code {
                assert(self.entries()[i as int] == pair_view(self.entries@[i as int]));
                return true;
            }
            assert(self.entries()[i as int] == pair_view(self.entries@[i as int]));
            i = i + 1;
        }
        false
    }

    /// Finds the target of a short code. An unknown code gives `None`; reading
    /// changes nothing.
    pub fn resolve(&self, code: &str) -> (r: Option<String>)
        requires
            self.wf(),
        ensures
            opt_view(r) == self.lookup(code@),
    {
        let key = code.to_owned();
        let mut i: usize = 0;
        while i < self.entries.len()
            invariant
                i <= self.entries@.len(),
                key@ == code@,
                self.wf(),
                forall|j: int| 0 <= j < i ==> (#[trigger] self.entries()[j]).0 != code@,
            decreases self.entries@.len() - i,
        {
            assert(self.entries()[i as int] == pair_view(self.entries@[i as int]));
            if self.entries[i].short_code == key {
                proof {
                    lemma_lookup_present(self.entries(), i as int);
                }
                return Some(self.entries[i].long_url.clone());
            }
            i = i + 1;
        }
        proof {
            lemma_lookup_absent(self.entries(), code@);
        }
        None
    }

    /// Every stored mapping as a (short code, long URL) pair, in insertion
    /// order.
    pub fn list_all(&self) -> (r: Vec<(String, String)>)
        ensures
            r@.len() == self.entries().len(),
            forall|i: int|
                0 <= i < r@.len() ==> (#[trigger] r@[i]).0@ == self.entries()[i].0 && r@[i].1@
                    == self.entries()[i].1,
    {
        let mut r: Vec<(String, String)> = Vec::new();
        let mut i: usize = 0;
        while i < self.entries.len()
            invariant
                i <= self.entries@.len(),
                r@.len() == i,
                forall|j: int|
                    0 <= j < i ==> (#[trigger] r@[j]).0@ == self.entries()[j].0 && r@[j].1@
                        == self.entries()[j].1,
            decreases self.entries@.len() - i,
        {
            assert(self.entries()[i as int] == pair_view(self.entries@[i as int]));
            let m = &self.entries[i];
            r.push((m.short_code.clone(), m.long_url.clone()));
            i = i + 1;
        }
        r
    }

    /// Stores `(code, long_url)` unless the code is already in use, in which
    /// case the store is left as it was. This is the store's own uniqueness
    /// check, made together with the write.
    pub fn try_insert(&mut self, code: String, long_url: String) -> (r: WriteOutcome)
        requires
            old(self).wf(),
        ensures
            final(self).wf(),
            r == WriteOutcome::Stored || r == WriteOutcome::CodeTaken,
            (r == WriteOutcome::CodeTaken) == old(self).has_code(code@),
            r == WriteOutcome::Stored ==> final(self).entries() == old(self).entries().push(
                (code@, long_url@),
            ),
            r == WriteOutcome::CodeTaken ==> final(self).entries() == old(self).entries(),
    {
        if self.contains_code(&code) {
            return WriteOutcome::CodeTaken;
        }
        let ghost before = self.entries();
        proof {
            lemma_push_fresh(before, code@, long_url@);
        }
        let m = Mapping { short_code: code, long_url };
        self.entries.push(m);
        assert(self.entries() =~= before.push(pair_view(m)));
        WriteOutcome::Stored
    }
    /// Inserts `long_url` under the first of the given candidate codes, within
    /// the retry budget, that is not yet in use. A taken candidate is skipped,
    /// never overwritten; when every candidate tried is taken the store is left
    /// as it was and the capacity error is returned.
    pub fn insert_with_candidates(&mut self, long_url: &str, candidates: &Vec<String>) -> (r:
        Result<String, StoreError>)
        requires
            old(self).wf(),
        ensures
            final(self).wf(),
            match first_free(old(self).entries(), string_views(candidates@)) {
                Some(k) => r is Ok && r->Ok_0@ == candidates@[k as int]@ && final(self).entries()
                    == old(self).entries().push((candidates@[k as int]@, long_url@)),
                None => r == Err::<String, StoreError>(StoreError::CapacityExhausted)
                    && final(self).entries() == old(self).entries(),
            },
    {
        let ghost cands = string_views(candidates@);
        let ghost start = self.entries();
        let mut i: usize = 0;
        while i < candidates.len() && i < MAX_ATTEMPTS as usize
            invariant
                self.wf(),
                self.entries() == start,
                start == old(self).entries(),
                cands == string_views(candidates@),
                i <= candidates@.len(),
                i <= MAX_ATTEMPTS,
                first_free_from(start, cands, 0) == first_free_from(start, cands, i as nat),
            decreases MAX_ATTEMPTS - i,
        {
            assert(cands[i as int] == candidates@[i as int]@);
            let outcome = self.try_insert(candidates[i].clone(), long_url.to_owned());
            match after_write(i as u32, outcome) {
                Step::Done => {
                    return Ok(candidates[i].clone());
                },
                Step::Retry(next) => {
                    i = next as usize;
                },
                Step::Fail(e) => {
                    assert(first_free_from(start, cands, (i + 1) as nat) is None);
                    return Err(e);
                },
            }
        }
        Err(StoreError::CapacityExhausted)
    }

    /// Inserts `long_url` under a freshly drawn random code, drawing again
    /// while the code drawn is already in use, up to the retry budget.
    /// Whatever the draws, the result is the one that the retry policy gives
    /// on the codes drawn: the first free one within the budget, or the
    /// capacity error after the whole budget was drawn and found taken. On
    /// success the mapping is appended; otherwise the store is left as it
    /// was. A store that holds no well-formed code cannot refuse a draw, so
    /// there the insertion succeeds.
    pub fn insert(&mut self, long_url: &str) -> (r: Result<String, StoreError>)
        requires
            old(self).wf(),
        ensures
            final(self).wf(),
            match r {
                Ok(code) => is_code(code@) && !old(self).has_code(code@) && final(self).entries()
                    == old(self).entries().push((code@, long_url@)),
                Err(e) => e == StoreError::CapacityExhausted && final(self).entries() == old(
                    self,
                ).entries(),
            },
            exists|drawn: Seq<Seq<char>>| #[trigger] drawn_explains(old(self).entries(), drawn, r),
            (forall|i: int|
                0 <= i < old(self).entries().len() ==> !is_code(#[trigger] old(self).entries()[i].0))
                ==> r is Ok,
    {
        let ghost start = self.entries();
        let ghost drawn: Seq<Seq<char>> = Seq::empty();
        let mut attempt: u32 = 0;
        loop
            invariant
                self.wf(),
                self.entries() == start,
                start == old(self).entries(),
                attempt < MAX_ATTEMPTS,
                drawn.len() == attempt,
                forall|i: int|
                    0 <= i < drawn.len() ==> is_code(#[trigger] drawn[i]) && holds_code(
                        start,
                        drawn[i],
                    ),
                (forall|i: int| 0 <= i < start.len() ==> !is_code(#[trigger] start[i].0)) ==> attempt
                    == 0,
            decreases MAX_ATTEMPTS - attempt,
        {
            let code = generate_code();
            let outcome = self.try_insert(code.clone(), long_url.to_owned());
            let ghost tried = drawn.push(code@);
            assert(tried[drawn.len() as int] == code@);
            assert(forall|i: int| 0 <= i < drawn.len() ==> tried[i] == drawn[i]);
            match after_write(attempt, outcome) {
                Step::Done => {
                    proof {
                        lemma_first_free_last(start, tried, 0);
                    }
                    let r = Ok(code);
                    assert(drawn_explains(start, tried, r));
                    return r;
                },
                Step::Retry(next) => {
                    proof {
                        lemma_taken_is_code(start, code@);
                        drawn = tried;
                    }
                    attempt = next;
                },
                Step::Fail(e) => {
                    proof {
                        lemma_taken_is_code(start, code@);
                        lemma_all_taken_from(start, tried, 0);
                    }
                    let r = Err(e);
                    assert(drawn_explains(start, tried, r));
                    return r;
                },
            }
        }
    }
}

/// A taken well-formed code means the store holds a well-formed code.
proof fn lemma_taken_is_code(s: Seq<(Seq<char>, Seq<char>)>, code: Seq<char>)
    requires
        holds_code(s, code),
        is_code(code),
    ensures
        exists|i: int| 0 <= i < s.len() && is_code(#[trigger] s[i].0),
{
    let i = choose|i: int| 0 <= i < s.len() && (#[trigger] s[i]).0 == code;
    assert(is_code(s[i].0));
}

/// With every candidate but the last taken, and the last free and within the
/// budget, the last is the one chosen.
pub proof fn lemma_first_free_last(s: Seq<(Seq<char>, Seq<char>)>, d: Seq<Seq<char>>, k: nat)
    requires
        0 < d.len() <= MAX_ATTEMPTS,
        k < d.len(),
        forall|i: int| 0 <= i < d.len() - 1 ==> holds_code(s, #[trigger] d[i]),
        !holds_code(s, d.last()),
    ensures
        first_free_from(s, d, k) == Some((d.len() - 1) as nat),
    decreases d.len() - k,
{
    if k < d.len() - 1 {
        assert(holds_code(s, d[k as int]));
        lemma_first_free_last(s, d, k + 1);
    }
}

/// When every candidate is taken, none within the budget is chosen.
pub proof fn lemma_all_taken_from(s: Seq<(Seq<char>, Seq<char>)>, cands: Seq<Seq<char>>, k: nat)
    requires
        forall|i: int| 0 <= i < cands.len() ==> holds_code(s, #[trigger] cands[i]),
    ensures
        first_free_from(s, cands, k) is None,
    decreases MAX_ATTEMPTS - k,
{
    if k < cands.len() && k < MAX_ATTEMPTS {
        assert(holds_code(s, cands[k as int]));
        lemma_all_taken_from(s, cands, k + 1);
    }
}

/// `drawn` are well-formed codes, and `r` is what the retry policy makes of
/// them on the entries `s`: the last drawn code, the first free one within the
/// budget, or the capacity error after a whole budget of taken codes.
pub open spec fn drawn_explains(
    s: Seq<(Seq<char>, Seq<char>)>,
    drawn: Seq<Seq<char>>,
    r: Result<String, StoreError>,
) -> bool {
    &&& forall|i: int| 0 <= i < drawn.len() ==> is_code(#[trigger] drawn[i])
    &&& match r {
        Ok(c) => drawn.len() > 0 && first_free(s, drawn) == Some((drawn.len() - 1) as nat) && c@
            == drawn.last(),
        Err(e) => e == StoreError::CapacityExhausted && drawn.len() == MAX_ATTEMPTS && first_free(
            s,
            drawn,
        ) is None,
    }
}

} // verus!
