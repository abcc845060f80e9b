//! Process listing: order the live process table non-increasing by CPU usage
//! and keep only the busiest twenty entries.
//!
//! CPU usage is carried as basis points (hundredths of a percent). Ties keep
//! the enumeration order in which the caller handed the entries in (a stable
//! ordering), which the insertion-sort specification below pins down exactly.

use vstd::prelude::*;

verus! {

/// One live process as sampled by the caller.
pub struct ProcessEntry {
    pub pid: u32,
    pub name: String,
    pub cpu_bp: u64,
    pub memory: u64,
}

/// Inserts `e` after every element whose CPU usage is at least `e`'s, so a
/// later entry never overtakes an earlier one with the same usage.
pub open spec fn insert_desc(s: Seq<ProcessEntry>, e: ProcessEntry) -> Seq<ProcessEntry>
    decreases s.len(),
{
    if s.len() == 0 {
        seq![e]
    } else if s[0].cpu_bp >= e.cpu_bp {
        seq![s[0]] + insert_desc(s.skip(1), e)
    } else {
        seq![e] + s
    }
}

/// Stable insertion sort, non-increasing by CPU usage.
pub open spec fn sort_desc(s: Seq<ProcessEntry>) -> Seq<ProcessEntry>
    decreases s.len(),
{
    if s.len() == 0 {
        Seq::empty()
    } else {
        insert_desc(sort_desc(s.drop_last()), s.last())
    }
}

/// The listing owed for an input: the input sorted, cut to twenty entries.
pub open spec fn top_spec(s: Seq<ProcessEntry>) -> Seq<ProcessEntry> {
    if sort_desc(s).len() <= 20 {
        sort_desc(s)
    } else {
        sort_desc(s).take(20)
    }
}

/// Non-increasing by CPU usage.
pub open spec fn sorted_desc(s: Seq<ProcessEntry>) -> bool {
    forall|i: int, j: int| 0 <= i <= j < s.len() ==> s[i].cpu_bp >= s[j].cpu_bp
}

proof fn lemma_insert_desc_len(s: Seq<ProcessEntry>, e: ProcessEntry)
    ensures
        insert_desc(s, e).len() == s.len() + 1,
    decreases s.len(),
{
    if s.len() > 0 && s[0].cpu_bp >= e.cpu_bp {
        lemma_insert_desc_len(s.skip(1), e);
    }
}

proof fn lemma_sort_desc_len(s: Seq<ProcessEntry>)
    ensures
        sort_desc(s).len() == s.len(),
    decreases s.len(),
{
    if s.len() > 0 {
        lemma_sort_desc_len(s.drop_last());
        lemma_insert_desc_len(sort_desc(s.drop_last()), s.last());
    }
}

proof fn lemma_insert_desc_elems(s: Seq<ProcessEntry>, e: ProcessEntry)
    ensures
        forall|k: int|
            0 <= k < insert_desc(s, e).len() ==> insert_desc(s, e)[k] == e || s.contains(
                insert_desc(s, e)[k],
            ),
    decreases s.len(),
{
    lemma_insert_desc_len(s, e);
    if s.len() == 0 {
    } else if s[0].cpu_bp >= e.cpu_bp {
        lemma_insert_desc_elems(s.skip(1), e);
        lemma_insert_desc_len(s.skip(1), e);
        assert forall|k: int| 0 <= k < insert_desc(s, e).len() implies insert_desc(s, e)[k] == e
            || s.contains(insert_desc(s, e)[k]) by {
            if k == 0 {
                assert(s.contains(s[0]));
            } else {
                let x = insert_desc(s.skip(1), e)[k - 1];
                assert(insert_desc(s, e)[k] == x);
                if x != e {
                    let i = choose|i: int| 0 <= i < s.skip(1).len() && s.skip(1)[i] == x;
                    assert(s[i + 1] == x);
                    assert(s.contains(x));
                }
            }
        }
    } else {
        assert forall|k: int| 0 <= k < insert_desc(s, e).len() implies insert_desc(s, e)[k] == e
            || s.contains(insert_desc(s, e)[k]) by {
            if k > 0 {
                assert(insert_desc(s, e)[k] == s[k - 1]);
                assert(s.contains(s[k - 1]));
            }
        }
    }
}

proof fn lemma_insert_desc_sorted(s: Seq<ProcessEntry>, e: ProcessEntry)
    requires
        sorted_desc(s),
    ensures
        sorted_desc(insert_desc(s, e)),
    decreases s.len(),
{
    lemma_insert_desc_len(s, e);
    if s.len() == 0 {
    } else if s[0].cpu_bp >= e.cpu_bp {
        assert(sorted_desc(s.skip(1)));
        lemma_insert_desc_sorted(s.skip(1), e);
        lemma_insert_desc_elems(s.skip(1), e);
        lemma_insert_desc_len(s.skip(1), e);
        let r = insert_desc(s, e);
        assert forall|i: int, j: int| 0 <= i <= j < r.len() implies r[i].cpu_bp >= r[j].cpu_bp by {
            if i == 0 && j > 0 {
                let x = insert_desc(s.skip(1), e)[j - 1];
                assert(r[j] == x);
                if x != e {
                    let m = choose|m: int|
                        0 <= m < s.skip(1).len() && s.skip(1)[m] == x;
                    assert(s[m + 1] == x);
                    assert(s[0].cpu_bp >= s[m + 1].cpu_bp);
                }
            } else if i > 0 {
                assert(r[i] == insert_desc(s.skip(1), e)[i - 1]);
                assert(r[j] == insert_desc(s.skip(1), e)[j - 1]);
            }
        }
    } else {
        let r = insert_desc(s, e);
        assert forall|i: int, j: int| 0 <= i <= j < r.len() implies r[i].cpu_bp >= r[j].cpu_bp by {
            if i == 0 && j > 0 {
                assert(r[j] == s[j - 1]);
                assert(e.cpu_bp > s[0].cpu_bp);
                assert(s[0].cpu_bp >= s[j - 1].cpu_bp);
            } else if i > 0 {
                assert(r[i] == s[i - 1]);
                assert(r[j] == s[j - 1]);
            }
        }
    }
}

proof fn lemma_sort_desc_sorted(s: Seq<ProcessEntry>)
    ensures
        sorted_desc(sort_desc(s)),
    decreases s.len(),
{
    if s.len() > 0 {
        lemma_sort_desc_sorted(s.drop_last());
        lemma_insert_desc_sorted(sort_desc(s.drop_last()), s.last());
    }
}

proof fn lemma_insert_desc_multiset(s: Seq<ProcessEntry>, e: ProcessEntry)
    ensures
        insert_desc(s, e).to_multiset() == s.to_multiset().insert(e),
    decreases s.len(),
{
    broadcast use vstd::seq_lib::group_to_multiset_ensures;

    if s.len() == 0 {
        assert(insert_desc(s, e) =~= Seq::empty().push(e));
    } else if s[0].cpu_bp >= e.cpu_bp {
        lemma_insert_desc_multiset(s.skip(1), e);
        assert(insert_desc(s, e) =~= insert_desc(s.skip(1), e).insert(0, s[0]));
        assert(s =~= s.skip(1).insert(0, s[0]));
    } else {
        assert(insert_desc(s, e) =~= s.insert(0, e));
    }
}

proof fn lemma_sort_desc_multiset(s: Seq<ProcessEntry>)
    ensures
        sort_desc(s).to_multiset() == s.to_multiset(),
    decreases s.len(),
{
    broadcast use vstd::seq_lib::group_to_multiset_ensures;

    if s.len() > 0 {
        lemma_sort_desc_multiset(s.drop_last());
        lemma_insert_desc_multiset(sort_desc(s.drop_last()), s.last());
        assert(s =~= s.drop_last().push(s.last()));
    }
}

proof fn lemma_insert_desc_at(s: Seq<ProcessEntry>, e: ProcessEntry, j: int)
    requires
        0 <= j <= s.len(),
        forall|k: int| 0 <= k < j ==> s[k].cpu_bp >= e.cpu_bp,
        j < s.len() ==> s[j].cpu_bp < e.cpu_bp,
    ensures
        insert_desc(s, e) == s.insert(j, e),
    decreases s.len(),
{
    if s.len() == 0 {
        assert(insert_desc(s, e) =~= s.insert(0, e));
    } else if j == 0 {
        assert(s[0].cpu_bp < e.cpu_bp);
        assert(insert_desc(s, e) =~= s.insert(0, e));
    } else {
        assert(s[0].cpu_bp >= e.cpu_bp);
        lemma_insert_desc_at(s.skip(1), e, j - 1);
        assert(seq![s[0]] + s.skip(1).insert(j - 1, e) =~= s.insert(j, e));
    }
}

/// The busiest processes: the input ordered non-increasing by CPU usage
/// (ties keep their input order), truncated to twenty entries.
pub fn top_processes(input: Vec<ProcessEntry>) -> (r: Vec<ProcessEntry>)
    ensures
        r@ == top_spec(input@),
{
    let ghost full = input@;
    let mut rest = input;
    let mut out: Vec<ProcessEntry> = Vec::new();
    let ghost mut k: int = 0;
    proof {
        assert(full.take(0) =~= Seq::empty());
    }
    while rest.len() > 0
        invariant
            0 <= k <= full.len(),
            rest@ == full.skip(k),
            out@ == sort_desc(full.take(k)),
        decreases rest.len(),
    {
        let e = rest.remove(0);
        proof {
            assert(full.skip(k).remove(0) =~= full.skip(k + 1));
            assert(e == full[k]);
        }
        let mut j: usize = 0;
        while j < out.len() && out[j].cpu_bp >= e.cpu_bp
            invariant
                0 <= j <= out.len(),
                forall|m: int| 0 <= m < j ==> out@[m].cpu_bp >= e.cpu_bp,
            decreases out.len() - j,
        {
            j = j + 1;
        }
        proof {
            lemma_insert_desc_at(out@, e, j as int);
            assert(full.take(k + 1).drop_last() =~= full.take(k));
            assert(full.take(k + 1).last() == full[k]);
        }
        out.insert(j, e);
        proof {
            k = k + 1;
        }
    }
    proof {
        assert(full.take(k) =~= full);
    }
    proof {
        lemma_sort_desc_len(full);
    }
    if out.len() > 20 {
        out.truncate(20);
        proof {
            assert(out@ == top_spec(full));
        }
    }
    out
}

/// The listing law: the result never holds more than twenty entries, it is
/// ordered non-increasing by CPU usage, and its entries are drawn from the
/// input (as a multiset, no entry invented or duplicated).
pub proof fn lemma_top_processes_law(input: Seq<ProcessEntry>)
    ensures
        top_spec(input).len() <= 20,
        top_spec(input).len() == if input.len() <= 20 {
            input.len() as int
        } else {
            20
        },
        sorted_desc(top_spec(input)),
        input.len() <= 20 ==> top_spec(input).to_multiset() == input.to_multiset(),
{
    lemma_sort_desc_len(input);
    lemma_sort_desc_sorted(input);
    lemma_sort_desc_multiset(input);
    let s = sort_desc(input);
    if s.len() > 20 {
        assert forall|i: int, j: int|
            0 <= i <= j < top_spec(input).len() implies top_spec(input)[i].cpu_bp >= top_spec(
            input,
        )[j].cpu_bp by {
            assert(top_spec(input)[i] == s[i]);
            assert(top_spec(input)[j] == s[j]);
        }
    }
}

} // verus!
