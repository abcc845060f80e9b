//! File listing: the path-traversal guard and the listing order.
//!
//! A requested path holding the substring `..` is refused outright (a minimal
//! traversal guard, not a canonicalization defense). Entries are ordered with
//! directories before files and, within each group, names ascending
//! case-insensitively; ties keep the order in which the caller handed the
//! entries in. Case folding itself comes from the standard library and is
//! named, not restated, by `lower_of`.

use vstd::prelude::*;

verus! {

use vstd::string::StringSliceAdditionalSpecFns;

/// One directory entry as read by the caller.
pub struct FileEntry {
    pub name: String,
    pub is_dir: bool,
    pub size: u64,
}

/// The UTF-8 bytes of the lowercase form of a string.
pub uninterp spec fn lower_of(s: Seq<char>) -> Seq<u8>;

/// Relies on str::to_lowercase: Unicode lowercasing, a function of the
/// characters alone; `into_bytes` only exposes the result's UTF-8 bytes.
#[verifier::external_body]
fn lower_key(s: &String) -> (r: Vec<u8>)
    ensures
        r@ == lower_of(s@),
{
    s.to_lowercase().into_bytes()
}

/// Strict lexicographic order on byte strings, the order `str`'s own
/// comparison gives on the underlying UTF-8 bytes.
pub open spec fn lex_lt(a: Seq<u8>, b: Seq<u8>) -> bool
    decreases a.len(),
{
    if b.len() == 0 {
        false
    } else if a.len() == 0 {
        true
    } else if a[0] < b[0] {
        true
    } else if a[0] > b[0] {
        false
    } else {
        lex_lt(a.skip(1), b.skip(1))
    }
}

/// Reflexive lexicographic order on byte strings.
pub open spec fn lex_le(a: Seq<u8>, b: Seq<u8>) -> bool
    decreases a.len(),
{
    if a.len() == 0 {
        true
    } else if b.len() == 0 {
        false
    } else if a[0] < b[0] {
        true
    } else if a[0] > b[0] {
        false
    } else {
        lex_le(a.skip(1), b.skip(1))
    }
}

/// `a` strictly precedes `b` in the listing: a directory precedes a plain
/// file, and within a group the lowercase names order lexicographically.
pub open spec fn file_before(a: FileEntry, b: FileEntry) -> bool {
    if a.is_dir != b.is_dir {
        a.is_dir
    } else {
        lex_lt(lower_of(a.name@), lower_of(b.name@))
    }
}

/// Inserts `e` after every element it does not strictly precede, so equal
/// entries keep their input order.
pub open spec fn insert_file(s: Seq<FileEntry>, e: FileEntry) -> Seq<FileEntry>
    decreases s.len(),
{
    if s.len() == 0 {
        seq![e]
    } else if !file_before(e, s[0]) {
        seq![s[0]] + insert_file(s.skip(1), e)
    } else {
        seq![e] + s
    }
}

/// Stable insertion sort under `file_before`.
pub open spec fn sort_files(s: Seq<FileEntry>) -> Seq<FileEntry>
    decreases s.len(),
{
    if s.len() == 0 {
        Seq::empty()
    } else {
        insert_file(sort_files(s.drop_last()), s.last())
    }
}

/// No later entry strictly precedes an earlier one.
pub open spec fn files_ordered(s: Seq<FileEntry>) -> bool {
    forall|i: int, j: int| 0 <= i <= j < s.len() ==> !file_before(s[j], s[i])
}

proof fn lemma_lex_lt_trans(a: Seq<u8>, b: Seq<u8>, c: Seq<u8>)
    requires
        lex_lt(a, b),
        lex_lt(b, c),
    ensures
        lex_lt(a, c),
    decreases a.len(),
{
    if a.len() > 0 && b.len() > 0 && c.len() > 0 && a[0] == b[0] && b[0] == c[0] {
        lemma_lex_lt_trans(a.skip(1), b.skip(1), c.skip(1));
    }
}

proof fn lemma_lex_lt_irrefl(a: Seq<u8>)
    ensures
        !lex_lt(a, a),
    decreases a.len(),
{
    if a.len() > 0 {
        lemma_lex_lt_irrefl(a.skip(1));
    }
}

proof fn lemma_file_before_irrefl(e: FileEntry)
    ensures
        !file_before(e, e),
{
    lemma_lex_lt_irrefl(lower_of(e.name@));
}

proof fn lemma_lex_total(a: Seq<u8>, b: Seq<u8>)
    requires
        !lex_lt(b, a),
    ensures
        lex_le(a, b),
    decreases a.len(),
{
    if a.len() > 0 && b.len() > 0 && a[0] == b[0] {
        lemma_lex_total(a.skip(1), b.skip(1));
    }
}

proof fn lemma_file_before_trans(a: FileEntry, b: FileEntry, c: FileEntry)
    requires
        file_before(a, b),
        file_before(b, c),
    ensures
        file_before(a, c),
{
    if a.is_dir == b.is_dir && b.is_dir == c.is_dir {
        lemma_lex_lt_trans(lower_of(a.name@), lower_of(b.name@), lower_of(c.name@));
    }
}

proof fn lemma_insert_file_len(s: Seq<FileEntry>, e: FileEntry)
    ensures
        insert_file(s, e).len() == s.len() + 1,
    decreases s.len(),
{
    if s.len() > 0 && !file_before(e, s[0]) {
        lemma_insert_file_len(s.skip(1), e);
    }
}

proof fn lemma_sort_files_len(s: Seq<FileEntry>)
    ensures
        sort_files(s).len() == s.len(),
    decreases s.len(),
{
    if s.len() > 0 {
        lemma_sort_files_len(s.drop_last());
        lemma_insert_file_len(sort_files(s.drop_last()), s.last());
    }
}

proof fn lemma_insert_file_elems(s: Seq<FileEntry>, e: FileEntry)
    ensures
        forall|k: int|
            0 <= k < insert_file(s, e).len() ==> insert_file(s, e)[k] == e || s.contains(
                insert_file(s, e)[k],
            ),
    decreases s.len(),
{
    lemma_insert_file_len(s, e);
    if s.len() == 0 {
    } else if !file_before(e, s[0]) {
        lemma_insert_file_elems(s.skip(1), e);
        lemma_insert_file_len(s.skip(1), e);
        assert forall|k: int| 0 <= k < insert_file(s, e).len() implies insert_file(s, e)[k] == e
            || s.contains(insert_file(s, e)[k]) by {
            if k == 0 {
                assert(s.contains(s[0]));
            } else {
                let x = insert_file(s.skip(1), e)[k - 1];
                assert(insert_file(s, e)[k] == x);
                if x != e {
                    let i = choose|i: int| 0 <= i < s.skip(1).len() && s.skip(1)[i] == x;
                    assert(s[i + 1] == x);
                    assert(s.contains(x));
                }
            }
        }
    } else {
        assert forall|k: int| 0 <= k < insert_file(s, e).len() implies insert_file(s, e)[k] == e
            || s.contains(insert_file(s, e)[k]) by {
            if k > 0 {
                assert(insert_file(s, e)[k] == s[k - 1]);
                assert(s.contains(s[k - 1]));
            }
        }
    }
}

proof fn lemma_insert_file_ordered(s: Seq<FileEntry>, e: FileEntry)
    requires
        files_ordered(s),
    ensures
        files_ordered(insert_file(s, e)),
    decreases s.len(),
{
    lemma_insert_file_len(s, e);
    lemma_file_before_irrefl(e);
    if s.len() == 0 {
    } else if !file_before(e, s[0]) {
        assert(files_ordered(s.skip(1)));
        lemma_insert_file_ordered(s.skip(1), e);
        lemma_insert_file_elems(s.skip(1), e);
        lemma_insert_file_len(s.skip(1), e);
        let r = insert_file(s, e);
        assert forall|i: int, j: int| 0 <= i <= j < r.len() implies !file_before(r[j], r[i]) by {
            if i == 0 && j > 0 {
                let x = insert_file(s.skip(1), e)[j - 1];
                assert(r[j] == x);
                if x == e {
                    if file_before(e, s[0]) {
                        assert(false);
                    }
                } else {
                    let m = choose|m: int| 0 <= m < s.skip(1).len() && s.skip(1)[m] == x;
                    assert(s[m + 1] == x);
                    assert(!file_before(s[m + 1], s[0]));
                }
            } else if i > 0 {
                assert(r[i] == insert_file(s.skip(1), e)[i - 1]);
                assert(r[j] == insert_file(s.skip(1), e)[j - 1]);
            }
        }
    } else {
        let r = insert_file(s, e);
        assert forall|i: int, j: int| 0 <= i <= j < r.len() implies !file_before(r[j], r[i]) by {
            if i == 0 && j > 0 {
                assert(r[j] == s[j - 1]);
                if file_before(s[j - 1], e) {
                    lemma_file_before_trans(s[j - 1], e, s[0]);
                    assert(!file_before(s[j - 1], s[0]));
                    assert(false);
                }
            } else if i > 0 {
                assert(r[i] == s[i - 1]);
                assert(r[j] == s[j - 1]);
            }
        }
    }
}

proof fn lemma_sort_files_ordered(s: Seq<FileEntry>)
    ensures
        files_ordered(sort_files(s)),
    decreases s.len(),
{
    if s.len() > 0 {
        lemma_sort_files_ordered(s.drop_last());
        lemma_insert_file_ordered(sort_files(s.drop_last()), s.last());
    }
}

proof fn lemma_insert_file_multiset(s: Seq<FileEntry>, e: FileEntry)
    ensures
        insert_file(s, e).to_multiset() == s.to_multiset().insert(e),
    decreases s.len(),
{
    broadcast use vstd::seq_lib::group_to_multiset_ensures;

    if s.len() == 0 {
        assert(insert_file(s, e) =~= Seq::empty().push(e));
    } else if !file_before(e, s[0]) {
        lemma_insert_file_multiset(s.skip(1), e);
        assert(insert_file(s, e) =~= insert_file(s.skip(1), e).insert(0, s[0]));
        assert(s =~= s.skip(1).insert(0, s[0]));
    } else {
        assert(insert_file(s, e) =~= s.insert(0, e));
    }
}

proof fn lemma_sort_files_multiset(s: Seq<FileEntry>)
    ensures
        sort_files(s).to_multiset() == s.to_multiset(),
    decreases s.len(),
{
    broadcast use vstd::seq_lib::group_to_multiset_ensures;

    if s.len() > 0 {
        lemma_sort_files_multiset(s.drop_last());
        lemma_insert_file_multiset(sort_files(s.drop_last()), s.last());
        assert(s =~= s.drop_last().push(s.last()));
    }
}

proof fn lemma_insert_file_at(s: Seq<FileEntry>, e: FileEntry, j: int)
    requires
        0 <= j <= s.len(),
        forall|k: int| 0 <= k < j ==> !file_before(e, s[k]),
        j < s.len() ==> file_before(e, s[j]),
    ensures
        insert_file(s, e) == s.insert(j, e),
    decreases s.len(),
{
    if s.len() == 0 {
        assert(insert_file(s, e) =~= s.insert(0, e));
    } else if j == 0 {
        assert(file_before(e, s[0]));
        assert(insert_file(s, e) =~= s.insert(0, e));
    } else {
        assert(!file_before(e, s[0]));
        lemma_insert_file_at(s.skip(1), e, j - 1);
        assert(seq![s[0]] + s.skip(1).insert(j - 1, e) =~= s.insert(j, e));
    }
}

/// Strict lexicographic comparison of two byte strings.
fn lex_lt_exec(a: &Vec<u8>, b: &Vec<u8>) -> (r: bool)
    ensures
        r == lex_lt(a@, b@),
{
    let mut i: usize = 0;
    proof {
        assert(a@.skip(0) =~= a@);
        assert(b@.skip(0) =~= b@);
    }
    while i < a.len() && i < b.len()
        invariant
            i <= a.len(),
            i <= b.len(),
            lex_lt(a@, b@) == lex_lt(a@.skip(i as int), b@.skip(i as int)),
        decreases a.len() - i,
    {
        if a[i] < b[i] {
            return true;
        }
        if a[i] > b[i] {
            return false;
        }
        proof {
            assert(a@.skip(i as int).skip(1) =~= a@.skip(i + 1));
            assert(b@.skip(i as int).skip(1) =~= b@.skip(i + 1));
        }
        i = i + 1;
    }
    i < b.len()
}

/// Whether `a` strictly precedes `b` in the listing; `akey` carries `a`'s
/// lowercase name so a caller inserting `a` folds it only once.
fn file_before_exec(a: &FileEntry, akey: &Vec<u8>, b: &FileEntry) -> (r: bool)
    requires
        akey@ == lower_of(a.name@),
    ensures
        r == file_before(*a, *b),
{
    if a.is_dir != b.is_dir {
        a.is_dir
    } else {
        let bkey = lower_key(&b.name);
        lex_lt_exec(akey, &bkey)
    }
}

/// First position in `out` whose entry `e` strictly precedes.
fn find_file_pos(out: &Vec<FileEntry>, e: &FileEntry, ekey: &Vec<u8>) -> (j: usize)
    requires
        ekey@ == lower_of(e.name@),
    ensures
        j <= out@.len(),
        forall|m: int| 0 <= m < j ==> !file_before(*e, out@[m]),
        j < out@.len() ==> file_before(*e, out@[j as int]),
{
    let mut j: usize = 0;
    while j < out.len()
        invariant
            ekey@ == lower_of(e.name@),
            j <= out@.len(),
            forall|m: int| 0 <= m < j ==> !file_before(*e, out@[m]),
        decreases out.len() - j,
    {
        if file_before_exec(e, ekey, &out[j]) {
            return j;
        }
        j = j + 1;
    }
    j
}

/// Orders a directory listing: directories before files, names ascending
/// case-insensitively within each group, ties keeping their input order.
pub fn sort_file_entries(input: Vec<FileEntry>) -> (r: Vec<FileEntry>)
    ensures
        r@ == sort_files(input@),
{
    let ghost full = input@;
    let mut rest = input;
    let mut out: Vec<FileEntry> = Vec::new();
    let ghost mut k: int = 0;
    proof {
        assert(full.take(0) =~= Seq::empty());
    }
    while rest.len() > 0
        invariant
            0 <= k <= full.len(),
            rest@ == full.skip(k),
            out@ == sort_files(full.take(k)),
        decreases rest.len(),
    {
        let e = rest.remove(0);
        proof {
            assert(full.skip(k).remove(0) =~= full.skip(k + 1));
            assert(e == full[k]);
        }
        let ekey = lower_key(&e.name);
        let j = find_file_pos(&out, &e, &ekey);
        proof {
            lemma_insert_file_at(out@, e, j as int);
            assert(full.take(k + 1).drop_last() =~= full.take(k));
            assert(full.take(k + 1).last() == full[k]);
        }
        out.insert(j, e);
        proof {
            k = k + 1;
        }
    }
    proof {
        assert(full.take(k) =~= full);
    }
    out
}

/// The listing law: the ordered listing is a permutation of the input, every
/// directory stands before every plain file, and within each group the
/// lowercase names ascend.
pub proof fn lemma_file_listing_law(input: Seq<FileEntry>)
    ensures
        sort_files(input).len() == input.len(),
        sort_files(input).to_multiset() == input.to_multiset(),
        forall|i: int, j: int|
            0 <= i <= j < sort_files(input).len() && sort_files(input)[j].is_dir ==> sort_files(
                input,
            )[i].is_dir,
        forall|i: int, j: int|
            0 <= i <= j < sort_files(input).len() && sort_files(input)[i].is_dir == sort_files(
                input,
            )[j].is_dir ==> lex_le(
                lower_of(sort_files(input)[i].name@),
                lower_of(sort_files(input)[j].name@),
            ),
{
    lemma_sort_files_len(input);
    lemma_sort_files_ordered(input);
    lemma_sort_files_multiset(input);
    let s = sort_files(input);
    assert forall|i: int, j: int| 0 <= i <= j < s.len() && s[j].is_dir implies s[i].is_dir by {
        assert(!file_before(s[j], s[i]));
    }
    assert forall|i: int, j: int|
        0 <= i <= j < s.len() && s[i].is_dir == s[j].is_dir implies lex_le(
        lower_of(s[i].name@),
        lower_of(s[j].name@),
    ) by {
        assert(!file_before(s[j], s[i]));
        lemma_lex_total(lower_of(s[i].name@), lower_of(s[j].name@));
    }
}

/// A byte string holds two adjacent dots: in UTF-8, exactly the strings whose
/// text holds the substring `..`.
pub open spec fn contains_dotdot(s: Seq<u8>) -> bool {
    exists|i: int| 0 <= i && i + 1 < s.len() && #[trigger] s[i] == 46u8 && s[i + 1] == 46u8
}

/// The traversal guard: whether the requested path holds the substring `..`
/// and must be refused.
pub fn path_is_forbidden(path: &str) -> (r: bool)
    ensures
        r == contains_dotdot(path.spec_bytes()),
{
    let b = path.as_bytes();
    if b.len() < 2 {
        return false;
    }
    let mut i: usize = 0;
    while i + 1 < b.len()
        invariant
            b@ == path.spec_bytes(),
            i + 1 <= b@.len(),
            forall|m: int| 0 <= m < i ==> !(#[trigger] b@[m] == 46u8 && b@[m + 1] == 46u8),
        decreases b.len() - i,
    {
        if b[i] == 46u8 && b[i + 1] == 46u8 {
            return true;
        }
        i = i + 1;
    }
    false
}

} // verus!
