//! Sequences: selections from an index range, pages, and lists of strings.

use vstd::prelude::*;

verus! {

/// The values `item(i)` for the indices `i` below `n` that `keep` accepts, in
/// rising order of `i`.
pub open spec fn pick<T>(n: int, keep: spec_fn(int) -> bool, item: spec_fn(int) -> T) -> Seq<T>
    decreases n,
{
    if n <= 0 {
        Seq::empty()
    } else if keep(n - 1) {
        pick(n - 1, keep, item).push(item(n - 1))
    } else {
        pick(n - 1, keep, item)
    }
}

/// The values `item(i)` for the indices `i` below `n` that `keep` accepts, in
/// falling order of `i`.
pub open spec fn pick_rev<T>(n: int, keep: spec_fn(int) -> bool, item: spec_fn(int) -> T) -> Seq<T>
    decreases n,
{
    if n <= 0 {
        Seq::empty()
    } else if keep(n - 1) {
        seq![item(n - 1)] + pick_rev(n - 1, keep, item)
    } else {
        pick_rev(n - 1, keep, item)
    }
}

/// The first index from `from` on that `hit` accepts, or `n` when there is
/// none.
pub open spec fn first_hit(n: int, hit: spec_fn(int) -> bool, from: int) -> int
    decreases n - from,
{
    if from < 0 || from >= n {
        n
    } else if hit(from) {
        from
    } else {
        first_hit(n, hit, from + 1)
    }
}

/// What `first_hit` finds: the least accepted index from `from` on.
pub proof fn lemma_first_hit(n: int, hit: spec_fn(int) -> bool, from: int)
    requires
        0 <= from <= n,
    ensures
        from <= first_hit(n, hit, from) <= n,
        first_hit(n, hit, from) < n ==> hit(first_hit(n, hit, from)),
        forall|j: int| from <= j < first_hit(n, hit, from) ==> !#[trigger] hit(j),
    decreases n - from,
{
    if from < n && !hit(from) {
        lemma_first_hit(n, hit, from + 1);
    }
}

/// Searches by pointwise equal rules find the same index.
pub proof fn lemma_first_hit_ext(n: int, hit: spec_fn(int) -> bool, hit2: spec_fn(int) -> bool, from: int)
    requires
        forall|i: int| 0 <= i < n ==> #[trigger] hit(i) == hit2(i),
    ensures
        first_hit(n, hit, from) == first_hit(n, hit2, from),
    decreases n - from,
{
    if 0 <= from < n && !hit(from) {
        assert(!hit2(from));
        lemma_first_hit_ext(n, hit, hit2, from + 1);
    } else if 0 <= from < n {
        assert(hit2(from));
    }
}

/// The size of a page when no limit is given.
pub const DEFAULT_LIMIT: u64 = 50;

/// The items to skip: those asked for, or none.
pub open spec fn skip_of(from_index: Option<u128>) -> nat {
    match from_index {
        Some(start) => start as nat,
        None => 0,
    }
}

/// The size of a page: the one asked for, or the default.
pub open spec fn limit_of(limit: Option<u64>) -> nat {
    match limit {
        Some(size) => size as nat,
        None => DEFAULT_LIMIT as nat,
    }
}

/// Where a page that skips `start` items begins in a list of `len` items.
pub open spec fn page_from(len: nat, start: nat) -> nat {
    if start < len {
        start
    } else {
        len
    }
}

/// Where a page of at most `limit` items that skips `start` items ends in a
/// list of `len` items.
pub open spec fn page_to(len: nat, start: nat, limit: nat) -> nat {
    if page_from(len, start) + limit < len {
        page_from(len, start) + limit
    } else {
        len
    }
}

/// The page of `items` that skips `start` items and holds at most `limit`.
pub open spec fn page<T>(items: Seq<T>, start: nat, limit: nat) -> Seq<T> {
    items.subrange(
        page_from(items.len(), start) as int,
        page_to(items.len(), start, limit) as int,
    )
}

/// The bounds of a page; see [`page_from`] and [`page_to`].
pub fn page_bounds(len: usize, start: u128, limit: u64) -> (bounds: (usize, usize))
    ensures
        bounds.0 == page_from(len as nat, start as nat),
        bounds.1 == page_to(len as nat, start as nat, limit as nat),
        bounds.0 <= bounds.1 <= len,
{
    let from: usize = if start < len as u128 {
        start as usize
    } else {
        len
    };
    let room: usize = len - from;
    let to: usize = if (limit as u128) < room as u128 {
        from + limit as usize
    } else {
        len
    };
    (from, to)
}

/// The positions below `n` that `keep` accepts, in rising order.
pub open spec fn positions(n: int, keep: spec_fn(int) -> bool) -> Seq<usize> {
    pick(n, keep, |i: int| i as usize)
}

/// Every position of a selection lies in the range it was selected from and
/// is accepted.
pub proof fn lemma_positions(n: int, keep: spec_fn(int) -> bool)
    requires
        0 <= n <= usize::MAX,
    ensures
        forall|k: int|
            0 <= k < positions(n, keep).len() ==> 0 <= (#[trigger] positions(n, keep)[k]) < n
                && keep(positions(n, keep)[k] as int),
    decreases n,
{
    if n > 0 {
        lemma_positions(n - 1, keep);
        let before = positions(n - 1, keep);
        let all = positions(n, keep);
        assert forall|k: int| 0 <= k < all.len() implies 0 <= (#[trigger] all[k]) < n && keep(
            all[k] as int,
        ) by {
            if k < before.len() {
                assert(all[k] == before[k]);
            }
        }
    }
}

/// The page of a list of positions.
pub fn page_of(selected: &Vec<usize>, start: u128, limit: u64) -> (paged: Vec<usize>)
    ensures
        paged@ == page(selected@, start as nat, limit as nat),
{
    let (from, to) = page_bounds(selected.len(), start, limit);
    let mut paged: Vec<usize> = Vec::new();
    let mut k: usize = from;
    while k < to
        invariant
            from <= k <= to <= selected@.len(),
            paged@ == selected@.subrange(from as int, k as int),
        decreases to - k,
    {
        paged.push(selected[k]);
        assert(paged@ =~= selected@.subrange(from as int, k + 1));
        k += 1;
    }
    paged
}

/// The views of a sequence of strings.
pub open spec fn texts(strings: Seq<String>) -> Seq<Seq<char>> {
    Seq::new(strings.len(), |i: int| strings[i]@)
}

/// The view of an optional string.
pub open spec fn opt_text(text: Option<String>) -> Option<Seq<char>> {
    match text {
        Some(t) => Some(t@),
        None => None,
    }
}

/// The views of an optional list of strings.
pub open spec fn opt_texts(list: Option<Vec<String>>) -> Option<Seq<Seq<char>>> {
    match list {
        Some(strings) => Some(texts(strings@)),
        None => None,
    }
}

/// Whether `list` holds the string `text`.
pub fn contains_string(list: &Vec<String>, text: &String) -> (found: bool)
    ensures
        found == texts(list@).contains(text@),
{
    let mut i: usize = 0;
    while i < list.len()
        invariant
            i <= list.len(),
            forall|j: int| 0 <= j < i ==> texts(list@)[j] != text@,
        decreases list.len() - i,
    {
        if list[i] == *text {
            assert(texts(list@)[i as int] == text@);
            return true;
        }
        i += 1;
    }
    false
}

/// Whether no string occurs twice in `list`.
pub fn strings_distinct(list: &Vec<String>) -> (ok: bool)
    ensures
        ok == texts(list@).no_duplicates(),
{
    let ghost names = texts(list@);
    let mut j: usize = 0;
    while j < list.len()
        invariant
            j <= list@.len(),
            names == texts(list@),
            forall|a: int, b: int| 0 <= a < b < j ==> names[a] != names[b],
        decreases list.len() - j,
    {
        let mut i: usize = 0;
        while i < j
            invariant
                i <= j < list@.len(),
                names == texts(list@),
                forall|a: int| 0 <= a < i ==> names[a] != names[j as int],
            decreases j - i,
        {
            if list[i] == list[j] {
                assert(names[i as int] == names[j as int]);
                return false;
            }
            i += 1;
        }
        j += 1;
    }
    assert forall|a: int, b: int|
        0 <= a < names.len() && 0 <= b < names.len() && a != b implies names[a] != names[b] by {
        if a < b {
            assert(names[a] != names[b]);
        } else {
            assert(names[b] != names[a]);
        }
    }
    true
}

} // verus!
