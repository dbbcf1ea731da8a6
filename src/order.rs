//! Orders the parts of a split archive by the number in their extensions.
//!
//! Listing a directory sorts names as text, which is right only while the part
//! numbers have the same width: `x.7z.011` sorts before `x.7z.002` as text.
use vstd::prelude::*;
use vstd::set_lib::{lemma_int_range, lemma_subset_equality, set_int_range};

use crate::extension::{numeric_extension, numeric_suffix};
use crate::text::views;

verus! {

/// Above this many parts, listing order can no longer be trusted and the parts
/// are sorted by number.
pub const NUMERIC_SORT_THRESHOLD: usize = 10;

/// Index `a` comes before index `b`: by key, and by index among equal keys.
pub open spec fn goes_before(keys: Seq<u32>, a: int, b: int) -> bool {
    keys[a] < keys[b] || (keys[a] == keys[b] && a < b)
}

/// `order` lists each index of `keys` once, by ascending key; equal keys keep
/// their original order. Exactly one sequence has this property
/// ([`lemma_numeric_order_unique`]).
pub open spec fn is_numeric_order(keys: Seq<u32>, order: Seq<usize>) -> bool {
    &&& order.len() == keys.len()
    &&& forall|i: int| 0 <= i < order.len() ==> #[trigger] order[i] < keys.len()
    &&& forall|i: int, j: int|
        0 <= i < j < order.len() ==> goes_before(keys, #[trigger] order[i] as int, #[trigger] order[j] as int)
}

/// A numeric order lists every index of its keys.
pub proof fn lemma_numeric_order_covers(keys: Seq<u32>, order: Seq<usize>, x: int)
    requires
        is_numeric_order(keys, order),
        0 <= x < keys.len(),
    ensures
        exists|i: int| 0 <= i < order.len() && order[i] == x,
{
    let s = order.map_values(|u: usize| u as int);
    assert(s.no_duplicates()) by {
        assert forall|i: int, j: int| 0 <= i < s.len() && 0 <= j < s.len() && i != j implies s[i]
            != s[j] by {
            if i < j {
                assert(goes_before(keys, order[i] as int, order[j] as int));
            } else {
                assert(goes_before(keys, order[j] as int, order[i] as int));
            }
        }
    }
    s.unique_seq_to_set();
    let range = set_int_range(0, keys.len() as int);
    lemma_int_range(0, keys.len() as int);
    assert(s.to_set().subset_of(range)) by {
        assert forall|v: int| s.to_set().contains(v) implies range.contains(v) by {
            let i = choose|i: int| 0 <= i < s.len() && s[i] == v;
            assert(order[i] < keys.len());
        }
    }
    lemma_subset_equality(s.to_set(), range);
    assert(range.contains(x));
    assert(s.to_set().contains(x));
    let i = choose|i: int| 0 <= i < s.len() && s[i] == x;
    assert(order[i] == x);
}

/// Two numeric orders of the same keys agree on their first `k` places.
proof fn lemma_numeric_orders_agree(keys: Seq<u32>, a: Seq<usize>, b: Seq<usize>, k: int)
    requires
        is_numeric_order(keys, a),
        is_numeric_order(keys, b),
        0 <= k <= keys.len(),
    ensures
        forall|i: int| 0 <= i < k ==> a[i] == b[i],
    decreases k,
{
    if k > 0 {
        lemma_numeric_orders_agree(keys, a, b, k - 1);
        let i = k - 1;
        if a[i] != b[i] {
            lemma_numeric_order_covers(keys, a, b[i] as int);
            lemma_numeric_order_covers(keys, b, a[i] as int);
            let m = choose|m: int| 0 <= m < a.len() && a[m] == b[i];
            let j = choose|j: int| 0 <= j < b.len() && b[j] == a[i];
            if m < i {
                assert(goes_before(keys, b[m] as int, b[i] as int));
            }
            if j < i {
                assert(goes_before(keys, a[j] as int, a[i] as int));
            }
            assert(goes_before(keys, a[i] as int, a[m] as int));
            assert(goes_before(keys, b[i] as int, b[j] as int));
        }
    }
}

/// Exactly one sequence is a numeric order of given keys.
pub proof fn lemma_numeric_order_unique(keys: Seq<u32>, a: Seq<usize>, b: Seq<usize>)
    requires
        is_numeric_order(keys, a),
        is_numeric_order(keys, b),
    ensures
        a == b,
{
    lemma_numeric_orders_agree(keys, a, b, keys.len() as int);
    assert(a =~= b);
}

/// The stable ascending order of `keys`, as a list of their indices.
pub fn numeric_order(keys: &Vec<u32>) -> (order: Vec<usize>)
    ensures
        is_numeric_order(keys@, order@),
{
    let n = keys.len();
    let mut order: Vec<usize> = Vec::new();
    let mut i: usize = 0;
    while i < n
        invariant
            n == keys@.len(),
            i <= n,
            order@.len() == i,
            forall|k: int| 0 <= k < order@.len() ==> #[trigger] order@[k] < i,
            forall|a: int, b: int|
                0 <= a < b < order@.len() ==> goes_before(keys@, #[trigger] order@[a] as int, #[trigger] order@[b] as int),
        decreases n - i,
    {
        let key = keys[i];
        let mut p: usize = 0;
        while p < order.len() && keys[order[p]] <= key
            invariant
                n == keys@.len(),
                i < n,
                p <= order@.len(),
                forall|k: int| 0 <= k < order@.len() ==> #[trigger] order@[k] < i,
                forall|k: int| 0 <= k < p ==> keys@[#[trigger] order@[k] as int] <= key,
            decreases order@.len() - p,
        {
            p = p + 1;
        }
        let ghost prev = order@;
        proof {
            prev.insert_ensures(p as int, i);
            if p < prev.len() {
                assert forall|k: int| p <= k < prev.len() implies keys@[prev[k] as int] > key by {
                    if k > p {
                        assert(goes_before(keys@, prev[p as int] as int, prev[k] as int));
                    }
                }
            }
        }
        order.insert(p, i);
        assert forall|a: int, b: int|
            0 <= a < b < order@.len() implies goes_before(keys@, #[trigger] order@[a] as int, #[trigger] order@[b] as int) by {
            if b < p {
                assert(order@[a] == prev[a] && order@[b] == prev[b]);
            } else if b == p {
                assert(order@[a] == prev[a]);
            } else if a < p {
                assert(order@[a] == prev[a] && order@[b] == prev[b - 1]);
            } else if a == p {
                assert(order@[b] == prev[b - 1]);
            } else {
                assert(order@[a] == prev[a - 1] && order@[b] == prev[b - 1]);
            }
        }
        i = i + 1;
    }
    order
}

/// Every path carries a part number.
pub open spec fn all_numbered(files: Seq<Seq<char>>) -> bool {
    forall|i: int| 0 <= i < files.len() ==> (#[trigger] numeric_suffix(files[i])) is Some
}

/// The part numbers of `files`, where they all carry one.
pub open spec fn part_numbers(files: Seq<Seq<char>>) -> Seq<u32> {
    files.map_values(
        |f: Seq<char>|
            match numeric_suffix(f) {
                Some(v) => v as u32,
                None => 0,
            },
    )
}

/// The items of `items` taken in the order of the indices `order`.
pub open spec fn arranged<T>(items: Seq<T>, order: Seq<usize>) -> Seq<T> {
    order.map_values(|i: usize| items[i as int])
}

/// `sorted` is `files` in the stable ascending order of `numbers`.
pub open spec fn is_sorted_by(files: Seq<Seq<char>>, numbers: Seq<u32>, sorted: Seq<Seq<char>>) -> bool {
    exists|order: Seq<usize>| is_numeric_order(numbers, order) && sorted == arranged(files, order)
}

/// Rearranges `files` in the stable ascending order of `numbers`, the part
/// number of each file.
pub fn sort_by_numbers(files: &Vec<String>, numbers: &Vec<u32>) -> (r: Vec<String>)
    requires
        files@.len() == numbers@.len(),
    ensures
        is_sorted_by(views(files@), numbers@, views(r@)),
{
    let order = numeric_order(numbers);
    let mut r: Vec<String> = Vec::new();
    let mut k: usize = 0;
    while k < order.len()
        invariant
            is_numeric_order(numbers@, order@),
            files@.len() == numbers@.len(),
            k <= order@.len(),
            views(r@) == arranged(views(files@), order@).subrange(0, k as int),
        decreases order@.len() - k,
    {
        let f = files[order[k]].clone();
        let ghost before = views(r@);
        r.push(f);
        assert(views(r@) =~= before.push(views(files@)[order@[k as int] as int]));
        assert(views(r@) =~= arranged(views(files@), order@).subrange(0, k + 1));
        k = k + 1;
    }
    assert(arranged(views(files@), order@).subrange(0, k as int) =~= arranged(views(files@), order@));
    assert(is_numeric_order(numbers@, order@) && views(r@) == arranged(views(files@), order@));
    r
}

/// Sorts `files` by the part numbers in their extensions, stably. `None` when
/// some path carries no part number: its place cannot be known.
pub fn sort_by_numeric_extension(files: &Vec<String>) -> (r: Option<Vec<String>>)
    ensures
        r is Some <==> all_numbered(views(files@)),
        r matches Some(s) ==> is_sorted_by(views(files@), part_numbers(views(files@)), views(s@)),
{
    let mut numbers: Vec<u32> = Vec::new();
    let mut i: usize = 0;
    while i < files.len()
        invariant
            i <= files@.len(),
            numbers@.len() == i,
            forall|k: int| 0 <= k < i ==> numeric_suffix(#[trigger] views(files@)[k]) == Some(numbers@[k] as nat),
        decreases files@.len() - i,
    {
        match numeric_extension(files[i].as_str()) {
            Some(v) => numbers.push(v),
            None => {
                assert(numeric_suffix(views(files@)[i as int]) is None);
                return None;
            },
        }
        i = i + 1;
    }
    assert(numbers@ =~= part_numbers(views(files@)));
    Some(sort_by_numbers(files, &numbers))
}

/// The parts in the order they are combined: as listed, or sorted by number
/// when there are more than [`NUMERIC_SORT_THRESHOLD`] of them.
pub open spec fn is_combine_order(files: Seq<Seq<char>>, ordered: Seq<Seq<char>>) -> bool {
    if files.len() > NUMERIC_SORT_THRESHOLD {
        is_sorted_by(files, part_numbers(files), ordered)
    } else {
        ordered == files
    }
}

/// Puts the parts in the order they are combined. `None` when they have to be
/// sorted and some path carries no part number.
pub fn order_parts(files: Vec<String>) -> (r: Option<Vec<String>>)
    ensures
        r is None <==> (files@.len() > NUMERIC_SORT_THRESHOLD && !all_numbered(views(files@))),
        r matches Some(s) ==> is_combine_order(views(files@), views(s@)),
{
    if files.len() > NUMERIC_SORT_THRESHOLD {
        sort_by_numeric_extension(&files)
    } else {
        Some(files)
    }
}

} // verus!
