//! The collection as the user browses it: rows of three, search and sort, the
//! dashboard's picks and the top-ten rankings.

use vstd::prelude::*;

use crate::price::{price_cents, price_cents_of};
use crate::seasons::{fall, spring, summer, winter};

use crate::text::{
    chars_of, contains_chars, contains_seq, occurs_at, lemma_contains_written_out, lemma_lex_irreflexive, lemma_lex_total, lemma_lex_transitive,
    lex_less, lex_less_chars, lowercase, spec_lowercase, str_contains, str_equal, string_of, sub_chars, trim_chars,
    trimmed,
};

verus! {

/// `row` is row `r` of `items` laid out in rows of `row_size`: it starts at item
/// `r * row_size`, holds `row_size` items or what is left, each a clone.
pub open spec fn is_row_of<T: Clone>(items: Seq<T>, row: Seq<T>, r: int, row_size: int) -> bool {
    &&& r * row_size < items.len()
    &&& row.len() == if items.len() - r * row_size < row_size {
        items.len() - r * row_size
    } else {
        row_size
    }
    &&& forall|c: int| 0 <= c < row.len() ==> cloned(items[r * row_size + c], #[trigger] row[c])
}

/// The items laid out in rows of `row_size` (the last row may be shorter), each
/// item a clone of the one it stands for.
pub fn group_into_rows<T: Clone>(items: &[T], row_size: usize) -> (rows: Vec<Vec<T>>)
    requires
        row_size > 0,
    ensures
        rows@.len() * row_size >= items@.len(),
        forall|r: int| 0 <= r < rows@.len() ==> is_row_of(items@, #[trigger] rows@[r]@, r, row_size as int),
{
    let n = items.len();
    let mut rows: Vec<Vec<T>> = Vec::new();
    let mut start: usize = 0;
    assert(0 * row_size == 0) by (nonlinear_arith);
    while start < n
        invariant
            n == items@.len(),
            row_size > 0,
            start <= n,
            start == rows@.len() * row_size,
            forall|r: int| 0 <= r < rows@.len() ==> is_row_of(items@, #[trigger] rows@[r]@, r, row_size as int),
        decreases n - start,
    {
        let end: usize = if n - start < row_size {
            n
        } else {
            start + row_size
        };
        let mut row: Vec<T> = Vec::new();
        let mut k: usize = start;
        while k < end
            invariant
                start <= k <= end <= n,
                n == items@.len(),
                row@.len() == k - start,
                forall|c: int| 0 <= c < row@.len() ==> cloned(items@[start + c], #[trigger] row@[c]),
            decreases end - k,
        {
            let item = items[k].clone();
            row.push(item);
            k = k + 1;
        }
        let ghost m = rows@.len() as int;
        assert(is_row_of(items@, row@, m, row_size as int));
        let ghost old_rows = rows@;
        rows.push(row);
        assert((m + 1) * row_size == m * row_size + row_size) by (nonlinear_arith);
        assert forall|r: int| 0 <= r < rows@.len() implies is_row_of(
            items@,
            #[trigger] rows@[r]@,
            r,
            row_size as int,
        ) by {
            if r < m {
                assert(rows@[r] == old_rows[r]);
            }
        }
        if end == n {
            return rows;
        }
        start = end;
    }
    rows
}


/// Position `y` stands in the list `r`.
pub open spec fn lists(r: Seq<usize>, y: int) -> bool {
    exists|t: int| 0 <= t < r.len() && r[t] as int == y
}

/// `r` lists every candidate once, in the order `before`.
pub open spec fn is_arrangement(r: Seq<usize>, candidate: spec_fn(int) -> bool, before: spec_fn(int, int) -> bool) -> bool {
    &&& r.no_duplicates()
    &&& forall|a: int| 0 <= a < r.len() ==> #[trigger] candidate(r[a] as int)
    &&& forall|y: int| #[trigger] candidate(y) ==> lists(r, y)
    &&& forall|a: int, b: int| 0 <= a < b < r.len() ==> #[trigger] before(r[a] as int, r[b] as int)
}

/// `r` lists the first `limit` candidates in the order `before` (all of them
/// when there are fewer), in that order.
pub open spec fn is_ranked(
    r: Seq<usize>,
    candidate: spec_fn(int) -> bool,
    before: spec_fn(int, int) -> bool,
    limit: int,
) -> bool {
    &&& r.len() <= limit
    &&& r.no_duplicates()
    &&& forall|a: int| 0 <= a < r.len() ==> #[trigger] candidate(r[a] as int)
    &&& forall|a: int, b: int| 0 <= a < b < r.len() ==> #[trigger] before(r[a] as int, r[b] as int)
    &&& forall|y: int|
        #[trigger] candidate(y) && !lists(r, y) ==> r.len() == limit && forall|a: int|
            0 <= a < r.len() ==> #[trigger] before(r[a] as int, y)
}

/// The keys by which positions are ranked: integers or texts, highest or
/// lowest first; equal keys keep the order of the positions.
enum RankKeys {
    Numbers(Vec<i128>, bool),
    Texts(Vec<Vec<char>>, bool),
}

spec fn keys_len(k: RankKeys) -> int {
    match k {
        RankKeys::Numbers(v, _) => v@.len() as int,
        RankKeys::Texts(v, _) => v@.len() as int,
    }
}

/// Position `i` ranks before position `j`.
spec fn ranks_before(k: RankKeys, i: int, j: int) -> bool {
    match k {
        RankKeys::Numbers(v, descending) => {
            let a = v@[i];
            let b = v@[j];
            if descending {
                a > b || (a == b && i < j)
            } else {
                a < b || (a == b && i < j)
            }
        },
        RankKeys::Texts(v, descending) => {
            let a = v@[i]@;
            let b = v@[j]@;
            (if descending {
                lex_less(b, a)
            } else {
                lex_less(a, b)
            }) || (a == b && i < j)
        },
    }
}

/// `ranks_before` is a strict total order on positions.
proof fn lemma_rank_order(k: RankKeys, i: int, j: int, l: int)
    ensures
        !ranks_before(k, i, i),
        i != j ==> ranks_before(k, i, j) || ranks_before(k, j, i),
        !(ranks_before(k, i, j) && ranks_before(k, j, i)),
        ranks_before(k, i, j) && ranks_before(k, j, l) ==> ranks_before(k, i, l),
{
    match k {
        RankKeys::Numbers(v, descending) => {},
        RankKeys::Texts(v, descending) => {
            let a = v@[i]@;
            let b = v@[j]@;
            let c = v@[l]@;
            lemma_lex_irreflexive(a);
            lemma_lex_irreflexive(b);
            lemma_lex_total(a, b);
            lemma_lex_total(b, c);
            lemma_lex_total(a, c);
            if ranks_before(k, i, j) && ranks_before(k, j, l) {
                if descending {
                    if lex_less(b, a) && lex_less(c, b) {
                        lemma_lex_transitive(c, b, a);
                    }
                } else {
                    if lex_less(a, b) && lex_less(b, c) {
                        lemma_lex_transitive(a, b, c);
                    }
                }
            }
        },
    }
}

fn ranks_first(k: &RankKeys, i: usize, j: usize) -> (r: bool)
    requires
        i < keys_len(*k),
        j < keys_len(*k),
    ensures
        r == ranks_before(*k, i as int, j as int),
{
    match k {
        RankKeys::Numbers(v, descending) => {
            let a = v[i];
            let b = v[j];
            if *descending {
                a > b || (a == b && i < j)
            } else {
                a < b || (a == b && i < j)
            }
        },
        RankKeys::Texts(v, descending) => {
            let a = &v[i];
            let b = &v[j];
            let key_first = if *descending {
                lex_less_chars(b, a)
            } else {
                lex_less_chars(a, b)
            };
            if key_first {
                true
            } else if i < j {
                let ab = lex_less_chars(a, b);
                let ba = lex_less_chars(b, a);
                proof {
                    lemma_lex_total(a@, b@);
                }
                !ab && !ba
            } else {
                false
            }
        },
    }
}


spec fn sorted_by(k: RankKeys, r: Seq<usize>) -> bool {
    forall|a: int, b: int| 0 <= a < b < r.len() ==> ranks_before(k, r[a] as int, r[b] as int)
}

/// The candidates in rank order (an insertion sort).
fn arrange(keys: &RankKeys, cands: &Vec<usize>) -> (r: Vec<usize>)
    requires
        forall|a: int| 0 <= a < cands@.len() ==> (#[trigger] cands@[a] as int) < keys_len(*keys),
        cands@.no_duplicates(),
    ensures
        r@.len() == cands@.len(),
        r@.no_duplicates(),
        forall|x: usize| r@.contains(x) <==> cands@.contains(x),
        sorted_by(*keys, r@),
{
    let mut r: Vec<usize> = Vec::new();
    let mut m: usize = 0;
    while m < cands.len()
        invariant
            m <= cands@.len(),
            forall|a: int| 0 <= a < cands@.len() ==> (#[trigger] cands@[a] as int) < keys_len(*keys),
            cands@.no_duplicates(),
            r@.len() == m,
            r@.no_duplicates(),
            forall|x: usize| r@.contains(x) <==> cands@.take(m as int).contains(x),
            sorted_by(*keys, r@),
        decreases cands.len() - m,
    {
        let c = cands[m];
        assert forall|q: int| 0 <= q < r@.len() implies (#[trigger] r@[q] as int) < keys_len(*keys)
            && r@[q] != c by {
            assert(r@.contains(r@[q]));
            let t = choose|t: int| 0 <= t < m && cands@.take(m as int)[t] == r@[q];
            assert(cands@[t] == r@[q]);
        }
        let mut p: usize = 0;
        while p < r.len() && !ranks_first(keys, c, r[p])
            invariant
                p <= r@.len(),
                (c as int) < keys_len(*keys),
                forall|q: int| 0 <= q < r@.len() ==> (#[trigger] r@[q] as int) < keys_len(*keys) && r@[q] != c,
                forall|q: int| 0 <= q < p ==> !ranks_before(*keys, c as int, #[trigger] r@[q] as int),
            decreases r.len() - p,
        {
            p = p + 1;
        }
        let ghost old_r = r@;
        proof {
            old_r.insert_ensures(p as int, c);
            assert forall|q: int| 0 <= q < p implies ranks_before(*keys, #[trigger] old_r[q] as int, c as int) by {
                lemma_rank_order(*keys, old_r[q] as int, c as int, c as int);
            }
        }
        r.insert(p, c);
        proof {
            assert forall|a: int, b: int| 0 <= a < b < r@.len() implies ranks_before(
                *keys,
                r@[a] as int,
                r@[b] as int,
            ) by {
                if b < p {
                } else if b == p {
                } else if a < p {
                    assert(r@[b] == old_r[b - 1]);
                } else if a == p {
                    assert(r@[b] == old_r[b - 1]);
                    if b - 1 > p {
                        lemma_rank_order(*keys, c as int, old_r[p as int] as int, old_r[b - 1] as int);
                    }
                } else {
                    assert(r@[a] == old_r[a - 1]);
                    assert(r@[b] == old_r[b - 1]);
                }
            }
            let ghost next = cands@.take(m + 1);
            assert(next == cands@.take(m as int).push(c));
            assert forall|x: usize| r@.contains(x) <==> cands@.take(m + 1).contains(x) by {
                if r@.contains(x) {
                    let t = choose|t: int| 0 <= t < r@.len() && r@[t] == x;
                    if t < p {
                        assert(old_r.contains(x));
                    } else if t > p {
                        assert(old_r[t - 1] == x);
                        assert(old_r.contains(x));
                    }
                    if x != c {
                        let u = choose|u: int| 0 <= u < m && cands@.take(m as int)[u] == x;
                        assert(cands@.take(m + 1)[u] == x);
                    } else {
                        assert(cands@.take(m + 1)[m as int] == x);
                    }
                }
                if cands@.take(m + 1).contains(x) {
                    let u = choose|u: int| 0 <= u < next.len() && next[u] == x;
                    if u == m {
                        assert(r@[p as int] == x);
                    } else {
                        assert(cands@.take(m as int)[u] == x);
                        assert(old_r.contains(x));
                        let t = choose|t: int| 0 <= t < old_r.len() && old_r[t] == x;
                        if t < p {
                            assert(r@[t] == x);
                        } else {
                            assert(r@[t + 1] == x);
                        }
                    }
                }
            }
            assert forall|a: int, b: int| 0 <= a < r@.len() && 0 <= b < r@.len() && a != b implies r@[a]
                != r@[b] by {
                if a != p && b != p {
                    let a1 = if a < p { a } else { a - 1 };
                    let b1 = if b < p { b } else { b - 1 };
                    assert(r@[a] == old_r[a1]);
                    assert(r@[b] == old_r[b1]);
                } else if a == p {
                    let b1 = if b < p { b } else { b - 1 };
                    assert(r@[b] == old_r[b1]);
                } else {
                    let a1 = if a < p { a } else { a - 1 };
                    assert(r@[a] == old_r[a1]);
                }
            }
        }
        m = m + 1;
    }
    assert(cands@.take(cands@.len() as int) == cands@);
    r
}


/// The positions whose flag is set, in increasing order.
fn positions_where(flags: &Vec<bool>) -> (r: Vec<usize>)
    ensures
        r@.no_duplicates(),
        forall|a: int| 0 <= a < r@.len() ==> (#[trigger] r@[a] as int) < flags@.len(),
        forall|x: usize| r@.contains(x) <==> (x < flags@.len() && flags@[x as int]),
        forall|y: int| #[trigger] lists(r@, y) == (0 <= y < flags@.len() && flags@[y]),
{
    let mut r: Vec<usize> = Vec::new();
    let mut i: usize = 0;
    while i < flags.len()
        invariant
            i <= flags@.len(),
            forall|a: int, b: int| 0 <= a < b < r@.len() ==> r@[a] < r@[b],
            forall|a: int| 0 <= a < r@.len() ==> (#[trigger] r@[a] as int) < i,
            forall|x: usize| r@.contains(x) <==> (x < i && flags@[x as int]),
        decreases flags.len() - i,
    {
        let ghost old_r = r@;
        if flags[i] {
            r.push(i);
            assert(r@[old_r.len() as int] == i);
        }
        assert forall|x: usize| r@.contains(x) <==> (x < i + 1 && flags@[x as int]) by {
            if r@.contains(x) && x != i {
                let t = choose|t: int| 0 <= t < r@.len() && r@[t] == x;
                assert(old_r[t] == x);
            }
            if x < i && flags@[x as int] {
                assert(old_r.contains(x));
                let t = choose|t: int| 0 <= t < old_r.len() && old_r[t] == x;
                assert(r@[t] == x);
            }
        }
        i = i + 1;
    }
    assert forall|y: int| #[trigger] lists(r@, y) == (0 <= y < flags@.len() && flags@[y]) by {
        lemma_lists_flags(r@, flags@, y);
    }
    r
}

proof fn lemma_ranked_transfer(
    r: Seq<usize>,
    c1: spec_fn(int) -> bool,
    b1: spec_fn(int, int) -> bool,
    c2: spec_fn(int) -> bool,
    b2: spec_fn(int, int) -> bool,
    limit: int,
)
    requires
        is_ranked(r, c1, b1, limit),
        forall|y: int| #[trigger] c1(y) == c2(y),
        forall|i: int, j: int| c1(i) && c1(j) ==> #[trigger] b1(i, j) == b2(i, j),
    ensures
        is_ranked(r, c2, b2, limit),
{
    assert forall|a: int| 0 <= a < r.len() implies #[trigger] c2(r[a] as int) by {
        assert(c1(r[a] as int));
    }
    assert forall|a: int, b: int| 0 <= a < b < r.len() implies #[trigger] b2(r[a] as int, r[b] as int) by {
        assert(c1(r[a] as int));
        assert(c1(r[b] as int));
        assert(b1(r[a] as int, r[b] as int));
    }
    assert forall|y: int| #[trigger] c2(y) && !lists(r, y) implies r.len() == limit
        && forall|a: int| 0 <= a < r.len() ==> #[trigger] b2(r[a] as int, y) by {
        assert(c1(y));
        assert forall|a: int| 0 <= a < r.len() implies #[trigger] b2(r[a] as int, y) by {
            assert(c1(r[a] as int));
            assert(b1(r[a] as int, y));
        }
    }
}

proof fn lemma_arrangement_transfer(
    r: Seq<usize>,
    c1: spec_fn(int) -> bool,
    b1: spec_fn(int, int) -> bool,
    c2: spec_fn(int) -> bool,
    b2: spec_fn(int, int) -> bool,
)
    requires
        is_arrangement(r, c1, b1),
        forall|y: int| #[trigger] c1(y) == c2(y),
        forall|i: int, j: int| c1(i) && c1(j) ==> #[trigger] b1(i, j) == b2(i, j),
    ensures
        is_arrangement(r, c2, b2),
{
    assert forall|a: int| 0 <= a < r.len() implies #[trigger] c2(r[a] as int) by {
        assert(c1(r[a] as int));
    }
    assert forall|a: int, b: int| 0 <= a < b < r.len() implies #[trigger] b2(r[a] as int, r[b] as int) by {
        assert(c1(r[a] as int));
        assert(c1(r[b] as int));
        assert(b1(r[a] as int, r[b] as int));
    }
    assert forall|y: int| #[trigger] c2(y) implies lists(r, y) by {
        assert(c1(y));
    }
}

/// All candidates, in rank order.
fn rank_all(keys: &RankKeys, cands: &Vec<usize>) -> (r: Vec<usize>)
    requires
        forall|a: int| 0 <= a < cands@.len() ==> (#[trigger] cands@[a] as int) < keys_len(*keys),
        cands@.no_duplicates(),
    ensures
        is_arrangement(r@, |y: int| lists(cands@, y), |i: int, j: int| ranks_before(*keys, i, j)),
{
    let r = arrange(keys, cands);
    proof {
        assert forall|a: int| 0 <= a < r@.len() implies #[trigger] lists(cands@, r@[a] as int) by {
            assert(r@.contains(r@[a]));
            let t = choose|t: int| 0 <= t < cands@.len() && cands@[t] == r@[a];
        }
        assert forall|y: int| #[trigger] lists(cands@, y) implies lists(r@, y) by {
            let t = choose|t: int| 0 <= t < cands@.len() && cands@[t] as int == y;
            assert(cands@.contains(cands@[t]));
            let u = choose|u: int| 0 <= u < r@.len() && r@[u] == cands@[t];
        }
    }
    r
}

/// The first `limit` candidates in rank order.
fn rank_top(keys: &RankKeys, cands: &Vec<usize>, limit: usize) -> (r: Vec<usize>)
    requires
        forall|a: int| 0 <= a < cands@.len() ==> (#[trigger] cands@[a] as int) < keys_len(*keys),
        cands@.no_duplicates(),
    ensures
        is_ranked(r@, |y: int| lists(cands@, y), |i: int, j: int| ranks_before(*keys, i, j), limit as int),
{
    let mut r = arrange(keys, cands);
    let ghost all = r@;
    r.truncate(limit);
    proof {
        assert forall|a: int| 0 <= a < r@.len() implies #[trigger] lists(cands@, r@[a] as int) by {
            assert(all[a] == r@[a]);
            assert(all.contains(all[a]));
            let t = choose|t: int| 0 <= t < cands@.len() && cands@[t] == r@[a];
        }
        assert forall|y: int| #[trigger] lists(cands@, y) && !lists(r@, y) implies r@.len() == limit
            && forall|a: int| 0 <= a < r@.len() ==> #[trigger] ranks_before(*keys, r@[a] as int, y) by {
            let s = choose|s: int| 0 <= s < cands@.len() && cands@[s] as int == y;
            assert(cands@.contains(cands@[s]));
            let t = choose|t: int| 0 <= t < all.len() && all[t] == cands@[s];
            if t < limit {
                assert(r@[t] == all[t]);
            }
            assert(t >= r@.len());
            assert forall|a: int| 0 <= a < r@.len() implies #[trigger] ranks_before(*keys, r@[a] as int, y) by {
                assert(r@[a] == all[a]);
            }
        }
        assert forall|a: int, b: int| 0 <= a < r@.len() && 0 <= b < r@.len() && a != b implies r@[a] != r@[b] by {
            assert(r@[a] == all[a]);
            assert(r@[b] == all[b]);
        }
    }
    r
}


/// Position `y` stands in `r` exactly when its flag is set.
proof fn lemma_lists_flags(r: Seq<usize>, flags: Seq<bool>, y: int)
    requires
        forall|x: usize| r.contains(x) <==> (x < flags.len() && flags[x as int]),
        flags.len() <= usize::MAX,
    ensures
        lists(r, y) == (0 <= y < flags.len() && flags[y]),
{
    if lists(r, y) {
        let t = choose|t: int| 0 <= t < r.len() && r[t] as int == y;
        assert(r.contains(r[t]));
    }
    if 0 <= y < flags.len() && flags[y] {
        assert(r.contains(y as usize));
        let t = choose|t: int| 0 <= t < r.len() && r[t] == y as usize;
    }
}

/// A fragrance as the collection views see it. A rating is given by an order
/// key: an integer that orders as the ratings do. `user_ratings` holds, for each
/// user by name, the key of that user's rating.
pub struct Entry {
    pub id: i64,
    pub brand: String,
    pub name: String,
    pub seasons: String,
    pub category: String,
    pub price: String,
    pub purchase_date: String,
    pub notes: String,
    pub rating_key: u64,
    pub user_ratings: Vec<(String, u64)>,
}

/// A person who rates fragrances.
pub struct User {
    pub id: i64,
    pub name: String,
}

/// The id of the first user with the given name.
pub fn find_user_id(users: &Vec<User>, name: &str) -> (r: Option<i64>)
    ensures
        match r {
            Some(id) => exists|k: int|
                0 <= k < users@.len() && users@[k].name@ == name@ && users@[k].id == id && forall|j: int|
                    0 <= j < k ==> users@[j].name@ != name@,
            None => forall|k: int| 0 <= k < users@.len() ==> users@[k].name@ != name@,
        },
{
    let mut k: usize = 0;
    while k < users.len()
        invariant
            k <= users@.len(),
            forall|j: int| 0 <= j < k ==> users@[j].name@ != name@,
        decreases users.len() - k,
    {
        if str_equal(users[k].name.as_str(), name) {
            return Some(users[k].id);
        }
        k = k + 1;
    }
    None
}

/// What the collection can be sorted by.
#[derive(Debug, Clone, Copy, PartialEq, Eq)]
pub enum SortKey {
    Rating,
    Name,
    Category,
    Price,
    PurchaseDate,
    Notes,
    UserRating,
    Listed,
}

/// A sort option of the collection view: what to sort by, whether the largest
/// (or last in text order) comes first, and for a user's rating, whose.
pub struct SortChoice {
    pub key: SortKey,
    pub descending: bool,
    pub user: String,
}

pub open spec fn user_prefix() -> Seq<char> {
    "Rating by "@
}

pub open spec fn high_to_low_suffix() -> Seq<char> {
    ": High \u{2192} Low"@
}

pub open spec fn low_to_high_suffix() -> Seq<char> {
    ": Low \u{2192} High"@
}

/// The option reads "Rating by <user>" followed by `suffix`.
pub open spec fn is_user_option(option: Seq<char>, suffix: Seq<char>) -> bool {
    &&& option.len() >= user_prefix().len() + suffix.len()
    &&& option.take(user_prefix().len() as int) == user_prefix()
    &&& option.skip(option.len() - suffix.len()) == suffix
}

/// The user named in a "Rating by <user>: .." option.
pub open spec fn option_user(option: Seq<char>, suffix: Seq<char>) -> Seq<char> {
    option.subrange(user_prefix().len() as int, option.len() - suffix.len())
}

/// The sort that an option of the collection view names: the key, whether it
/// runs from high to low (or Z to A, or new to old), and the user whose rating
/// it goes by. Any other option keeps the listing order.
pub open spec fn spec_sort_choice(option: Seq<char>) -> (SortKey, bool, Seq<char>) {
    if option == "Rating: High \u{2192} Low"@ {
        (SortKey::Rating, true, Seq::empty())
    } else if option == "Rating: Low \u{2192} High"@ {
        (SortKey::Rating, false, Seq::empty())
    } else if option == "Name: A \u{2192} Z"@ {
        (SortKey::Name, false, Seq::empty())
    } else if option == "Name: Z \u{2192} A"@ {
        (SortKey::Name, true, Seq::empty())
    } else if option == "Category: A \u{2192} Z"@ {
        (SortKey::Category, false, Seq::empty())
    } else if option == "Category: Z \u{2192} A"@ {
        (SortKey::Category, true, Seq::empty())
    } else if option == "Price: Low \u{2192} High"@ {
        (SortKey::Price, false, Seq::empty())
    } else if option == "Price: High \u{2192} Low"@ {
        (SortKey::Price, true, Seq::empty())
    } else if option == "Purchase Date: Old \u{2192} New"@ {
        (SortKey::PurchaseDate, false, Seq::empty())
    } else if option == "Purchase Date: New \u{2192} Old"@ {
        (SortKey::PurchaseDate, true, Seq::empty())
    } else if option == "Notes: A \u{2192} Z"@ {
        (SortKey::Notes, false, Seq::empty())
    } else if option == "Notes: Z \u{2192} A"@ {
        (SortKey::Notes, true, Seq::empty())
    } else if is_user_option(option, high_to_low_suffix()) {
        (SortKey::UserRating, true, option_user(option, high_to_low_suffix()))
    } else if is_user_option(option, low_to_high_suffix()) {
        (SortKey::UserRating, false, option_user(option, low_to_high_suffix()))
    } else {
        (SortKey::Listed, false, Seq::empty())
    }
}

/// `p` begins `s`.
fn starts_with_chars(s: &Vec<char>, p: &Vec<char>) -> (r: bool)
    ensures
        r == (p@.len() <= s@.len() && s@.take(p@.len() as int) == p@),
{
    if p.len() > s.len() {
        return false;
    }
    let mut k: usize = 0;
    while k < p.len()
        invariant
            k <= p@.len() <= s@.len(),
            forall|t: int| 0 <= t < k ==> s@[t] == p@[t],
        decreases p.len() - k,
    {
        if s[k] != p[k] {
            assert(s@.take(p@.len() as int)[k as int] != p@[k as int]);
            return false;
        }
        k = k + 1;
    }
    assert(s@.take(p@.len() as int) == p@);
    true
}

/// `p` ends `s`.
fn ends_with_chars(s: &Vec<char>, p: &Vec<char>) -> (r: bool)
    ensures
        r == (p@.len() <= s@.len() && s@.skip(s@.len() - p@.len()) == p@),
{
    if p.len() > s.len() {
        return false;
    }
    let n = s.len();
    let off = n - p.len();
    let mut k: usize = 0;
    while k < p.len()
        invariant
            k <= p@.len() <= s@.len(),
            n == s@.len(),
            off + p@.len() == n,
            forall|t: int| 0 <= t < k ==> s@[off + t] == p@[t],
        decreases p.len() - k,
    {
        if s[off + k] != p[k] {
            assert(s@.skip(off as int)[k as int] != p@[k as int]);
            return false;
        }
        k = k + 1;
    }
    assert(s@.skip(off as int) == p@);
    true
}

/// The "Rating by <user>" option with the given ending, and its user.
fn user_option(option: &Vec<char>, suffix: &str) -> (r: Option<String>)
    ensures
        match r {
            Some(u) => is_user_option(option@, suffix@) && u@ == option_user(option@, suffix@),
            None => !is_user_option(option@, suffix@),
        },
{
    let prefix = chars_of("Rating by ");
    let end = chars_of(suffix);
    if option.len() >= prefix.len() && option.len() - prefix.len() >= end.len() && starts_with_chars(
        option,
        &prefix,
    ) && ends_with_chars(option, &end) {
        let user = sub_chars(option, prefix.len(), option.len() - end.len());
        Some(string_of(&user))
    } else {
        None
    }
}

fn choice(key: SortKey, descending: bool) -> (c: SortChoice)
    ensures
        c.key == key,
        c.descending == descending,
        c.user@ == Seq::<char>::empty(),
{
    SortChoice { key, descending, user: String::new() }
}

/// The sort that an option of the collection view names.
pub fn sort_choice(option: &str) -> (c: SortChoice)
    ensures
        (c.key, c.descending, c.user@) == spec_sort_choice(option@),
{
    if str_equal(option, "Rating: High \u{2192} Low") {
        choice(SortKey::Rating, true)
    } else if str_equal(option, "Rating: Low \u{2192} High") {
        choice(SortKey::Rating, false)
    } else if str_equal(option, "Name: A \u{2192} Z") {
        choice(SortKey::Name, false)
    } else if str_equal(option, "Name: Z \u{2192} A") {
        choice(SortKey::Name, true)
    } else if str_equal(option, "Category: A \u{2192} Z") {
        choice(SortKey::Category, false)
    } else if str_equal(option, "Category: Z \u{2192} A") {
        choice(SortKey::Category, true)
    } else if str_equal(option, "Price: Low \u{2192} High") {
        choice(SortKey::Price, false)
    } else if str_equal(option, "Price: High \u{2192} Low") {
        choice(SortKey::Price, true)
    } else if str_equal(option, "Purchase Date: Old \u{2192} New") {
        choice(SortKey::PurchaseDate, false)
    } else if str_equal(option, "Purchase Date: New \u{2192} Old") {
        choice(SortKey::PurchaseDate, true)
    } else if str_equal(option, "Notes: A \u{2192} Z") {
        choice(SortKey::Notes, false)
    } else if str_equal(option, "Notes: Z \u{2192} A") {
        choice(SortKey::Notes, true)
    } else {
        let o = chars_of(option);
        match user_option(&o, ": High \u{2192} Low") {
            Some(user) => SortChoice { key: SortKey::UserRating, descending: true, user },
            None => match user_option(&o, ": Low \u{2192} High") {
                Some(user) => SortChoice { key: SortKey::UserRating, descending: false, user },
                None => choice(SortKey::Listed, false),
            },
        }
    }
}

/// Higher rating first; equal ratings keep their order.
pub open spec fn rating_high_first(es: Seq<Entry>, i: int, j: int) -> bool {
    es[i].rating_key > es[j].rating_key || (es[i].rating_key == es[j].rating_key && i < j)
}

/// Most recently added (highest id) first; equal ids keep their order.
pub open spec fn newest_first(es: Seq<Entry>, i: int, j: int) -> bool {
    es[i].id > es[j].id || (es[i].id == es[j].id && i < j)
}

/// The key of a user's rating among an entry's ratings (the first with that
/// user's name); 0 when the user has none there.
pub open spec fn user_rating_key(ratings: Seq<(String, u64)>, user: Seq<char>) -> int
    decreases ratings.len(),
{
    if ratings.len() == 0 {
        0
    } else if ratings[0].0@ == user {
        ratings[0].1 as int
    } else {
        user_rating_key(ratings.drop_first(), user)
    }
}

/// Whether a sort key orders by text.
pub open spec fn is_text_key(key: SortKey) -> bool {
    key == SortKey::Name || key == SortKey::Category || key == SortKey::PurchaseDate || key == SortKey::Notes
}

/// The text by which an entry is sorted: names, categories and notes in lower
/// case, purchase dates as written (year first, so that text order is time order).
pub open spec fn text_key(e: Entry, key: SortKey) -> Seq<char> {
    match key {
        SortKey::Name => spec_lowercase(e.name@),
        SortKey::Category => spec_lowercase(e.category@),
        SortKey::Notes => spec_lowercase(e.notes@),
        _ => e.purchase_date@,
    }
}

/// The number by which an entry is sorted: its rating's key, its price in cents,
/// or a user's rating key; nothing (all equal) when the collection keeps its order.
pub open spec fn number_key(e: Entry, key: SortKey, user: Seq<char>) -> int {
    match key {
        SortKey::Rating => e.rating_key as int,
        SortKey::Price => price_cents(e.price@),
        SortKey::UserRating => user_rating_key(e.user_ratings@, user),
        _ => 0,
    }
}

/// `a` before `b` (ascending, or descending), equal keys in the order of positions.
pub open spec fn number_first(a: int, b: int, descending: bool, i: int, j: int) -> bool {
    (if descending {
        a > b
    } else {
        a < b
    }) || (a == b && i < j)
}

/// Text `a` before text `b` (A to Z, or Z to A), equal texts in the order of positions.
pub open spec fn text_first(a: Seq<char>, b: Seq<char>, descending: bool, i: int, j: int) -> bool {
    (if descending {
        lex_less(b, a)
    } else {
        lex_less(a, b)
    }) || (a == b && i < j)
}

/// Entry `i` comes before entry `j` in the collection sorted by `key`.
pub open spec fn collection_before(
    es: Seq<Entry>,
    key: SortKey,
    descending: bool,
    user: Seq<char>,
    i: int,
    j: int,
) -> bool {
    if is_text_key(key) {
        text_first(text_key(es[i], key), text_key(es[j], key), descending, i, j)
    } else {
        number_first(number_key(es[i], key, user), number_key(es[j], key, user), descending, i, j)
    }
}

/// The key of a user's rating among an entry's ratings.
fn user_rating_of(ratings: &Vec<(String, u64)>, user: &str) -> (r: u64)
    ensures
        r as int == user_rating_key(ratings@, user@),
{
    let mut k: usize = 0;
    assert(ratings@.skip(0) == ratings@);
    while k < ratings.len()
        invariant
            k <= ratings@.len(),
            user_rating_key(ratings@, user@) == user_rating_key(ratings@.skip(k as int), user@),
        decreases ratings.len() - k,
    {
        assert(ratings@.skip(k as int)[0] == ratings@[k as int]);
        assert(ratings@.skip(k as int).drop_first() == ratings@.skip(k + 1));
        if str_equal(ratings[k].0.as_str(), user) {
            return ratings[k].1;
        }
        k = k + 1;
    }
    0
}

/// The search text as it is matched: trimmed and in lower case.
pub open spec fn search_query(search_text: Seq<char>) -> Seq<char> {
    spec_lowercase(trimmed(search_text))
}

/// An entry matches a search when the query is empty or its brand or its name,
/// in lower case, holds the query.
pub open spec fn matches_search(e: Entry, query: Seq<char>) -> bool {
    query.len() == 0 || contains_seq(spec_lowercase(e.brand@), query) || contains_seq(
        spec_lowercase(e.name@),
        query,
    )
}

/// Keys that order entries by rating, highest first.
fn rating_keys(entries: &Vec<Entry>) -> (k: RankKeys)
    ensures
        keys_len(k) == entries@.len(),
        forall|i: int, j: int|
            0 <= i < entries@.len() && 0 <= j < entries@.len() ==> #[trigger] ranks_before(k, i, j)
                == rating_high_first(entries@, i, j),
{
    let mut v: Vec<i128> = Vec::new();
    let mut i: usize = 0;
    while i < entries.len()
        invariant
            i <= entries@.len(),
            v@.len() == i,
            forall|t: int| 0 <= t < i ==> #[trigger] v@[t] == entries@[t].rating_key as i128,
        decreases entries.len() - i,
    {
        v.push(entries[i].rating_key as i128);
        i = i + 1;
    }
    RankKeys::Numbers(v, true)
}

/// Keys that order entries by id, highest first.
fn id_keys(entries: &Vec<Entry>) -> (k: RankKeys)
    ensures
        keys_len(k) == entries@.len(),
        forall|i: int, j: int|
            0 <= i < entries@.len() && 0 <= j < entries@.len() ==> #[trigger] ranks_before(k, i, j)
                == newest_first(entries@, i, j),
{
    let mut v: Vec<i128> = Vec::new();
    let mut i: usize = 0;
    while i < entries.len()
        invariant
            i <= entries@.len(),
            v@.len() == i,
            forall|t: int| 0 <= t < i ==> #[trigger] v@[t] == entries@[t].id as i128,
        decreases entries.len() - i,
    {
        v.push(entries[i].id as i128);
        i = i + 1;
    }
    RankKeys::Numbers(v, true)
}

/// The collection as shown: the entries that match the search, in the chosen
/// sort order (positions into `entries`).
pub fn collection_order(entries: &Vec<Entry>, sort_option: &str, search_text: &str) -> (r: Vec<usize>)
    ensures
        ({
            let (key, descending, user) = spec_sort_choice(sort_option@);
            is_arrangement(
                r@,
                |y: int| 0 <= y < entries@.len() && matches_search(entries@[y], search_query(search_text@)),
                |i: int, j: int| collection_before(entries@, key, descending, user, i, j),
            )
        }),
        trimmed(search_text@).len() == 0 ==> r@.len() == entries@.len() && forall|y: int|
            0 <= y < entries@.len() ==> lists(r@, y),
{
    let query = lowercase(string_of(&trim_chars(&chars_of(search_text))).as_str());
    let q = chars_of(query.as_str());
    let sort = sort_choice(sort_option);
    let ghost key = sort.key;
    let ghost user = sort.user@;
    let by_text = match sort.key {
        SortKey::Name | SortKey::Category | SortKey::PurchaseDate | SortKey::Notes => true,
        _ => false,
    };
    let mut flags: Vec<bool> = Vec::new();
    let mut texts: Vec<Vec<char>> = Vec::new();
    let mut numbers: Vec<i128> = Vec::new();
    let mut i: usize = 0;
    while i < entries.len()
        invariant
            i <= entries@.len(),
            q@ == search_query(search_text@),
            key == sort.key,
            user == sort.user@,
            by_text == is_text_key(key),
            flags@.len() == i,
            texts@.len() == i,
            numbers@.len() == i,
            forall|t: int| 0 <= t < i ==> #[trigger] flags@[t] == matches_search(entries@[t], q@),
            forall|t: int| 0 <= t < i ==> #[trigger] texts@[t]@ == text_key(entries@[t], key),
            forall|t: int| 0 <= t < i ==> #[trigger] numbers@[t] == number_key(entries@[t], key, user),
        decreases entries.len() - i,
    {
        let e = &entries[i];
        let brand = chars_of(lowercase(e.brand.as_str()).as_str());
        let name = chars_of(lowercase(e.name.as_str()).as_str());
        let hit = q.len() == 0 || contains_chars(&brand, &q) || contains_chars(&name, &q);
        flags.push(hit);
        let text = match sort.key {
            SortKey::Name => name,
            SortKey::Category => chars_of(lowercase(e.category.as_str()).as_str()),
            SortKey::Notes => chars_of(lowercase(e.notes.as_str()).as_str()),
            _ => chars_of(e.purchase_date.as_str()),
        };
        texts.push(text);
        let number: i128 = match sort.key {
            SortKey::Rating => e.rating_key as i128,
            SortKey::Price => price_cents_of(e.price.as_str()),
            SortKey::UserRating => user_rating_of(&e.user_ratings, sort.user.as_str()) as i128,
            _ => 0,
        };
        numbers.push(number);
        i = i + 1;
    }
    let cands = positions_where(&flags);
    let keys = if by_text {
        RankKeys::Texts(texts, sort.descending)
    } else {
        RankKeys::Numbers(numbers, sort.descending)
    };
    let r = rank_all(&keys, &cands);
    proof {
        let c2 = |y: int| 0 <= y < entries@.len() && matches_search(entries@[y], search_query(search_text@));
        let b2 = |i: int, j: int| collection_before(entries@, key, sort.descending, user, i, j);
        lemma_arrangement_transfer(r@, |y: int| lists(cands@, y), |i: int, j: int| ranks_before(keys, i, j), c2, b2);
        if trimmed(search_text@).len() == 0 {
            assert forall|y: int| 0 <= y < entries@.len() implies lists(r@, y) by {
                assert(c2(y));
            }
            assert forall|a: int| 0 <= a < r@.len() implies (r@[a] as int) < entries@.len() by {
                assert(c2(r@[a] as int));
            }
            lemma_lists_all(r@, entries@.len() as int);
        }
    }
    r
}

/// A list without repeats that holds every position below `n`, and only such
/// positions, has `n` elements.
proof fn lemma_lists_all(r: Seq<usize>, n: int)
    requires
        0 <= n,
        r.no_duplicates(),
        forall|y: int| 0 <= y < n ==> lists(r, y),
        forall|a: int| 0 <= a < r.len() ==> (r[a] as int) < n,
    ensures
        r.len() == n,
{
    let m = r.map_values(|x: usize| x as int);
    let s = m.to_set();
    let full = Set::new(|y: int| 0 <= y < n);
    assert(s =~= full) by {
        assert forall|y: int| full.contains(y) implies s.contains(y) by {
            assert(lists(r, y));
            let t = choose|t: int| 0 <= t < r.len() && r[t] as int == y;
            assert(m[t] == y);
        }
        assert forall|y: int| s.contains(y) implies full.contains(y) by {
            let t = choose|t: int| 0 <= t < m.len() && m[t] == y;
        }
    }
    vstd::set_lib::lemma_int_range(0, n);
    assert(m.no_duplicates()) by {
        assert forall|i: int, j: int| 0 <= i < m.len() && 0 <= j < m.len() && i != j implies m[i] != m[j] by {
            assert(r[i] != r[j]);
        }
    }
    m.unique_seq_to_set();
    assert(full =~= vstd::set_lib::set_int_range(0, n));
}


/// `r` is the highest-rated entry; of several, the last (as `Iterator::max_by`
/// picks); none when there are no entries.
pub open spec fn is_highest_rated(es: Seq<Entry>, r: Option<usize>) -> bool {
    match r {
        Some(i) => {
            &&& i < es.len()
            &&& forall|j: int| 0 <= j < es.len() ==> #[trigger] es[j].rating_key <= es[i as int].rating_key
            &&& forall|j: int| i < j < es.len() ==> #[trigger] es[j].rating_key < es[i as int].rating_key
        },
        None => es.len() == 0,
    }
}

/// `r` is the lowest-rated entry; of several, the first (as `Iterator::min_by`
/// picks); none when there are no entries.
pub open spec fn is_lowest_rated(es: Seq<Entry>, r: Option<usize>) -> bool {
    match r {
        Some(i) => {
            &&& i < es.len()
            &&& forall|j: int| 0 <= j < es.len() ==> #[trigger] es[j].rating_key >= es[i as int].rating_key
            &&& forall|j: int| 0 <= j < i ==> #[trigger] es[j].rating_key > es[i as int].rating_key
        },
        None => es.len() == 0,
    }
}

/// The dashboard's highest-rated entry is rated no lower than its lowest-rated one.
pub proof fn lemma_highest_not_below_lowest(es: Seq<Entry>, high: Option<usize>, low: Option<usize>)
    requires
        is_highest_rated(es, high),
        is_lowest_rated(es, low),
    ensures
        high is Some <==> low is Some,
        high is Some ==> es[high->0 as int].rating_key >= es[low->0 as int].rating_key,
{
    if high is Some && low is Some {
        assert(es[low->0 as int].rating_key <= es[high->0 as int].rating_key);
    }
}

/// The highest-rated entry.
pub fn highest_rated(entries: &Vec<Entry>) -> (r: Option<usize>)
    ensures
        is_highest_rated(entries@, r),
{
    if entries.len() == 0 {
        return None;
    }
    let mut best: usize = 0;
    let mut i: usize = 1;
    while i < entries.len()
        invariant
            1 <= i <= entries@.len(),
            best < i,
            forall|j: int| 0 <= j < i ==> #[trigger] entries@[j].rating_key <= entries@[best as int].rating_key,
            forall|j: int| best < j < i ==> #[trigger] entries@[j].rating_key < entries@[best as int].rating_key,
        decreases entries.len() - i,
    {
        if entries[i].rating_key >= entries[best].rating_key {
            best = i;
        }
        i = i + 1;
    }
    Some(best)
}

/// The lowest-rated entry.
pub fn lowest_rated(entries: &Vec<Entry>) -> (r: Option<usize>)
    ensures
        is_lowest_rated(entries@, r),
{
    if entries.len() == 0 {
        return None;
    }
    let mut best: usize = 0;
    let mut i: usize = 1;
    while i < entries.len()
        invariant
            1 <= i <= entries@.len(),
            best < i,
            forall|j: int| 0 <= j < i ==> #[trigger] entries@[j].rating_key >= entries@[best as int].rating_key,
            forall|j: int| 0 <= j < best ==> #[trigger] entries@[j].rating_key > entries@[best as int].rating_key,
        decreases entries.len() - i,
    {
        if entries[i].rating_key < entries[best].rating_key {
            best = i;
        }
        i = i + 1;
    }
    Some(best)
}

/// How many entries mention the season.
pub open spec fn count_in_season(es: Seq<Entry>, season: Seq<char>) -> int
    decreases es.len(),
{
    if es.len() == 0 {
        0
    } else {
        count_in_season(es.drop_last(), season) + if contains_seq(es.last().seasons@, season) {
            1int
        } else {
            0int
        }
    }
}

/// The season names in the dashboard's order.
pub open spec fn season_name(k: int) -> Seq<char> {
    seq![spring(), summer(), fall(), winter()][k]
}

/// How many entries mention each season, in the dashboard's order.
pub open spec fn season_counts(es: Seq<Entry>) -> Seq<int> {
    Seq::new(4, |k: int| count_in_season(es, season_name(k)))
}

/// `k` is the last of the positions of the largest count (as
/// `Iterator::max_by_key` picks).
pub open spec fn is_last_max(c: Seq<int>, k: int) -> bool {
    &&& 0 <= k < c.len()
    &&& forall|j: int| 0 <= j < c.len() ==> #[trigger] c[j] <= c[k]
    &&& forall|j: int| k < j < c.len() ==> #[trigger] c[j] < c[k]
}

fn count_season(entries: &Vec<Entry>, season: &str) -> (n: usize)
    ensures
        n == count_in_season(entries@, season@),
{
    let mut n: usize = 0;
    let mut i: usize = 0;
    while i < entries.len()
        invariant
            i <= entries@.len(),
            n <= i,
            n == count_in_season(entries@.take(i as int), season@),
        decreases entries.len() - i,
    {
        assert(entries@.take(i + 1).drop_last() == entries@.take(i as int));
        if str_contains(entries[i].seasons.as_str(), season) {
            n = n + 1;
        }
        i = i + 1;
    }
    assert(entries@.take(entries@.len() as int) == entries@);
    n
}

/// The season that most entries mention; of several, the later in the order
/// spring, summer, fall, winter; empty when no entry mentions any.
pub fn most_common_season(entries: &Vec<Entry>) -> (r: String)
    ensures
        exists|k: int|
            is_last_max(season_counts(entries@), k) && r@ == if season_counts(entries@)[k] == 0 {
                Seq::empty()
            } else {
                season_name(k)
            },
{
    let names: [&str; 4] = ["Spring", "Summer", "Fall", "Winter"];
    let mut counts: Vec<usize> = Vec::new();
    counts.push(count_season(entries, "Spring"));
    counts.push(count_season(entries, "Summer"));
    counts.push(count_season(entries, "Fall"));
    counts.push(count_season(entries, "Winter"));
    let ghost c = season_counts(entries@);
    assert(forall|k: int| 0 <= k < 4 ==> #[trigger] counts@[k] as int == c[k]);
    let mut best: usize = 0;
    let mut k: usize = 1;
    while k < 4
        invariant
            1 <= k <= 4,
            best < k,
            counts@.len() == 4,
            c == season_counts(entries@),
            forall|t: int| 0 <= t < 4 ==> #[trigger] counts@[t] as int == c[t],
            forall|j: int| 0 <= j < k ==> #[trigger] c[j] <= c[best as int],
            forall|j: int| best < j < k ==> #[trigger] c[j] < c[best as int],
        decreases 4 - k,
    {
        if counts[k] >= counts[best] {
            best = k;
        }
        k = k + 1;
    }
    assert(is_last_max(c, best as int));
    if counts[best] == 0 {
        String::new()
    } else {
        let name = names[best];
        assert(name@ == season_name(best as int));
        name.to_string()
    }
}


/// An entry counts among the colognes when it is a cologne or unisex.
pub open spec fn is_cologne_pick(e: Entry) -> bool {
    e.category@ == "Cologne"@ || e.category@ == "Unisex"@
}

/// An entry counts among the perfumes when it is a perfume or unisex.
pub open spec fn is_perfume_pick(e: Entry) -> bool {
    e.category@ == "Perfume"@ || e.category@ == "Unisex"@
}

/// An entry counts for a season when the season is named and the entry mentions it.
pub open spec fn is_season_pick(e: Entry, season: Seq<char>) -> bool {
    season.len() > 0 && contains_seq(e.seasons@, season)
}

/// What the dashboard shows, as positions into the entries; the totals and the
/// average rating are the caller's arithmetic.
pub struct DashboardPicks {
    pub highest: Option<usize>,
    pub lowest: Option<usize>,
    pub most_common_season: String,
    pub season_top: Vec<usize>,
    pub recently_added: Vec<usize>,
    pub top_cologne: Vec<usize>,
    pub top_perfume: Vec<usize>,
}

/// The top three of the candidates by rating, highest first.
fn top_three_by_rating(entries: &Vec<Entry>, flags: &Vec<bool>) -> (r: Vec<usize>)
    requires
        flags@.len() == entries@.len(),
    ensures
        is_ranked(
            r@,
            |y: int| 0 <= y < entries@.len() && flags@[y],
            |i: int, j: int| rating_high_first(entries@, i, j),
            3,
        ),
{
    let cands = positions_where(flags);
    let keys = rating_keys(entries);
    let r = rank_top(&keys, &cands, 3);
    proof {
        let c2 = |y: int| 0 <= y < entries@.len() && flags@[y];
        let b2 = |i: int, j: int| rating_high_first(entries@, i, j);
        lemma_ranked_transfer(r@, |y: int| lists(cands@, y), |i: int, j: int| ranks_before(keys, i, j), c2, b2, 3);
    }
    r
}

/// The dashboard: highest and lowest rated, the most common season and the
/// three best rated of it, the three most recently added, and the three best
/// rated colognes and perfumes (unisex counting as both).
pub fn dashboard_picks(entries: &Vec<Entry>) -> (d: DashboardPicks)
    ensures
        is_highest_rated(entries@, d.highest),
        is_lowest_rated(entries@, d.lowest),
        exists|k: int|
            is_last_max(season_counts(entries@), k) && d.most_common_season@ == if season_counts(entries@)[k]
                == 0 {
                Seq::empty()
            } else {
                season_name(k)
            },
        is_ranked(
            d.season_top@,
            |y: int| 0 <= y < entries@.len() && is_season_pick(entries@[y], d.most_common_season@),
            |i: int, j: int| rating_high_first(entries@, i, j),
            3,
        ),
        is_ranked(
            d.recently_added@,
            |y: int| 0 <= y < entries@.len(),
            |i: int, j: int| newest_first(entries@, i, j),
            3,
        ),
        is_ranked(
            d.top_cologne@,
            |y: int| 0 <= y < entries@.len() && is_cologne_pick(entries@[y]),
            |i: int, j: int| rating_high_first(entries@, i, j),
            3,
        ),
        is_ranked(
            d.top_perfume@,
            |y: int| 0 <= y < entries@.len() && is_perfume_pick(entries@[y]),
            |i: int, j: int| rating_high_first(entries@, i, j),
            3,
        ),
{
    let highest = highest_rated(entries);
    let lowest = lowest_rated(entries);
    let season = most_common_season(entries);
    let season_chars = chars_of(season.as_str());
    let mut season_flags: Vec<bool> = Vec::new();
    let mut cologne_flags: Vec<bool> = Vec::new();
    let mut perfume_flags: Vec<bool> = Vec::new();
    let mut all_flags: Vec<bool> = Vec::new();
    let mut i: usize = 0;
    while i < entries.len()
        invariant
            i <= entries@.len(),
            season_chars@ == season@,
            season_flags@.len() == i,
            cologne_flags@.len() == i,
            perfume_flags@.len() == i,
            all_flags@.len() == i,
            forall|t: int| 0 <= t < i ==> #[trigger] season_flags@[t] == is_season_pick(entries@[t], season@),
            forall|t: int| 0 <= t < i ==> #[trigger] cologne_flags@[t] == is_cologne_pick(entries@[t]),
            forall|t: int| 0 <= t < i ==> #[trigger] perfume_flags@[t] == is_perfume_pick(entries@[t]),
            forall|t: int| 0 <= t < i ==> #[trigger] all_flags@[t],
        decreases entries.len() - i,
    {
        let e = &entries[i];
        let in_season = season_chars.len() > 0 && contains_chars(&chars_of(e.seasons.as_str()), &season_chars);
        let unisex = str_equal(e.category.as_str(), "Unisex");
        let cologne = str_equal(e.category.as_str(), "Cologne") || unisex;
        let perfume = str_equal(e.category.as_str(), "Perfume") || unisex;
        season_flags.push(in_season);
        cologne_flags.push(cologne);
        perfume_flags.push(perfume);
        all_flags.push(true);
        i = i + 1;
    }
    let season_top = top_three_by_rating(entries, &season_flags);
    let top_cologne = top_three_by_rating(entries, &cologne_flags);
    let top_perfume = top_three_by_rating(entries, &perfume_flags);
    let cands = positions_where(&all_flags);
    let keys = id_keys(entries);
    let recently_added = rank_top(&keys, &cands, 3);
    proof {
        let c2 = |y: int| 0 <= y < entries@.len();
        let b2 = |i: int, j: int| newest_first(entries@, i, j);
        lemma_ranked_transfer(
            recently_added@,
            |y: int| lists(cands@, y),
            |i: int, j: int| ranks_before(keys, i, j),
            c2,
            b2,
            3,
        );
        lemma_ranked_transfer(
            season_top@,
            |y: int| 0 <= y < entries@.len() && season_flags@[y],
            |i: int, j: int| rating_high_first(entries@, i, j),
            |y: int| 0 <= y < entries@.len() && is_season_pick(entries@[y], season@),
            |i: int, j: int| rating_high_first(entries@, i, j),
            3,
        );
        lemma_ranked_transfer(
            top_cologne@,
            |y: int| 0 <= y < entries@.len() && cologne_flags@[y],
            |i: int, j: int| rating_high_first(entries@, i, j),
            |y: int| 0 <= y < entries@.len() && is_cologne_pick(entries@[y]),
            |i: int, j: int| rating_high_first(entries@, i, j),
            3,
        );
        lemma_ranked_transfer(
            top_perfume@,
            |y: int| 0 <= y < entries@.len() && perfume_flags@[y],
            |i: int, j: int| rating_high_first(entries@, i, j),
            |y: int| 0 <= y < entries@.len() && is_perfume_pick(entries@[y]),
            |i: int, j: int| rating_high_first(entries@, i, j),
            3,
        );
    }
    DashboardPicks {
        highest,
        lowest,
        most_common_season: season,
        season_top,
        recently_added,
        top_cologne,
        top_perfume,
    }
}


/// Whether an entry takes part in a ranking: for "Season", the entries that
/// mention the season (all when none is named); for "Category", the entries of
/// that category and the unisex ones (only the unisex ones for "Unisex"); for
/// any other mode, all.
pub open spec fn in_ranking(e: Entry, mode: Seq<char>, option: Seq<char>) -> bool {
    if mode == "Season"@ {
        option.len() == 0 || contains_seq(e.seasons@, option)
    } else if mode == "Category"@ {
        if option == "Unisex"@ {
            e.category@ == "Unisex"@
        } else {
            e.category@ == option || e.category@ == "Unisex"@
        }
    } else {
        true
    }
}

/// The top ten of a ranking, best first, as positions into the entries. Each
/// entry's `rating_key` holds the score that this ranking goes by.
pub fn ranking_order(entries: &Vec<Entry>, mode: &str, option: &str) -> (r: Vec<usize>)
    ensures
        is_ranked(
            r@,
            |y: int| 0 <= y < entries@.len() && in_ranking(entries@[y], mode@, option@),
            |i: int, j: int| rating_high_first(entries@, i, j),
            10,
        ),
{
    let by_season = str_equal(mode, "Season");
    let by_category = str_equal(mode, "Category");
    let option_chars = chars_of(option);
    let unisex_option = str_equal(option, "Unisex");
    let mut flags: Vec<bool> = Vec::new();
    let mut i: usize = 0;
    while i < entries.len()
        invariant
            i <= entries@.len(),
            by_season == (mode@ == "Season"@),
            by_category == (mode@ == "Category"@),
            unisex_option == (option@ == "Unisex"@),
            option_chars@ == option@,
            flags@.len() == i,
            forall|t: int| 0 <= t < i ==> #[trigger] flags@[t] == in_ranking(entries@[t], mode@, option@),
        decreases entries.len() - i,
    {
        let e = &entries[i];
        let keep = if by_season {
            option_chars.len() == 0 || contains_chars(&chars_of(e.seasons.as_str()), &option_chars)
        } else if by_category {
            if unisex_option {
                str_equal(e.category.as_str(), "Unisex")
            } else {
                str_equal(e.category.as_str(), option) || str_equal(e.category.as_str(), "Unisex")
            }
        } else {
            true
        };
        flags.push(keep);
        i = i + 1;
    }
    let cands = positions_where(&flags);
    let keys = rating_keys(entries);
    let r = rank_top(&keys, &cands, 10);
    proof {
        lemma_ranked_transfer(
            r@,
            |y: int| lists(cands@, y),
            |i: int, j: int| ranks_before(keys, i, j),
            |y: int| 0 <= y < entries@.len() && in_ranking(entries@[y], mode@, option@),
            |i: int, j: int| rating_high_first(entries@, i, j),
            10,
        );
    }
    r
}


/// Two arrangements of the same candidates by the same asymmetric order are the same list.
proof fn lemma_arrangement_unique(
    r: Seq<usize>,
    s: Seq<usize>,
    cand: spec_fn(int) -> bool,
    before: spec_fn(int, int) -> bool,
)
    requires
        is_arrangement(r, cand, before),
        is_arrangement(s, cand, before),
        forall|i: int, j: int| cand(i) && cand(j) && #[trigger] before(i, j) ==> !before(j, i),
    ensures
        r == s,
    decreases r.len(),
{
    if r.len() == 0 {
        if s.len() > 0 {
            assert(cand(s[0] as int));
            assert(lists(r, s[0] as int));
        }
        assert(s =~= r);
    } else {
        let x = r[0];
        assert(cand(x as int));
        assert(lists(s, x as int));
        let k = choose|k: int| 0 <= k < s.len() && s[k] as int == x as int;
        let y = s[0];
        if x != y {
            assert(cand(y as int));
            assert(lists(r, y as int));
            let m = choose|m: int| 0 <= m < r.len() && r[m] as int == y as int;
            assert(k > 0 && m > 0);
            assert(before(s[0] as int, s[k] as int));
            assert(before(r[0] as int, r[m] as int));
        }
        let cand2 = |z: int| cand(z) && z != x as int;
        let r2 = r.drop_first();
        let s2 = s.drop_first();
        assert(is_arrangement(r2, cand2, before)) by {
            assert forall|a: int| 0 <= a < r2.len() implies #[trigger] cand2(r2[a] as int) by {
                assert(r2[a] == r[a + 1]);
                assert(cand(r[a + 1] as int));
                assert(r[a + 1] != r[0]);
            }
            assert forall|z: int| #[trigger] cand2(z) implies lists(r2, z) by {
                assert(lists(r, z));
                let t = choose|t: int| 0 <= t < r.len() && r[t] as int == z;
                assert(t != 0);
                assert(r2[t - 1] == r[t]);
            }
            assert forall|a: int, b: int| 0 <= a < b < r2.len() implies #[trigger] before(r2[a] as int, r2[b] as int) by {
                assert(before(r[a + 1] as int, r[b + 1] as int));
            }
        }
        assert(is_arrangement(s2, cand2, before)) by {
            assert forall|a: int| 0 <= a < s2.len() implies #[trigger] cand2(s2[a] as int) by {
                assert(s2[a] == s[a + 1]);
                assert(cand(s[a + 1] as int));
                assert(s[a + 1] != s[0]);
            }
            assert forall|z: int| #[trigger] cand2(z) implies lists(s2, z) by {
                assert(lists(s, z));
                let t = choose|t: int| 0 <= t < s.len() && s[t] as int == z;
                assert(t != 0);
                assert(s2[t - 1] == s[t]);
            }
            assert forall|a: int, b: int| 0 <= a < b < s2.len() implies #[trigger] before(s2[a] as int, s2[b] as int) by {
                assert(before(s[a + 1] as int, s[b + 1] as int));
            }
        }
        lemma_arrangement_unique(r2, s2, cand2, before);
        assert(r =~= s) by {
            assert(r == seq![x] + r2);
            assert(s == seq![y] + s2);
        }
    }
}

/// `r` backwards is an arrangement by the order `after` when `after` is `before` with
/// its arguments swapped on distinct candidates.
proof fn lemma_reverse_arrangement(
    r: Seq<usize>,
    cand: spec_fn(int) -> bool,
    before: spec_fn(int, int) -> bool,
    after: spec_fn(int, int) -> bool,
)
    requires
        is_arrangement(r, cand, before),
        forall|i: int, j: int| cand(i) && cand(j) && i != j ==> #[trigger] after(i, j) == before(j, i),
    ensures
        is_arrangement(r.reverse(), cand, after),
{
    let v = r.reverse();
    let n = r.len();
    assert forall|a: int| 0 <= a < v.len() implies #[trigger] cand(v[a] as int) by {
        assert(v[a] == r[n - 1 - a]);
    }
    assert forall|z: int| #[trigger] cand(z) implies lists(v, z) by {
        assert(lists(r, z));
        let t = choose|t: int| 0 <= t < r.len() && r[t] as int == z;
        assert(v[n - 1 - t] == r[t]);
    }
    assert forall|a: int, b: int| 0 <= a < v.len() && 0 <= b < v.len() && a != b implies v[a] != v[b] by {
        assert(v[a] == r[n - 1 - a]);
        assert(v[b] == r[n - 1 - b]);
    }
    assert forall|a: int, b: int| 0 <= a < b < v.len() implies #[trigger] after(v[a] as int, v[b] as int) by {
        assert(v[a] == r[n - 1 - a]);
        assert(v[b] == r[n - 1 - b]);
        assert(before(r[n - 1 - b] as int, r[n - 1 - a] as int));
        assert(cand(r[n - 1 - b] as int));
        assert(cand(r[n - 1 - a] as int));
    }
}

/// No two entries share the key that `key` (and, for a user's rating, `user`)
/// sorts them by.
pub open spec fn keys_distinct(es: Seq<Entry>, key: SortKey, user: Seq<char>) -> bool {
    forall|i: int, j: int|
        0 <= i < es.len() && 0 <= j < es.len() && i != j ==> if is_text_key(key) {
            text_key(#[trigger] es[i], key) != text_key(#[trigger] es[j], key)
        } else {
            number_key(es[i], key, user) != number_key(es[j], key, user)
        }
}

/// Whatever the key, when no two entries share it, the collection sorted one way
/// (high to low, Z to A, new to old) is the collection sorted the other way
/// backwards.
pub proof fn lemma_sort_directions_reverse(
    es: Seq<Entry>,
    key: SortKey,
    user: Seq<char>,
    query: Seq<char>,
    ascending: Seq<usize>,
    descending: Seq<usize>,
)
    requires
        keys_distinct(es, key, user),
        is_arrangement(
            ascending,
            |y: int| 0 <= y < es.len() && matches_search(es[y], query),
            |i: int, j: int| collection_before(es, key, false, user, i, j),
        ),
        is_arrangement(
            descending,
            |y: int| 0 <= y < es.len() && matches_search(es[y], query),
            |i: int, j: int| collection_before(es, key, true, user, i, j),
        ),
    ensures
        descending == ascending.reverse(),
{
    let cand = |y: int| 0 <= y < es.len() && matches_search(es[y], query);
    let up = |i: int, j: int| collection_before(es, key, false, user, i, j);
    let down = |i: int, j: int| collection_before(es, key, true, user, i, j);
    assert forall|i: int, j: int| cand(i) && cand(j) && i != j implies #[trigger] down(i, j) == up(j, i) by {
        lemma_lex_total(text_key(es[i], key), text_key(es[j], key));
        lemma_lex_irreflexive(text_key(es[i], key));
        lemma_lex_irreflexive(text_key(es[j], key));
    }
    lemma_reverse_arrangement(ascending, cand, up, down);
    assert forall|i: int, j: int| cand(i) && cand(j) && #[trigger] down(i, j) implies !down(j, i) by {
        lemma_lex_total(text_key(es[i], key), text_key(es[j], key));
        lemma_lex_irreflexive(text_key(es[i], key));
    }
    lemma_arrangement_unique(descending, ascending.reverse(), cand, down);
}


/// The collection shows an entry exactly when the search text, trimmed and in
/// lower case, is empty or stands anywhere in the entry's brand or name in lower
/// case (at any position, not only at the start); it shows nothing else.
pub proof fn lemma_search_finds_text_anywhere(
    es: Seq<Entry>,
    sort_option: Seq<char>,
    search_text: Seq<char>,
    r: Seq<usize>,
)
    requires
        ({
            let (key, descending, user) = spec_sort_choice(sort_option);
            is_arrangement(
                r,
                |y: int| 0 <= y < es.len() && matches_search(es[y], search_query(search_text)),
                |i: int, j: int| collection_before(es, key, descending, user, i, j),
            )
        }),
    ensures
        forall|a: int| 0 <= a < r.len() ==> (r[a] as int) < es.len(),
        forall|y: int|
            0 <= y < es.len() ==> (lists(r, y) <==> {
                let q = spec_lowercase(trimmed(search_text));
                let brand = spec_lowercase(es[y].brand@);
                let name = spec_lowercase(es[y].name@);
                ||| q.len() == 0
                ||| exists|k: int| 0 <= k && k + q.len() <= brand.len() && #[trigger] brand.subrange(k, k + q.len()) == q
                ||| exists|k: int| 0 <= k && k + q.len() <= name.len() && #[trigger] name.subrange(k, k + q.len()) == q
            }),
{
    let q = search_query(search_text);
    let cand = |y: int| 0 <= y < es.len() && matches_search(es[y], q);
    assert forall|a: int| 0 <= a < r.len() implies (r[a] as int) < es.len() by {
        assert(cand(r[a] as int));
    }
    assert forall|y: int| 0 <= y < es.len() implies (lists(r, y) <==> cand(y)) by {
        if lists(r, y) {
            let t = choose|t: int| 0 <= t < r.len() && r[t] as int == y;
            assert(cand(r[t] as int));
        }
    }
    assert forall|y: int| 0 <= y < es.len() implies (lists(r, y) <==> {
        let brand = spec_lowercase(es[y].brand@);
        let name = spec_lowercase(es[y].name@);
        ||| q.len() == 0
        ||| exists|k: int| 0 <= k && k + q.len() <= brand.len() && #[trigger] brand.subrange(k, k + q.len()) == q
        ||| exists|k: int| 0 <= k && k + q.len() <= name.len() && #[trigger] name.subrange(k, k + q.len()) == q
    }) by {
        lemma_contains_written_out(spec_lowercase(es[y].brand@), q);
        lemma_contains_written_out(spec_lowercase(es[y].name@), q);
    }
}

/// A top-ten ranking holds, by season, only entries whose season list names the
/// chosen season (every entry when none is chosen); by category, only entries of
/// that category and unisex ones ("Unisex" alone for the unisex ranking); in
/// any other mode, every entry. It holds at most ten, highest rated first, and
/// leaves such an entry out only when ten entries rated at least as high fill it.
pub proof fn lemma_ranking_holds_what_it_names(es: Seq<Entry>, mode: Seq<char>, option: Seq<char>, r: Seq<usize>)
    requires
        is_ranked(
            r,
            |y: int| 0 <= y < es.len() && in_ranking(es[y], mode, option),
            |i: int, j: int| rating_high_first(es, i, j),
            10,
        ),
    ensures
        r.len() <= 10,
        r.no_duplicates(),
        forall|a: int| 0 <= a < r.len() ==> (r[a] as int) < es.len(),
        forall|a: int, b: int|
            0 <= a < b < r.len() ==> es[r[a] as int].rating_key >= es[r[b] as int].rating_key,
        forall|y: int| 0 <= y < es.len() && #[trigger] lists(r, y) ==> {
                let seasons = es[y].seasons@;
                let category = es[y].category@;
                &&& mode == "Season"@ ==> (option.len() == 0 || exists|k: int|
                    0 <= k && k + option.len() <= seasons.len() && #[trigger] seasons.subrange(k, k + option.len())
                        == option)
                &&& mode == "Category"@ ==> (category == "Unisex"@ || (option != "Unisex"@ && category == option))
            },
        forall|y: int|
            0 <= y < es.len() && !lists(r, y) && {
                let seasons = es[y].seasons@;
                let category = es[y].category@;
                &&& mode == "Season"@ ==> (option.len() == 0 || exists|k: int|
                    0 <= k && k + option.len() <= seasons.len() && #[trigger] seasons.subrange(k, k + option.len())
                        == option)
                &&& mode == "Category"@ ==> (category == "Unisex"@ || (option != "Unisex"@ && category == option))
            } ==> r.len() == 10 && forall|a: int| #![trigger r[a]]
                0 <= a < r.len() ==> es[r[a] as int].rating_key >= es[y].rating_key,
{
    let cand = |y: int| 0 <= y < es.len() && in_ranking(es[y], mode, option);
    let before = |i: int, j: int| rating_high_first(es, i, j);
    assert forall|a: int| 0 <= a < r.len() implies (r[a] as int) < es.len() by {
        assert(cand(r[a] as int));
    }
    assert forall|a: int, b: int| 0 <= a < b < r.len() implies es[r[a] as int].rating_key >= es[r[b] as int].rating_key by {
        assert(before(r[a] as int, r[b] as int));
    }
    reveal_strlit("Season");
    reveal_strlit("Category");
    assert("Season"@ != "Category"@) by {
        assert("Season"@[0] != "Category"@[0]);
    }
    assert forall|y: int| 0 <= y < es.len() implies (#[trigger] cand(y) <==> {
                let seasons = es[y].seasons@;
                let category = es[y].category@;
                &&& mode == "Season"@ ==> (option.len() == 0 || exists|k: int|
                    0 <= k && k + option.len() <= seasons.len() && #[trigger] seasons.subrange(k, k + option.len())
                        == option)
                &&& mode == "Category"@ ==> (category == "Unisex"@ || (option != "Unisex"@ && category == option))
            }) by {
        lemma_contains_written_out(es[y].seasons@, option);
    }
    assert forall|y: int| 0 <= y < es.len() && !lists(r, y) implies cand(y) == ({
        let seasons = es[y].seasons@;
        let category = es[y].category@;
        &&& mode == "Season"@ ==> (option.len() == 0 || exists|k: int|
            0 <= k && k + option.len() <= seasons.len() && #[trigger] seasons.subrange(k, k + option.len()) == option)
        &&& mode == "Category"@ ==> (category == "Unisex"@ || (option != "Unisex"@ && category == option))
    }) by {
        assert(cand(y) == cand(y));
    }
    assert forall|y: int| 0 <= y < es.len() && #[trigger] lists(r, y) implies cand(y) by {
        let t = choose|t: int| 0 <= t < r.len() && r[t] as int == y;
        assert(cand(r[t] as int));
    }
    assert forall|y: int| 0 <= y < es.len() && !lists(r, y) && #[trigger] cand(y) implies r.len() == 10 && forall|a: int| #![trigger r[a]]
        0 <= a < r.len() ==> es[r[a] as int].rating_key >= es[y].rating_key by {
        assert forall|a: int| #![trigger r[a]] 0 <= a < r.len() implies es[r[a] as int].rating_key >= es[y].rating_key by {
            assert(before(r[a] as int, y));
        }
    }
}

/// What a list ranked by rating says of each position.
proof fn lemma_ranked_by_rating(es: Seq<Entry>, r: Seq<usize>, cand: spec_fn(int) -> bool, limit: int)
    requires
        is_ranked(r, cand, |i: int, j: int| rating_high_first(es, i, j), limit),
    ensures
        forall|y: int| #[trigger] lists(r, y) ==> cand(y),
        forall|y: int|
            #[trigger] cand(y) && !lists(r, y) ==> r.len() == limit && forall|a: int|
                0 <= a < r.len() ==> es[r[a] as int].rating_key >= es[y].rating_key,
{
    let before = |i: int, j: int| rating_high_first(es, i, j);
    assert forall|y: int| #[trigger] lists(r, y) implies cand(y) by {
        let t = choose|t: int| 0 <= t < r.len() && r[t] as int == y;
        assert(cand(r[t] as int));
    }
    assert forall|y: int| #[trigger] cand(y) && !lists(r, y) implies r.len() == limit && forall|a: int|
        0 <= a < r.len() ==> es[r[a] as int].rating_key >= es[y].rating_key by {
        assert forall|a: int| 0 <= a < r.len() implies es[r[a] as int].rating_key >= es[y].rating_key by {
            assert(before(r[a] as int, y));
        }
    }
}

/// What a list of the newest three entries says of each position.
proof fn lemma_newest_first_list(es: Seq<Entry>, r: Seq<usize>)
    requires
        is_ranked(r, |y: int| 0 <= y < es.len(), |i: int, j: int| newest_first(es, i, j), 3),
    ensures
        forall|y: int| #[trigger] lists(r, y) ==> 0 <= y < es.len(),
        forall|a: int, b: int| #![trigger r[a], r[b]] 0 <= a < b < r.len() ==> es[r[a] as int].id >= es[r[b] as int].id,
        forall|y: int|
            0 <= y < es.len() && !#[trigger] lists(r, y) ==> r.len() == 3 && forall|a: int| #![trigger r[a]]
                0 <= a < 3 ==> es[r[a] as int].id >= es[y].id,
{
    let c_all = |y: int| 0 <= y < es.len();
    let newer = |i: int, j: int| newest_first(es, i, j);
    assert forall|y: int| #[trigger] lists(r, y) implies 0 <= y < es.len() by {
        let t = choose|t: int| 0 <= t < r.len() && r[t] as int == y;
        assert(c_all(r[t] as int));
    }
    assert forall|a: int, b: int| #![trigger r[a], r[b]] 0 <= a < b < r.len() implies es[r[a] as int].id >= es[r[b] as int].id by {
        assert(newer(r[a] as int, r[b] as int));
    }
    assert forall|y: int| 0 <= y < es.len() && !#[trigger] lists(r, y) implies r.len() == 3 && forall|a: int| #![trigger r[a]]
        0 <= a < 3 ==> es[r[a] as int].id >= es[y].id by {
        assert(c_all(y));
        assert forall|a: int| #![trigger r[a]] 0 <= a < 3 implies es[r[a] as int].id >= es[y].id by {
            assert(newer(r[a] as int, y));
        }
    }
}

/// The dashboard's season picks are entries whose season list names the most
/// common season, and there are none when no season is named; its colognes are
/// colognes or unisex, its perfumes perfumes or unisex. Each list leaves such an
/// entry out only when three entries rated at least as high fill it. The recently
/// added are the three entries with the highest ids, highest first.
pub proof fn lemma_dashboard_picks_qualify(es: Seq<Entry>, d: DashboardPicks)
    requires
        is_ranked(
            d.season_top@,
            |y: int| 0 <= y < es.len() && is_season_pick(es[y], d.most_common_season@),
            |i: int, j: int| rating_high_first(es, i, j),
            3,
        ),
        is_ranked(
            d.recently_added@,
            |y: int| 0 <= y < es.len(),
            |i: int, j: int| newest_first(es, i, j),
            3,
        ),
        is_ranked(
            d.top_cologne@,
            |y: int| 0 <= y < es.len() && is_cologne_pick(es[y]),
            |i: int, j: int| rating_high_first(es, i, j),
            3,
        ),
        is_ranked(
            d.top_perfume@,
            |y: int| 0 <= y < es.len() && is_perfume_pick(es[y]),
            |i: int, j: int| rating_high_first(es, i, j),
            3,
        ),
    ensures
        d.most_common_season@.len() == 0 ==> d.season_top@.len() == 0,
        forall|y: int| #[trigger] lists(d.recently_added@, y) ==> 0 <= y < es.len(),
        forall|a: int, b: int|
            #![trigger d.recently_added@[a], d.recently_added@[b]]
            0 <= a < b < d.recently_added@.len() ==> es[d.recently_added@[a] as int].id >= es[d.recently_added@[b] as int].id,
        forall|y: int|
            0 <= y < es.len() && !#[trigger] lists(d.recently_added@, y) ==> d.recently_added@.len() == 3 && forall|a: int| #![trigger d.recently_added@[a]]
                0 <= a < 3 ==> es[d.recently_added@[a] as int].id >= es[y].id,
        forall|y: int|
            0 <= y < es.len() ==> (({
                let season = d.most_common_season@;
                let seasons = es[y].seasons@;
                season.len() > 0 && exists|k: int|
                    0 <= k && k + season.len() <= seasons.len() && #[trigger] seasons.subrange(k, k + season.len())
                        == season
            }) ==> (lists(d.season_top@, y) || d.season_top@.len() == 3 && forall|a: int|
                0 <= a < d.season_top@.len() ==> es[d.season_top@[a] as int].rating_key >= es[y].rating_key)),
        forall|y: int|
            #[trigger] lists(d.season_top@, y) ==> 0 <= y < es.len() && ({
                let season = d.most_common_season@;
                let seasons = es[y].seasons@;
                season.len() > 0 && exists|k: int|
                    0 <= k && k + season.len() <= seasons.len() && #[trigger] seasons.subrange(k, k + season.len())
                        == season
            }),
        forall|y: int|
            #[trigger] lists(d.top_cologne@, y) ==> 0 <= y < es.len() && (es[y].category@ == "Cologne"@
                || es[y].category@ == "Unisex"@),
        forall|y: int|
            0 <= y < es.len() && (es[y].category@ == "Cologne"@ || es[y].category@ == "Unisex"@) ==> (lists(
                d.top_cologne@,
                y,
            ) || d.top_cologne@.len() == 3 && forall|a: int|
                0 <= a < d.top_cologne@.len() ==> es[d.top_cologne@[a] as int].rating_key >= es[y].rating_key),
        forall|y: int|
            #[trigger] lists(d.top_perfume@, y) ==> 0 <= y < es.len() && (es[y].category@ == "Perfume"@
                || es[y].category@ == "Unisex"@),
        forall|y: int|
            0 <= y < es.len() && (es[y].category@ == "Perfume"@ || es[y].category@ == "Unisex"@) ==> (lists(
                d.top_perfume@,
                y,
            ) || d.top_perfume@.len() == 3 && forall|a: int|
                0 <= a < d.top_perfume@.len() ==> es[d.top_perfume@[a] as int].rating_key >= es[y].rating_key),
{
    let season = d.most_common_season@;
    let c_season = |y: int| 0 <= y < es.len() && is_season_pick(es[y], season);
    let c_cologne = |y: int| 0 <= y < es.len() && is_cologne_pick(es[y]);
    let c_perfume = |y: int| 0 <= y < es.len() && is_perfume_pick(es[y]);
    lemma_ranked_by_rating(es, d.season_top@, c_season, 3);
    lemma_newest_first_list(es, d.recently_added@);
    lemma_ranked_by_rating(es, d.top_cologne@, c_cologne, 3);
    lemma_ranked_by_rating(es, d.top_perfume@, c_perfume, 3);
    assert forall|y: int| 0 <= y < es.len() implies #[trigger] c_season(y) == ({
        let seasons = es[y].seasons@;
        season.len() > 0 && exists|k: int|
            0 <= k && k + season.len() <= seasons.len() && #[trigger] seasons.subrange(k, k + season.len()) == season
    }) by {
        lemma_contains_written_out(es[y].seasons@, season);
    }
    if season.len() == 0 && d.season_top@.len() > 0 {
        assert(c_season(d.season_top@[0] as int));
    }
    assert forall|y: int| #[trigger] lists(d.season_top@, y) implies 0 <= y < es.len() && ({
        let seasons = es[y].seasons@;
        season.len() > 0 && exists|k: int|
            0 <= k && k + season.len() <= seasons.len() && #[trigger] seasons.subrange(k, k + season.len()) == season
    }) by {
        assert(c_season(y));
    }
    assert forall|y: int| 0 <= y < es.len() && ({
        let seasons = es[y].seasons@;
        season.len() > 0 && exists|k: int|
            0 <= k && k + season.len() <= seasons.len() && #[trigger] seasons.subrange(k, k + season.len()) == season
    }) implies (lists(d.season_top@, y) || d.season_top@.len() == 3 && forall|a: int|
        0 <= a < d.season_top@.len() ==> es[d.season_top@[a] as int].rating_key >= es[y].rating_key) by {
        assert(c_season(y));
    }
    assert forall|y: int| #[trigger] lists(d.top_cologne@, y) implies 0 <= y < es.len() && (es[y].category@ == "Cologne"@
        || es[y].category@ == "Unisex"@) by {
        assert(c_cologne(y));
    }
    assert forall|y: int| 0 <= y < es.len() && (es[y].category@ == "Cologne"@ || es[y].category@ == "Unisex"@) implies (lists(
        d.top_cologne@,
        y,
    ) || d.top_cologne@.len() == 3 && forall|a: int|
        0 <= a < d.top_cologne@.len() ==> es[d.top_cologne@[a] as int].rating_key >= es[y].rating_key) by {
        assert(c_cologne(y));
    }
    assert forall|y: int| #[trigger] lists(d.top_perfume@, y) implies 0 <= y < es.len() && (es[y].category@ == "Perfume"@
        || es[y].category@ == "Unisex"@) by {
        assert(c_perfume(y));
    }
    assert forall|y: int| 0 <= y < es.len() && (es[y].category@ == "Perfume"@ || es[y].category@ == "Unisex"@) implies (lists(
        d.top_perfume@,
        y,
    ) || d.top_perfume@.len() == 3 && forall|a: int|
        0 <= a < d.top_perfume@.len() ==> es[d.top_perfume@[a] as int].rating_key >= es[y].rating_key) by {
        assert(c_perfume(y));
    }
}

/// What each option of the collection view sorts by.
proof fn lemma_sort_choice_of(option: Seq<char>)
    ensures
        option == "Rating: High \u{2192} Low"@ ==> spec_sort_choice(option) == (SortKey::Rating, true, Seq::<char>::empty()),
        option == "Rating: Low \u{2192} High"@ ==> spec_sort_choice(option) == (SortKey::Rating, false, Seq::<char>::empty()),
        option == "Name: A \u{2192} Z"@ ==> spec_sort_choice(option) == (SortKey::Name, false, Seq::<char>::empty()),
        option == "Name: Z \u{2192} A"@ ==> spec_sort_choice(option) == (SortKey::Name, true, Seq::<char>::empty()),
        option == "Category: A \u{2192} Z"@ ==> spec_sort_choice(option) == (SortKey::Category, false, Seq::<char>::empty()),
        option == "Category: Z \u{2192} A"@ ==> spec_sort_choice(option) == (SortKey::Category, true, Seq::<char>::empty()),
        option == "Price: Low \u{2192} High"@ ==> spec_sort_choice(option) == (SortKey::Price, false, Seq::<char>::empty()),
        option == "Price: High \u{2192} Low"@ ==> spec_sort_choice(option) == (SortKey::Price, true, Seq::<char>::empty()),
        option == "Purchase Date: Old \u{2192} New"@ ==> spec_sort_choice(option) == (SortKey::PurchaseDate, false, Seq::<char>::empty()),
        option == "Purchase Date: New \u{2192} Old"@ ==> spec_sort_choice(option) == (SortKey::PurchaseDate, true, Seq::<char>::empty()),
        option == "Notes: A \u{2192} Z"@ ==> spec_sort_choice(option) == (SortKey::Notes, false, Seq::<char>::empty()),
        option == "Notes: Z \u{2192} A"@ ==> spec_sort_choice(option) == (SortKey::Notes, true, Seq::<char>::empty()),
        (option.len() >= 22 && option.take(10) == "Rating by "@ && option.skip(option.len() - 12) == ": High \u{2192} Low"@) ==> spec_sort_choice(option) == (SortKey::UserRating, true, option.subrange(10, option.len() - 12)),
        (option.len() >= 22 && option.take(10) == "Rating by "@ && option.skip(option.len() - 12) == ": Low \u{2192} High"@) ==> spec_sort_choice(option) == (SortKey::UserRating, false, option.subrange(10, option.len() - 12)),
        (option != "Rating: High \u{2192} Low"@
            && option != "Rating: Low \u{2192} High"@
            && option != "Name: A \u{2192} Z"@
            && option != "Name: Z \u{2192} A"@
            && option != "Category: A \u{2192} Z"@
            && option != "Category: Z \u{2192} A"@
            && option != "Price: Low \u{2192} High"@
            && option != "Price: High \u{2192} Low"@
            && option != "Purchase Date: Old \u{2192} New"@
            && option != "Purchase Date: New \u{2192} Old"@
            && option != "Notes: A \u{2192} Z"@
            && option != "Notes: Z \u{2192} A"@
            && !(option.len() >= 22 && option.take(10) == "Rating by "@ && option.skip(option.len() - 12) == ": High \u{2192} Low"@)
            && !(option.len() >= 22 && option.take(10) == "Rating by "@ && option.skip(option.len() - 12) == ": Low \u{2192} High"@)
        ) ==> spec_sort_choice(option) == (SortKey::Listed, false, Seq::<char>::empty()),
{
    reveal_strlit("Rating: High \u{2192} Low");
    reveal_strlit("Rating: Low \u{2192} High");
    reveal_strlit("Name: A \u{2192} Z");
    reveal_strlit("Name: Z \u{2192} A");
    reveal_strlit("Category: A \u{2192} Z");
    reveal_strlit("Category: Z \u{2192} A");
    reveal_strlit("Price: Low \u{2192} High");
    reveal_strlit("Price: High \u{2192} Low");
    reveal_strlit("Purchase Date: Old \u{2192} New");
    reveal_strlit("Purchase Date: New \u{2192} Old");
    reveal_strlit("Notes: A \u{2192} Z");
    reveal_strlit("Notes: Z \u{2192} A");
    reveal_strlit("Rating by ");
    reveal_strlit(": High \u{2192} Low");
    reveal_strlit(": Low \u{2192} High");
    if option == "Rating: High \u{2192} Low"@ {
        assert("Rating: High \u{2192} Low"@.take(10)[6] != "Rating by "@[6]);
    }
    if option == "Rating: Low \u{2192} High"@ {
        assert("Rating: Low \u{2192} High"@[8] != "Rating: High \u{2192} Low"@[8]);
        assert("Rating: Low \u{2192} High"@.take(10)[6] != "Rating by "@[6]);
    }
    if option == "Name: A \u{2192} Z"@ {
        assert("Name: A \u{2192} Z"@[0] != "Rating: High \u{2192} Low"@[0]);
        assert("Name: A \u{2192} Z"@[0] != "Rating: Low \u{2192} High"@[0]);
        assert("Name: A \u{2192} Z"@.take(10)[0] != "Rating by "@[0]);
    }
    if option == "Name: Z \u{2192} A"@ {
        assert("Name: Z \u{2192} A"@[0] != "Rating: High \u{2192} Low"@[0]);
        assert("Name: Z \u{2192} A"@[0] != "Rating: Low \u{2192} High"@[0]);
        assert("Name: Z \u{2192} A"@[6] != "Name: A \u{2192} Z"@[6]);
        assert("Name: Z \u{2192} A"@.take(10)[0] != "Rating by "@[0]);
    }
    if option == "Category: A \u{2192} Z"@ {
        assert("Category: A \u{2192} Z"@[0] != "Rating: High \u{2192} Low"@[0]);
        assert("Category: A \u{2192} Z"@[0] != "Rating: Low \u{2192} High"@[0]);
        assert("Category: A \u{2192} Z"@[0] != "Name: A \u{2192} Z"@[0]);
        assert("Category: A \u{2192} Z"@[0] != "Name: Z \u{2192} A"@[0]);
        assert("Category: A \u{2192} Z"@.take(10)[0] != "Rating by "@[0]);
    }
    if option == "Category: Z \u{2192} A"@ {
        assert("Category: Z \u{2192} A"@[0] != "Rating: High \u{2192} Low"@[0]);
        assert("Category: Z \u{2192} A"@[0] != "Rating: Low \u{2192} High"@[0]);
        assert("Category: Z \u{2192} A"@[0] != "Name: A \u{2192} Z"@[0]);
        assert("Category: Z \u{2192} A"@[0] != "Name: Z \u{2192} A"@[0]);
        assert("Category: Z \u{2192} A"@[10] != "Category: A \u{2192} Z"@[10]);
        assert("Category: Z \u{2192} A"@.take(10)[0] != "Rating by "@[0]);
    }
    if option == "Price: Low \u{2192} High"@ {
        assert("Price: Low \u{2192} High"@[0] != "Rating: High \u{2192} Low"@[0]);
        assert("Price: Low \u{2192} High"@[0] != "Rating: Low \u{2192} High"@[0]);
        assert("Price: Low \u{2192} High"@[0] != "Name: A \u{2192} Z"@[0]);
        assert("Price: Low \u{2192} High"@[0] != "Name: Z \u{2192} A"@[0]);
        assert("Price: Low \u{2192} High"@[0] != "Category: A \u{2192} Z"@[0]);
        assert("Price: Low \u{2192} High"@[0] != "Category: Z \u{2192} A"@[0]);
        assert("Price: Low \u{2192} High"@.take(10)[0] != "Rating by "@[0]);
    }
    if option == "Price: High \u{2192} Low"@ {
        assert("Price: High \u{2192} Low"@[0] != "Rating: High \u{2192} Low"@[0]);
        assert("Price: High \u{2192} Low"@[0] != "Rating: Low \u{2192} High"@[0]);
        assert("Price: High \u{2192} Low"@[0] != "Name: A \u{2192} Z"@[0]);
        assert("Price: High \u{2192} Low"@[0] != "Name: Z \u{2192} A"@[0]);
        assert("Price: High \u{2192} Low"@[0] != "Category: A \u{2192} Z"@[0]);
        assert("Price: High \u{2192} Low"@[0] != "Category: Z \u{2192} A"@[0]);
        assert("Price: High \u{2192} Low"@[7] != "Price: Low \u{2192} High"@[7]);
        assert("Price: High \u{2192} Low"@.take(10)[0] != "Rating by "@[0]);
    }
    if option == "Purchase Date: Old \u{2192} New"@ {
        assert("Purchase Date: Old \u{2192} New"@[0] != "Rating: High \u{2192} Low"@[0]);
        assert("Purchase Date: Old \u{2192} New"@[0] != "Rating: Low \u{2192} High"@[0]);
        assert("Purchase Date: Old \u{2192} New"@[0] != "Name: A \u{2192} Z"@[0]);
        assert("Purchase Date: Old \u{2192} New"@[0] != "Name: Z \u{2192} A"@[0]);
        assert("Purchase Date: Old \u{2192} New"@[0] != "Category: A \u{2192} Z"@[0]);
        assert("Purchase Date: Old \u{2192} New"@[0] != "Category: Z \u{2192} A"@[0]);
        assert("Purchase Date: Old \u{2192} New"@[1] != "Price: Low \u{2192} High"@[1]);
        assert("Purchase Date: Old \u{2192} New"@[1] != "Price: High \u{2192} Low"@[1]);
        assert("Purchase Date: Old \u{2192} New"@.take(10)[0] != "Rating by "@[0]);
    }
    if option == "Purchase Date: New \u{2192} Old"@ {
        assert("Purchase Date: New \u{2192} Old"@[0] != "Rating: High \u{2192} Low"@[0]);
        assert("Purchase Date: New \u{2192} Old"@[0] != "Rating: Low \u{2192} High"@[0]);
        assert("Purchase Date: New \u{2192} Old"@[0] != "Name: A \u{2192} Z"@[0]);
        assert("Purchase Date: New \u{2192} Old"@[0] != "Name: Z \u{2192} A"@[0]);
        assert("Purchase Date: New \u{2192} Old"@[0] != "Category: A \u{2192} Z"@[0]);
        assert("Purchase Date: New \u{2192} Old"@[0] != "Category: Z \u{2192} A"@[0]);
        assert("Purchase Date: New \u{2192} Old"@[1] != "Price: Low \u{2192} High"@[1]);
        assert("Purchase Date: New \u{2192} Old"@[1] != "Price: High \u{2192} Low"@[1]);
        assert("Purchase Date: New \u{2192} Old"@[15] != "Purchase Date: Old \u{2192} New"@[15]);
        assert("Purchase Date: New \u{2192} Old"@.take(10)[0] != "Rating by "@[0]);
    }
    if option == "Notes: A \u{2192} Z"@ {
        assert("Notes: A \u{2192} Z"@[0] != "Rating: High \u{2192} Low"@[0]);
        assert("Notes: A \u{2192} Z"@[0] != "Rating: Low \u{2192} High"@[0]);
        assert("Notes: A \u{2192} Z"@[1] != "Name: A \u{2192} Z"@[1]);
        assert("Notes: A \u{2192} Z"@[1] != "Name: Z \u{2192} A"@[1]);
        assert("Notes: A \u{2192} Z"@[0] != "Category: A \u{2192} Z"@[0]);
        assert("Notes: A \u{2192} Z"@[0] != "Category: Z \u{2192} A"@[0]);
        assert("Notes: A \u{2192} Z"@[0] != "Price: Low \u{2192} High"@[0]);
        assert("Notes: A \u{2192} Z"@[0] != "Price: High \u{2192} Low"@[0]);
        assert("Notes: A \u{2192} Z"@[0] != "Purchase Date: Old \u{2192} New"@[0]);
        assert("Notes: A \u{2192} Z"@[0] != "Purchase Date: New \u{2192} Old"@[0]);
        assert("Notes: A \u{2192} Z"@.take(10)[0] != "Rating by "@[0]);
    }
    if option == "Notes: Z \u{2192} A"@ {
        assert("Notes: Z \u{2192} A"@[0] != "Rating: High \u{2192} Low"@[0]);
        assert("Notes: Z \u{2192} A"@[0] != "Rating: Low \u{2192} High"@[0]);
        assert("Notes: Z \u{2192} A"@[1] != "Name: A \u{2192} Z"@[1]);
        assert("Notes: Z \u{2192} A"@[1] != "Name: Z \u{2192} A"@[1]);
        assert("Notes: Z \u{2192} A"@[0] != "Category: A \u{2192} Z"@[0]);
        assert("Notes: Z \u{2192} A"@[0] != "Category: Z \u{2192} A"@[0]);
        assert("Notes: Z \u{2192} A"@[0] != "Price: Low \u{2192} High"@[0]);
        assert("Notes: Z \u{2192} A"@[0] != "Price: High \u{2192} Low"@[0]);
        assert("Notes: Z \u{2192} A"@[0] != "Purchase Date: Old \u{2192} New"@[0]);
        assert("Notes: Z \u{2192} A"@[0] != "Purchase Date: New \u{2192} Old"@[0]);
        assert("Notes: Z \u{2192} A"@[7] != "Notes: A \u{2192} Z"@[7]);
        assert("Notes: Z \u{2192} A"@.take(10)[0] != "Rating by "@[0]);
    }
    if (option.len() >= 22 && option.take(10) == "Rating by "@ && option.skip(option.len() - 12) == ": High \u{2192} Low"@) {
        assert(option.take(10)[6] != "Rating: High \u{2192} Low"@[6]);
        assert(option.take(10)[6] != "Rating: Low \u{2192} High"@[6]);
        assert(option.take(10)[0] != "Name: A \u{2192} Z"@[0]);
        assert(option.take(10)[0] != "Name: Z \u{2192} A"@[0]);
        assert(option.take(10)[0] != "Category: A \u{2192} Z"@[0]);
        assert(option.take(10)[0] != "Category: Z \u{2192} A"@[0]);
        assert(option.take(10)[0] != "Price: Low \u{2192} High"@[0]);
        assert(option.take(10)[0] != "Price: High \u{2192} Low"@[0]);
        assert(option.take(10)[0] != "Purchase Date: Old \u{2192} New"@[0]);
        assert(option.take(10)[0] != "Purchase Date: New \u{2192} Old"@[0]);
        assert(option.take(10)[0] != "Notes: A \u{2192} Z"@[0]);
        assert(option.take(10)[0] != "Notes: Z \u{2192} A"@[0]);
    }
    if (option.len() >= 22 && option.take(10) == "Rating by "@ && option.skip(option.len() - 12) == ": Low \u{2192} High"@) {
        assert(option.take(10)[6] != "Rating: High \u{2192} Low"@[6]);
        assert(option.take(10)[6] != "Rating: Low \u{2192} High"@[6]);
        assert(option.take(10)[0] != "Name: A \u{2192} Z"@[0]);
        assert(option.take(10)[0] != "Name: Z \u{2192} A"@[0]);
        assert(option.take(10)[0] != "Category: A \u{2192} Z"@[0]);
        assert(option.take(10)[0] != "Category: Z \u{2192} A"@[0]);
        assert(option.take(10)[0] != "Price: Low \u{2192} High"@[0]);
        assert(option.take(10)[0] != "Price: High \u{2192} Low"@[0]);
        assert(option.take(10)[0] != "Purchase Date: Old \u{2192} New"@[0]);
        assert(option.take(10)[0] != "Purchase Date: New \u{2192} Old"@[0]);
        assert(option.take(10)[0] != "Notes: A \u{2192} Z"@[0]);
        assert(option.take(10)[0] != "Notes: Z \u{2192} A"@[0]);
        assert(option.skip(option.len() - 12)[2] != ": High \u{2192} Low"@[2]);
    }
}

/// Each sort option orders the shown entries by what it names: the rating, the
/// name, category or notes in lower case, the price in cents, the purchase date
/// as written, or the named user's rating, either way as the option says, with
/// entries of equal keys in listing order; any other option keeps listing order.
pub proof fn lemma_sort_options_order_by_what_they_name(
    es: Seq<Entry>,
    sort_option: Seq<char>,
    search_text: Seq<char>,
    r: Seq<usize>,
)
    requires
        ({
            let (key, descending, user) = spec_sort_choice(sort_option);
            is_arrangement(
                r,
                |y: int| 0 <= y < es.len() && matches_search(es[y], search_query(search_text)),
                |i: int, j: int| collection_before(es, key, descending, user, i, j),
            )
        }),
    ensures
        forall|a: int, b: int|
            #![trigger r[a], r[b]]
            0 <= a < b < r.len() ==> ({
                let i = r[a] as int;
                let j = r[b] as int;
                let option = sort_option;
                let (ri, rj) = (es[i].rating_key, es[j].rating_key);
                let (ni, nj) = (spec_lowercase(es[i].name@), spec_lowercase(es[j].name@));
                let (ci, cj) = (spec_lowercase(es[i].category@), spec_lowercase(es[j].category@));
                let (pi, pj) = (price_cents(es[i].price@), price_cents(es[j].price@));
                let (di, dj) = (es[i].purchase_date@, es[j].purchase_date@);
                let (oi, oj) = (spec_lowercase(es[i].notes@), spec_lowercase(es[j].notes@));
                let by_user = option.len() >= 22 && option.take(10) == "Rating by "@;
                let by_user_high = by_user && option.skip(option.len() - 12) == ": High \u{2192} Low"@;
                let by_user_low = by_user && option.skip(option.len() - 12) == ": Low \u{2192} High"@;
                let user = option.subrange(10, option.len() - 12);
                let (ui, uj) = (user_rating_key(es[i].user_ratings@, user), user_rating_key(es[j].user_ratings@, user));
                let named = by_user_high || by_user_low
                    || option == "Rating: High \u{2192} Low"@
                    || option == "Rating: Low \u{2192} High"@
                    || option == "Name: A \u{2192} Z"@
                    || option == "Name: Z \u{2192} A"@
                    || option == "Category: A \u{2192} Z"@
                    || option == "Category: Z \u{2192} A"@
                    || option == "Price: Low \u{2192} High"@
                    || option == "Price: High \u{2192} Low"@
                    || option == "Purchase Date: Old \u{2192} New"@
                    || option == "Purchase Date: New \u{2192} Old"@
                    || option == "Notes: A \u{2192} Z"@
                    || option == "Notes: Z \u{2192} A"@;
                &&& option == "Rating: High \u{2192} Low"@ ==> ri > rj || (ri == rj && i < j)
                &&& option == "Rating: Low \u{2192} High"@ ==> ri < rj || (ri == rj && i < j)
                &&& option == "Name: A \u{2192} Z"@ ==> lex_less(ni, nj) || (ni == nj && i < j)
                &&& option == "Name: Z \u{2192} A"@ ==> lex_less(nj, ni) || (ni == nj && i < j)
                &&& option == "Category: A \u{2192} Z"@ ==> lex_less(ci, cj) || (ci == cj && i < j)
                &&& option == "Category: Z \u{2192} A"@ ==> lex_less(cj, ci) || (ci == cj && i < j)
                &&& option == "Price: Low \u{2192} High"@ ==> pi < pj || (pi == pj && i < j)
                &&& option == "Price: High \u{2192} Low"@ ==> pi > pj || (pi == pj && i < j)
                &&& option == "Purchase Date: Old \u{2192} New"@ ==> lex_less(di, dj) || (di == dj && i < j)
                &&& option == "Purchase Date: New \u{2192} Old"@ ==> lex_less(dj, di) || (di == dj && i < j)
                &&& option == "Notes: A \u{2192} Z"@ ==> lex_less(oi, oj) || (oi == oj && i < j)
                &&& option == "Notes: Z \u{2192} A"@ ==> lex_less(oj, oi) || (oi == oj && i < j)
                &&& by_user_high ==> ui > uj || (ui == uj && i < j)
                &&& by_user_low ==> ui < uj || (ui == uj && i < j)
                &&& !named ==> i < j
            }),
{
    lemma_sort_choice_of(sort_option);
    let (key, descending, user) = spec_sort_choice(sort_option);
    let before = |i: int, j: int| collection_before(es, key, descending, user, i, j);
    assert forall|a: int, b: int| #![trigger r[a], r[b]] 0 <= a < b < r.len() implies before(r[a] as int, r[b] as int) by {}
}

/// The entries whose season list names `season`, counted.
proof fn lemma_count_in_season_counts_entries(es: Seq<Entry>, season: Seq<char>)
    ensures
        count_in_season(es, season) == es.filter(|e: Entry| contains_seq(e.seasons@, season)).len(),
    decreases es.len(),
{
    reveal(Seq::filter);
    if es.len() > 0 {
        lemma_count_in_season_counts_entries(es.drop_last(), season);
    }
}

/// The most common season is the one that the most entries name, of several
/// the later in the order Spring, Summer, Fall, Winter; there is none exactly
/// when no entry names any season.
pub proof fn lemma_most_common_season_is_named_most(es: Seq<Entry>, s: Seq<char>)
    requires
        exists|k: int|
            is_last_max(season_counts(es), k) && s == if season_counts(es)[k] == 0 {
                Seq::empty()
            } else {
                season_name(k)
            },
    ensures
        ({
            let names = seq!["Spring"@, "Summer"@, "Fall"@, "Winter"@];
            let count = |t: Seq<char>| es.filter(|e: Entry| contains_seq(e.seasons@, t)).len() as int;
            &&& s.len() == 0 <==> forall|j: int| 0 <= j < 4 ==> count(#[trigger] names[j]) == 0
            &&& s.len() > 0 ==> exists|k: int|
                0 <= k < 4 && names[k] == s && forall|j: int|
                    0 <= j < 4 ==> count(#[trigger] names[j]) <= count(s) && (j > k ==> count(names[j]) < count(s))
        }),
{
    reveal_strlit("Spring");
    reveal_strlit("Summer");
    reveal_strlit("Fall");
    reveal_strlit("Winter");
    let names = seq!["Spring"@, "Summer"@, "Fall"@, "Winter"@];
    let counts = season_counts(es);
    let k = choose|k: int|
        is_last_max(counts, k) && s == if counts[k] == 0 {
            Seq::empty()
        } else {
            season_name(k)
        };
    assert forall|j: int| 0 <= j < 4 implies season_name(j) == #[trigger] names[j] by {
        if j == 0 {
        } else if j == 1 {
        } else if j == 2 {
        } else {
        }
    }
    assert forall|j: int| 0 <= j < 4 implies counts[j] == es.filter(|e: Entry| contains_seq(e.seasons@, #[trigger] names[j])).len() by {
        lemma_count_in_season_counts_entries(es, names[j]);
    }
    assert(counts[k] >= 0);
}

} // verus!
