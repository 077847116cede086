//! The seasons a fragrance suits, stored as a comma-separated list.

use vstd::prelude::*;

use crate::text::{chars_of, contains_seq, occurs_at, str_contains, string_of};

verus! {

pub open spec fn spring() -> Seq<char> {
    "Spring"@
}

pub open spec fn summer() -> Seq<char> {
    "Summer"@
}

pub open spec fn fall() -> Seq<char> {
    "Fall"@
}

pub open spec fn winter() -> Seq<char> {
    "Winter"@
}

/// The names of the chosen seasons, in the order spring, summer, fall, winter.
pub open spec fn chosen_seasons(spring_on: bool, summer_on: bool, fall_on: bool, winter_on: bool) -> Seq<Seq<char>> {
    (if spring_on { seq![spring()] } else { Seq::empty() }) + (if summer_on { seq![summer()] } else { Seq::empty() }) + (
    if fall_on { seq![fall()] } else { Seq::empty() }) + (if winter_on { seq![winter()] } else { Seq::empty() })
}

/// The parts joined with commas in between.
pub open spec fn join_commas(parts: Seq<Seq<char>>) -> Seq<char>
    decreases parts.len(),
{
    if parts.len() == 0 {
        Seq::empty()
    } else if parts.len() == 1 {
        parts[0]
    } else {
        join_commas(parts.drop_last()) + seq![','] + parts.last()
    }
}

pub open spec fn spec_join_seasons(spring_on: bool, summer_on: bool, fall_on: bool, winter_on: bool) -> Seq<char> {
    join_commas(chosen_seasons(spring_on, summer_on, fall_on, winter_on))
}

/// Which seasons a stored season list mentions: spring, summer, fall, winter.
pub open spec fn spec_season_flags(seasons: Seq<char>) -> (bool, bool, bool, bool) {
    (
        contains_seq(seasons, spring()),
        contains_seq(seasons, summer()),
        contains_seq(seasons, fall()),
        contains_seq(seasons, winter()),
    )
}

/// The stored form of the chosen seasons, such as "Summer,Fall".
pub fn join_seasons(spring_on: bool, summer_on: bool, fall_on: bool, winter_on: bool) -> (r: String)
    ensures
        r@ == spec_join_seasons(spring_on, summer_on, fall_on, winter_on),
{
    let mut parts: Vec<&str> = Vec::new();
    if spring_on {
        parts.push("Spring");
    }
    if summer_on {
        parts.push("Summer");
    }
    if fall_on {
        parts.push("Fall");
    }
    if winter_on {
        parts.push("Winter");
    }
    let ghost chosen = chosen_seasons(spring_on, summer_on, fall_on, winter_on);
    assert(parts@.map_values(|p: &str| p@) == chosen);
    let mut out: Vec<char> = Vec::new();
    let mut k: usize = 0;
    while k < parts.len()
        invariant
            k <= parts@.len(),
            parts@.map_values(|p: &str| p@) == chosen,
            out@ == join_commas(chosen.take(k as int)),
        decreases parts.len() - k,
    {
        let ghost before = out@;
        if k > 0 {
            out.push(',');
        }
        let piece = chars_of(parts[k]);
        let mut t: usize = 0;
        let ghost mid = out@;
        while t < piece.len()
            invariant
                t <= piece@.len(),
                out@ == mid + piece@.take(t as int),
            decreases piece.len() - t,
        {
            out.push(piece[t]);
            assert(piece@.take(t + 1) == piece@.take(t as int).push(piece@[t as int]));
            t = t + 1;
        }
        assert(piece@.take(piece@.len() as int) == piece@);
        assert(piece@ == chosen[k as int]);
        assert(chosen.take(k + 1).drop_last() == chosen.take(k as int));
        if k == 0 {
            assert(chosen.take(1) == seq![chosen[0]]);
        }
        k = k + 1;
    }
    assert(chosen.take(parts@.len() as int) == chosen);
    string_of(&out)
}

/// Which seasons a stored season list mentions.
pub fn season_flags(seasons: &str) -> (r: (bool, bool, bool, bool))
    ensures
        r == spec_season_flags(seasons@),
{
    (
        str_contains(seasons, "Spring"),
        str_contains(seasons, "Summer"),
        str_contains(seasons, "Fall"),
        str_contains(seasons, "Winter"),
    )
}


/// A needle without a comma stands in `a , b` exactly when it stands in `a` or in `b`.
proof fn lemma_contains_around_comma(a: Seq<char>, b: Seq<char>, n: Seq<char>)
    requires
        !n.contains(','),
    ensures
        contains_seq(a + seq![','] + b, n) == (contains_seq(a, n) || contains_seq(b, n)),
{
    let h = a + seq![','] + b;
    if contains_seq(h, n) {
        let i = choose|i: int| occurs_at(h, n, i);
        if i + n.len() <= a.len() {
            assert(a.subrange(i, i + n.len()) == h.subrange(i, i + n.len()));
            assert(occurs_at(a, n, i));
        } else if i >= a.len() + 1 {
            let j = i - a.len() - 1;
            assert(b.subrange(j, j + n.len()) == h.subrange(i, i + n.len()));
            assert(occurs_at(b, n, j));
        } else {
            let k = a.len() - i;
            assert(h.subrange(i, i + n.len())[k] == h[a.len() as int]);
            assert(n[k] == ',');
            assert(n.contains(','));
        }
    }
    if contains_seq(a, n) {
        let i = choose|i: int| occurs_at(a, n, i);
        assert(a.subrange(i, i + n.len()) == h.subrange(i, i + n.len()));
        assert(occurs_at(h, n, i));
    }
    if contains_seq(b, n) {
        let j = choose|j: int| occurs_at(b, n, j);
        let i = j + a.len() + 1;
        assert(b.subrange(j, j + n.len()) == h.subrange(i, i + n.len()));
        assert(occurs_at(h, n, i));
    }
}

/// A non-empty needle without a comma stands in joined parts exactly when it
/// stands in one of the parts.
proof fn lemma_contains_joined(parts: Seq<Seq<char>>, n: Seq<char>)
    requires
        !n.contains(','),
        n.len() > 0,
    ensures
        contains_seq(join_commas(parts), n) == (exists|k: int| 0 <= k < parts.len() && #[trigger] contains_seq(parts[k], n)),
    decreases parts.len(),
{
    if parts.len() == 0 {
        if contains_seq(join_commas(parts), n) {
            let i = choose|i: int| occurs_at(join_commas(parts), n, i);
        }
    } else if parts.len() == 1 {
        if contains_seq(parts[0], n) {
            assert(contains_seq(parts[0], n));
        }
    } else {
        let init = parts.drop_last();
        lemma_contains_joined(init, n);
        lemma_contains_around_comma(join_commas(init), parts.last(), n);
        if contains_seq(join_commas(parts), n) {
            if contains_seq(join_commas(init), n) {
                let k = choose|k: int| 0 <= k < init.len() && #[trigger] contains_seq(init[k], n);
                assert(parts[k] == init[k]);
            } else {
                assert(contains_seq(parts[parts.len() - 1], n));
            }
        }
        if exists|k: int| 0 <= k < parts.len() && #[trigger] contains_seq(parts[k], n) {
            let k = choose|k: int| 0 <= k < parts.len() && #[trigger] contains_seq(parts[k], n);
            if k < parts.len() - 1 {
                assert(init[k] == parts[k]);
            }
        }
    }
}

/// When every window of `hay` as long as `needle` differs from it at offset `k`.
proof fn lemma_absent_by_offset(hay: Seq<char>, needle: Seq<char>, k: int)
    requires
        0 <= k < needle.len(),
        forall|p: int| k <= p && p - k + needle.len() <= hay.len() ==> #[trigger] hay[p] != needle[k],
    ensures
        !contains_seq(hay, needle),
{
    if contains_seq(hay, needle) {
        let i = choose|i: int| occurs_at(hay, needle, i);
        assert(hay.subrange(i, i + needle.len())[k] == hay[i + k]);
        assert(hay[i + k] != needle[k]);
    }
}

proof fn lemma_self_contained(s: Seq<char>)
    ensures
        contains_seq(s, s),
{
    assert(s.subrange(0, s.len() as int) == s);
    assert(occurs_at(s, s, 0));
}

pub open spec fn is_season_name(x: Seq<char>) -> bool {
    x == spring() || x == summer() || x == fall() || x == winter()
}

proof fn lemma_name_shapes()
    ensures
        !spring().contains(','),
        !summer().contains(','),
        !fall().contains(','),
        !winter().contains(','),
        spring().len() == 6,
        summer().len() == 6,
        fall().len() == 4,
        winter().len() == 6,
        spring() != summer(),
        spring() != fall(),
        spring() != winter(),
        summer() != fall(),
        summer() != winter(),
        fall() != winter(),
{
    reveal_strlit("Spring");
    reveal_strlit("Summer");
    reveal_strlit("Fall");
    reveal_strlit("Winter");
    assert(spring()[1] != summer()[1]);
    assert(spring()[0] != winter()[0]);
    assert(summer()[0] != winter()[0]);
}

proof fn lemma_spring_summer()
    ensures
        !contains_seq(spring(), summer()),
        !contains_seq(summer(), spring()),
        !contains_seq(spring(), winter()),
        !contains_seq(winter(), spring()),
        !contains_seq(summer(), winter()),
        !contains_seq(winter(), summer()),
{
    reveal_strlit("Spring");
    reveal_strlit("Summer");
    reveal_strlit("Winter");
    lemma_absent_by_offset(spring(), summer(), 1);
    lemma_absent_by_offset(summer(), spring(), 1);
    lemma_absent_by_offset(spring(), winter(), 0);
    lemma_absent_by_offset(winter(), spring(), 0);
    lemma_absent_by_offset(summer(), winter(), 0);
    lemma_absent_by_offset(winter(), summer(), 0);
}

proof fn lemma_fall_apart()
    ensures
        !contains_seq(spring(), fall()),
        !contains_seq(summer(), fall()),
        !contains_seq(winter(), fall()),
        !contains_seq(fall(), spring()),
        !contains_seq(fall(), summer()),
        !contains_seq(fall(), winter()),
{
    reveal_strlit("Spring");
    reveal_strlit("Summer");
    reveal_strlit("Fall");
    reveal_strlit("Winter");
    assert forall|p: int| 0 <= p && p + 4 <= 6 implies spring()[p] != 'F' && summer()[p] != 'F'
        && winter()[p] != 'F' by {
        if p == 0 {
        } else if p == 1 {
        } else {
            assert(p == 2);
        }
    }
    lemma_absent_by_offset(spring(), fall(), 0);
    lemma_absent_by_offset(summer(), fall(), 0);
    lemma_absent_by_offset(winter(), fall(), 0);
    lemma_absent_by_offset(fall(), spring(), 0);
    lemma_absent_by_offset(fall(), summer(), 0);
    lemma_absent_by_offset(fall(), winter(), 0);
}

/// Each season name stands in itself and in no other season name.
proof fn lemma_season_names(x: Seq<char>, y: Seq<char>)
    requires
        is_season_name(x),
        is_season_name(y),
    ensures
        contains_seq(x, y) <==> x == y,
{
    lemma_spring_summer();
    lemma_fall_apart();
    lemma_self_contained(x);
}

proof fn lemma_contains_concat<A>(a: Seq<A>, b: Seq<A>, x: A)
    ensures
        (a + b).contains(x) == (a.contains(x) || b.contains(x)),
{
    if (a + b).contains(x) {
        let i = choose|i: int| 0 <= i < (a + b).len() && (a + b)[i] == x;
        if i >= a.len() {
            assert(b[i - a.len()] == x);
        }
    }
    if a.contains(x) {
        let i = choose|i: int| 0 <= i < a.len() && a[i] == x;
        assert((a + b)[i] == x);
    }
    if b.contains(x) {
        let i = choose|i: int| 0 <= i < b.len() && b[i] == x;
        assert((a + b)[i + a.len()] == x);
    }
}

proof fn lemma_chosen_contains(spring_on: bool, summer_on: bool, fall_on: bool, winter_on: bool, x: Seq<char>)
    ensures
        chosen_seasons(spring_on, summer_on, fall_on, winter_on).contains(x) == (
        (spring_on && x == spring()) || (summer_on && x == summer()) || (fall_on && x == fall()) || (
        winter_on && x == winter())),
{
    let a = if spring_on { seq![spring()] } else { Seq::empty() };
    let b = if summer_on { seq![summer()] } else { Seq::empty() };
    let c = if fall_on { seq![fall()] } else { Seq::empty() };
    let d = if winter_on { seq![winter()] } else { Seq::empty() };
    lemma_contains_concat(a, b, x);
    lemma_contains_concat(a + b, c, x);
    lemma_contains_concat(a + b + c, d, x);
    assert(a.contains(x) == (spring_on && x == spring())) by {
        if spring_on && x == spring() {
            assert(a[0] == x);
        }
    }
    assert(b.contains(x) == (summer_on && x == summer())) by {
        if summer_on && x == summer() {
            assert(b[0] == x);
        }
    }
    assert(c.contains(x) == (fall_on && x == fall())) by {
        if fall_on && x == fall() {
            assert(c[0] == x);
        }
    }
    assert(d.contains(x) == (winter_on && x == winter())) by {
        if winter_on && x == winter() {
            assert(d[0] == x);
        }
    }
}

proof fn lemma_read_back_one(spring_on: bool, summer_on: bool, fall_on: bool, winter_on: bool, y: Seq<char>)
    requires
        is_season_name(y),
    ensures
        contains_seq(spec_join_seasons(spring_on, summer_on, fall_on, winter_on), y) == chosen_seasons(
            spring_on,
            summer_on,
            fall_on,
            winter_on,
        ).contains(y),
{
    let parts = chosen_seasons(spring_on, summer_on, fall_on, winter_on);
    lemma_name_shapes();
    lemma_contains_joined(parts, y);
    if exists|k: int| 0 <= k < parts.len() && #[trigger] contains_seq(parts[k], y) {
        let k = choose|k: int| 0 <= k < parts.len() && #[trigger] contains_seq(parts[k], y);
        assert(parts.contains(parts[k]));
        lemma_chosen_contains(spring_on, summer_on, fall_on, winter_on, parts[k]);
        lemma_season_names(parts[k], y);
    }
    if parts.contains(y) {
        let k = choose|k: int| 0 <= k < parts.len() && parts[k] == y;
        lemma_self_contained(y);
        assert(contains_seq(parts[k], y));
    }
}

/// What is saved is read back: the flags read from the stored season list of
/// the chosen seasons are the chosen seasons.
pub proof fn lemma_saved_seasons_read_back(spring_on: bool, summer_on: bool, fall_on: bool, winter_on: bool)
    ensures
        spec_season_flags(spec_join_seasons(spring_on, summer_on, fall_on, winter_on)) == (
            spring_on,
            summer_on,
            fall_on,
            winter_on,
        ),
{
    lemma_name_shapes();
    lemma_read_back_one(spring_on, summer_on, fall_on, winter_on, spring());
    lemma_read_back_one(spring_on, summer_on, fall_on, winter_on, summer());
    lemma_read_back_one(spring_on, summer_on, fall_on, winter_on, fall());
    lemma_read_back_one(spring_on, summer_on, fall_on, winter_on, winter());
    lemma_chosen_contains(spring_on, summer_on, fall_on, winter_on, spring());
    lemma_chosen_contains(spring_on, summer_on, fall_on, winter_on, summer());
    lemma_chosen_contains(spring_on, summer_on, fall_on, winter_on, fall());
    lemma_chosen_contains(spring_on, summer_on, fall_on, winter_on, winter());
}

} // verus!
