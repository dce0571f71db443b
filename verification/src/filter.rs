//! Matching a query against the items of a list, and the order of the matches.

use vstd::prelude::*;
use crate::text::copy_strings;
use crate::text::lowercase;
use crate::text::texts;
use crate::text::to_chars;
use crate::text::to_lowercase;

verus! {

/// The score of an item that is the query.
pub const EXACT: i32 = 100;

/// The score of an item that begins with the query.
pub const PREFIX: i32 = 80;

/// The score of an item that holds the query somewhere.
pub const INSIDE: i32 = 50;

/// The score of an item that holds the characters of the query in their order.
pub const SCATTERED: i32 = 10;

/// `s` begins with `q`.
pub open spec fn begins_with(s: Seq<char>, q: Seq<char>) -> bool {
    q.len() <= s.len() && s.take(q.len() as int) == q
}

/// `q` stands in `s` at `i`.
pub open spec fn stands_at(s: Seq<char>, q: Seq<char>, i: int) -> bool {
    0 <= i && i + q.len() <= s.len() && s.subrange(i, i + q.len()) == q
}

/// `q` stands somewhere in `s`.
pub open spec fn holds(s: Seq<char>, q: Seq<char>) -> bool {
    exists|i: int| stands_at(s, q, i)
}

/// `at` lists, in ascending order, places in `s` at which the characters of `q` stand.
pub open spec fn places(s: Seq<char>, q: Seq<char>, at: Seq<int>) -> bool {
    &&& at.len() == q.len()
    &&& forall|i: int| 0 <= i < at.len() ==> 0 <= #[trigger] at[i] < s.len() && s[at[i]] == q[i]
    &&& forall|i: int, j: int| 0 <= i < j < at.len() ==> #[trigger] at[i] < #[trigger] at[j]
}

/// The characters of `q` occur in `s` in their order, with or without gaps.
pub open spec fn holds_scattered(s: Seq<char>, q: Seq<char>) -> bool {
    exists|at: Seq<int>| places(s, q, at)
}

/// The score of an item against a query, both in lower case; `None` where it does not
/// match.
pub open spec fn score_of(item: Seq<char>, query: Seq<char>) -> Option<i32> {
    if item == query {
        Some(EXACT)
    } else if begins_with(item, query) {
        Some(PREFIX)
    } else if holds(item, query) {
        Some(INSIDE)
    } else if holds_scattered(item, query) {
        Some(SCATTERED)
    } else {
        None
    }
}

/// The items, in their order, whose lower-case form scores `n`.
pub open spec fn picked(
    items: Seq<Seq<char>>,
    lowered: Seq<Seq<char>>,
    query: Seq<char>,
    n: i32,
) -> Seq<Seq<char>>
    decreases items.len(),
{
    if items.len() == 0 {
        Seq::<Seq<char>>::empty()
    } else {
        let head = picked(items.drop_last(), lowered.drop_last(), query, n);
        if score_of(lowered.last(), query) == Some(n) {
            head.push(items.last())
        } else {
            head
        }
    }
}

/// The matching items: the better score first, equal scores in the order of the list.
pub open spec fn ranked_by(
    items: Seq<Seq<char>>,
    lowered: Seq<Seq<char>>,
    query: Seq<char>,
) -> Seq<Seq<char>> {
    picked(items, lowered, query, EXACT) + picked(items, lowered, query, PREFIX) + picked(
        items,
        lowered,
        query,
        INSIDE,
    ) + picked(items, lowered, query, SCATTERED)
}

/// Every text of a list in lower case.
pub open spec fn lowered_all(items: Seq<Seq<char>>) -> Seq<Seq<char>> {
    items.map_values(|t: Seq<char>| lowercase(t))
}

/// What a list shows for a query: all of it where the query is empty, and else the
/// matching items, without regard to case.
pub open spec fn ranked(items: Seq<Seq<char>>, query: Seq<char>) -> Seq<Seq<char>> {
    if query.len() == 0 {
        items
    } else {
        ranked_by(items, lowered_all(items), lowercase(query))
    }
}

// ---------------------------------------------------------------------------------------
// Characters in order
// ---------------------------------------------------------------------------------------

/// What is left of `q` after each character of `s` has taken away the first character of
/// the rest where it equals it.
spec fn unmatched(s: Seq<char>, q: Seq<char>) -> Seq<char>
    decreases s.len(),
{
    if s.len() == 0 {
        q
    } else if q.len() > 0 && q[0] == s[0] {
        unmatched(s.drop_first(), q.drop_first())
    } else {
        unmatched(s.drop_first(), q)
    }
}

proof fn lemma_unmatched_finds(s: Seq<char>, q: Seq<char>) -> (at: Seq<int>)
    requires
        unmatched(s, q).len() == 0,
    ensures
        places(s, q, at),
    decreases s.len(),
{
    if s.len() == 0 {
        Seq::<int>::empty()
    } else if q.len() > 0 && q[0] == s[0] {
        let inner = lemma_unmatched_finds(s.drop_first(), q.drop_first());
        let at = Seq::new(q.len(), |i: int| if i == 0 { 0int } else { inner[i - 1] + 1 });
        assert forall|i: int| 0 <= i < at.len() implies 0 <= #[trigger] at[i] < s.len() && s[at[i]]
            == q[i] by {
            if i > 0 {
                assert(0 <= inner[i - 1] < s.drop_first().len());
                assert(s.drop_first()[inner[i - 1]] == q.drop_first()[i - 1]);
            }
        }
        assert forall|i: int, j: int| 0 <= i < j < at.len() implies #[trigger] at[i]
            < #[trigger] at[j] by {
            assert(0 <= inner[j - 1]);
            if i > 0 {
                assert(inner[i - 1] < inner[j - 1]);
            }
        }
        at
    } else {
        let inner = lemma_unmatched_finds(s.drop_first(), q);
        let at = Seq::new(q.len(), |i: int| inner[i] + 1);
        assert forall|i: int| 0 <= i < at.len() implies 0 <= #[trigger] at[i] < s.len() && s[at[i]]
            == q[i] by {
            assert(0 <= inner[i] < s.drop_first().len());
            assert(s.drop_first()[inner[i]] == q[i]);
        }
        assert forall|i: int, j: int| 0 <= i < j < at.len() implies #[trigger] at[i]
            < #[trigger] at[j] by {
            assert(inner[i] < inner[j]);
        }
        at
    }
}

proof fn lemma_unmatched_misses_none(s: Seq<char>, q: Seq<char>, at: Seq<int>)
    requires
        places(s, q, at),
    ensures
        unmatched(s, q).len() == 0,
    decreases s.len(),
{
    if s.len() == 0 {
        if q.len() > 0 {
            assert(0 <= at[0] < s.len());
        }
    } else if q.len() > 0 && q[0] == s[0] {
        let inner = Seq::new((q.len() - 1) as nat, |i: int| at[i + 1] - 1);
        assert forall|i: int| 0 <= i < inner.len() implies 0 <= #[trigger] inner[i]
            < s.drop_first().len() && s.drop_first()[inner[i]] == q.drop_first()[i] by {
            assert(at[0] < at[i + 1]);
            assert(0 <= at[0]);
            assert(s[at[i + 1]] == q[i + 1]);
        }
        assert forall|i: int, j: int| 0 <= i < j < inner.len() implies #[trigger] inner[i]
            < #[trigger] inner[j] by {
            assert(at[i + 1] < at[j + 1]);
        }
        lemma_unmatched_misses_none(s.drop_first(), q.drop_first(), inner);
    } else {
        let inner = Seq::new(q.len(), |i: int| at[i] - 1);
        assert forall|i: int| 0 <= i < inner.len() implies 0 <= #[trigger] inner[i]
            < s.drop_first().len() && s.drop_first()[inner[i]] == q[i] by {
            assert(s[at[i]] == q[i]);
            if i > 0 {
                assert(at[0] < at[i]);
            }
            assert(0 <= at[0] && s[at[0]] == q[0]);
        }
        assert forall|i: int, j: int| 0 <= i < j < inner.len() implies #[trigger] inner[i]
            < #[trigger] inner[j] by {
            assert(at[i] < at[j]);
        }
        lemma_unmatched_misses_none(s.drop_first(), q, inner);
    }
}

/// Whether the characters of `q` occur in `s` in their order.
fn check_scattered(s: &Vec<char>, q: &Vec<char>) -> (r: bool)
    ensures
        r == holds_scattered(s@, q@),
{
    let mut i: usize = 0;
    let mut k: usize = 0;
    proof {
        assert(s@.skip(0) =~= s@);
        assert(q@.skip(0) =~= q@);
    }
    while i < s.len()
        invariant
            i <= s@.len(),
            k <= q@.len(),
            unmatched(s@.skip(i as int), q@.skip(k as int)) == unmatched(s@, q@),
        decreases s@.len() - i,
    {
        proof {
            assert(s@.skip(i as int).drop_first() =~= s@.skip(i + 1));
        }
        if k < q.len() && q[k] == s[i] {
            proof {
                assert(q@.skip(k as int).drop_first() =~= q@.skip(k + 1));
            }
            k += 1;
        }
        i += 1;
    }
    let r = k == q.len();
    proof {
        if r {
            let at = lemma_unmatched_finds(s@, q@);
        } else if holds_scattered(s@, q@) {
            let at = choose|at: Seq<int>| places(s@, q@, at);
            lemma_unmatched_misses_none(s@, q@, at);
        }
    }
    r
}

/// Whether `q` stands in `s` at `i`.
fn check_at(s: &Vec<char>, q: &Vec<char>, i: usize) -> (r: bool)
    requires
        i + q@.len() <= s@.len(),
    ensures
        r == stands_at(s@, q@, i as int),
{
    let n = s.len();
    let mut k: usize = 0;
    while k < q.len()
        invariant
            k <= q@.len(),
            i + q@.len() <= s@.len() == n,
            forall|j: int| 0 <= j < k ==> s@[i + j] == q@[j],
        decreases q@.len() - k,
    {
        if s[i + k] != q[k] {
            proof {
                assert(s@.subrange(i as int, i + q@.len())[k as int] != q@[k as int]);
            }
            return false;
        }
        k += 1;
    }
    proof {
        assert(s@.subrange(i as int, i + q@.len()) =~= q@);
    }
    true
}

/// Whether `q` stands somewhere in `s`.
fn check_inside(s: &Vec<char>, q: &Vec<char>) -> (r: bool)
    ensures
        r == holds(s@, q@),
{
    if q.len() > s.len() {
        return false;
    }
    let last: usize = s.len() - q.len();
    let mut i: usize = 0;
    while i <= last
        invariant
            i <= last + 1,
            last + q@.len() == s@.len(),
            forall|j: int| 0 <= j < i ==> !stands_at(s@, q@, j),
        decreases last + 1 - i,
    {
        if check_at(s, q, i) {
            return true;
        }
        if i == last {
            return false;
        }
        i += 1;
    }
    false
}

/// Scores an item against a query, both in lower case.
pub fn score_match(item_lower: &str, query_lower: &str) -> (r: Option<i32>)
    ensures
        r == score_of(item_lower@, query_lower@),
{
    let s = to_chars(item_lower);
    let q = to_chars(query_lower);
    if q.len() <= s.len() && check_at(&s, &q, 0) {
        proof {
            assert(s@.subrange(0, q@.len() as int) =~= s@.take(q@.len() as int));
        }
        if s.len() == q.len() {
            proof {
                assert(s@.take(q@.len() as int) =~= s@);
            }
            return Some(EXACT);
        }
        return Some(PREFIX);
    }
    proof {
        assert(!begins_with(s@, q@)) by {
            if begins_with(s@, q@) {
                assert(s@.subrange(0, q@.len() as int) =~= s@.take(q@.len() as int));
            }
        }
        if s@ == q@ {
            assert(s@.take(q@.len() as int) =~= s@);
        }
    }
    if check_inside(&s, &q) {
        Some(INSIDE)
    } else if check_scattered(&s, &q) {
        Some(SCATTERED)
    } else {
        None
    }
}

/// Ranks items by the scores of their lower-case forms.
pub fn rank_items(items: &Vec<String>, lowered: &Vec<String>, query_lower: &str) -> (r: Vec<String>)
    requires
        items@.len() == lowered@.len(),
    ensures
        texts(r@) == ranked_by(texts(items@), texts(lowered@), query_lower@),
{
    let mut exact: Vec<String> = Vec::new();
    let mut prefix: Vec<String> = Vec::new();
    let mut inside: Vec<String> = Vec::new();
    let mut scattered: Vec<String> = Vec::new();
    let ghost its = texts(items@);
    let ghost lows = texts(lowered@);
    let mut i: usize = 0;
    while i < items.len()
        invariant
            i <= items@.len(),
            items@.len() == lowered@.len(),
            its == texts(items@),
            lows == texts(lowered@),
            texts(exact@) =~= picked(its.take(i as int), lows.take(i as int), query_lower@, EXACT),
            texts(prefix@) =~= picked(its.take(i as int), lows.take(i as int), query_lower@, PREFIX),
            texts(inside@) =~= picked(its.take(i as int), lows.take(i as int), query_lower@, INSIDE),
            texts(scattered@) =~= picked(
                its.take(i as int),
                lows.take(i as int),
                query_lower@,
                SCATTERED,
            ),
        decreases items@.len() - i,
    {
        let score = score_match(lowered[i].as_str(), query_lower);
        let item = items[i].clone();
        proof {
            assert(its.take(i + 1).drop_last() =~= its.take(i as int));
            assert(lows.take(i + 1).drop_last() =~= lows.take(i as int));
            assert(its.take(i + 1).last() == item@);
            assert(lows.take(i + 1).last() == lowered@[i as int]@);
        }
        match score {
            Some(n) => {
                if n == EXACT {
                    exact.push(item);
                } else if n == PREFIX {
                    prefix.push(item);
                } else if n == INSIDE {
                    inside.push(item);
                } else {
                    scattered.push(item);
                }
            },
            None => {},
        }
        i += 1;
    }
    proof {
        assert(its.take(i as int) =~= its);
        assert(lows.take(i as int) =~= lows);
    }
    let ghost (a, b, c, d) = (texts(exact@), texts(prefix@), texts(inside@), texts(scattered@));
    let mut out: Vec<String> = Vec::new();
    out.append(&mut exact);
    out.append(&mut prefix);
    out.append(&mut inside);
    out.append(&mut scattered);
    proof {
        assert(texts(out@) =~= a + b + c + d);
    }
    out
}

/// Every string of a list in lower case.
pub(crate) fn lower_all(v: &Vec<String>) -> (r: Vec<String>)
    ensures
        texts(r@) == lowered_all(texts(v@)),
{
    let mut out: Vec<String> = Vec::new();
    let mut i: usize = 0;
    while i < v.len()
        invariant
            i <= v@.len(),
            texts(out@) =~= lowered_all(texts(v@)).take(i as int),
        decreases v@.len() - i,
    {
        let low = to_lowercase(v[i].as_str());
        let ghost before = texts(out@);
        out.push(low);
        i += 1;
        proof {
            assert(texts(out@) =~= before.push(lowercase(texts(v@)[i - 1])));
        }
    }
    proof {
        assert(texts(out@) =~= lowered_all(texts(v@)));
    }
    out
}

/// The items that a list shows for a query: all of them where the query is empty, and
/// else those that match without regard to case, the better match first and equal matches
/// in the order of the list.
pub fn filter_and_sort_items(items: &Vec<String>, query: &str) -> (r: Vec<String>)
    ensures
        texts(r@) == ranked(texts(items@), query@),
{
    if query.is_empty() {
        return copy_strings(items);
    }
    let query_lower = to_lowercase(query);
    let lowered = lower_all(items);
    proof {
        assert(texts(lowered@).len() == texts(items@).len());
    }
    rank_items(items, &lowered, query_lower.as_str())
}

// ---------------------------------------------------------------------------------------
// Laws
// ---------------------------------------------------------------------------------------

/// The score of an item for a query.
pub open spec fn match_score(item: Seq<char>, query: Seq<char>) -> Option<i32> {
    score_of(lowercase(item), lowercase(query))
}

spec fn hits(items: Seq<Seq<char>>, query: Seq<char>, n: i32) -> Seq<Seq<char>> {
    picked(items, lowered_all(items), lowercase(query), n)
}

proof fn lemma_hits_step(items: Seq<Seq<char>>, query: Seq<char>, n: i32)
    requires
        items.len() > 0,
    ensures
        hits(items, query, n) == if match_score(items.last(), query) == Some(n) {
            hits(items.drop_last(), query, n).push(items.last())
        } else {
            hits(items.drop_last(), query, n)
        },
{
    assert(lowered_all(items).drop_last() =~= lowered_all(items.drop_last()));
}

proof fn lemma_hits_contains(items: Seq<Seq<char>>, query: Seq<char>, n: i32, x: Seq<char>)
    ensures
        hits(items, query, n).contains(x) <==> items.contains(x) && match_score(x, query) == Some(n),
    decreases items.len(),
{
    if items.len() > 0 {
        lemma_hits_step(items, query, n);
        lemma_hits_contains(items.drop_last(), query, n, x);
        let rest = items.drop_last();
        assert(items =~= rest.push(items.last()));
        vstd::seq_lib::lemma_seq_contains_after_push(rest, items.last(), x);
        vstd::seq_lib::lemma_seq_contains_after_push(hits(rest, query, n), items.last(), x);
        if items.contains(x) {
            let k = choose|k: int| 0 <= k < items.len() && items[k] == x;
            if k < rest.len() {
                assert(rest[k] == x);
            }
        }
        if rest.contains(x) {
            let k = choose|k: int| 0 <= k < rest.len() && rest[k] == x;
            assert(items[k] == x);
        }
        if hits(items, query, n).contains(x) && match_score(items.last(), query) == Some(n) {
            let h = hits(rest, query, n);
            let k = choose|k: int|
                0 <= k < hits(items, query, n).len() && hits(items, query, n)[k] == x;
            if k < h.len() {
                assert(h[k] == x);
            } else {
                assert(x == items.last());
                assert(items[items.len() - 1] == x);
            }
        }
        if x == items.last() && match_score(x, query) == Some(n) {
            let h = hits(items, query, n);
            assert(h[h.len() - 1] == x);
        }
    }
}

/// A query shows an item if and only if the list holds it and it matches.
pub proof fn law_shown_iff_matching(items: Seq<Seq<char>>, query: Seq<char>, x: Seq<char>)
    requires
        query.len() > 0,
    ensures
        ranked(items, query).contains(x) <==> items.contains(x) && match_score(x, query) is Some,
{
    lemma_hits_contains(items, query, EXACT, x);
    lemma_hits_contains(items, query, PREFIX, x);
    lemma_hits_contains(items, query, INSIDE, x);
    lemma_hits_contains(items, query, SCATTERED, x);
    let (a, b, c, d) = (
        hits(items, query, EXACT),
        hits(items, query, PREFIX),
        hits(items, query, INSIDE),
        hits(items, query, SCATTERED),
    );
    vstd::seq_lib::lemma_seq_concat_contains_all_elements(a, b, x);
    vstd::seq_lib::lemma_seq_concat_contains_all_elements(a + b, c, x);
    vstd::seq_lib::lemma_seq_concat_contains_all_elements(a + b + c, d, x);
}

proof fn lemma_hits_score(items: Seq<Seq<char>>, query: Seq<char>, n: i32, i: int)
    requires
        0 <= i < hits(items, query, n).len(),
    ensures
        match_score(hits(items, query, n)[i], query) == Some(n),
{
    let h = hits(items, query, n);
    assert(h.contains(h[i]));
    lemma_hits_contains(items, query, n, h[i]);
}

/// A better match stands before a worse one.
pub proof fn law_better_match_first(items: Seq<Seq<char>>, query: Seq<char>, i: int, j: int)
    requires
        query.len() > 0,
        0 <= i <= j < ranked(items, query).len(),
    ensures
        match_score(ranked(items, query)[i], query) matches Some(a) && match_score(
            ranked(items, query)[j],
            query,
        ) matches Some(b) && a >= b,
{
    let (a, b, c, d) = (
        hits(items, query, EXACT),
        hits(items, query, PREFIX),
        hits(items, query, INSIDE),
        hits(items, query, SCATTERED),
    );
    let r = ranked(items, query);
    assert(r == a + b + c + d);
    assert forall|k: int| 0 <= k < r.len() implies #[trigger] match_score(r[k], query) == Some(
        if k < a.len() {
            EXACT
        } else if k < a.len() + b.len() {
            PREFIX
        } else if k < a.len() + b.len() + c.len() {
            INSIDE
        } else {
            SCATTERED
        },
    ) by {
        if k < a.len() {
            lemma_hits_score(items, query, EXACT, k);
        } else if k < a.len() + b.len() {
            lemma_hits_score(items, query, PREFIX, k - a.len());
        } else if k < a.len() + b.len() + c.len() {
            lemma_hits_score(items, query, INSIDE, k - a.len() - b.len());
        } else {
            lemma_hits_score(items, query, SCATTERED, k - a.len() - b.len() - c.len());
        }
    }
    assert(match_score(r[i], query) is Some);
    assert(match_score(r[j], query) is Some);
}

proof fn lemma_hits_append(x: Seq<Seq<char>>, y: Seq<Seq<char>>, query: Seq<char>, n: i32)
    ensures
        hits(x + y, query, n) == hits(x, query, n) + hits(y, query, n),
    decreases y.len(),
{
    if y.len() == 0 {
        assert(x + y =~= x);
        assert(hits(x, query, n) + hits(y, query, n) =~= hits(x, query, n));
    } else {
        assert((x + y).drop_last() =~= x + y.drop_last());
        lemma_hits_append(x, y.drop_last(), query, n);
        lemma_hits_step(x + y, query, n);
        lemma_hits_step(y, query, n);
        assert((x + y).last() == y.last());
        assert(hits(x + y, query, n) =~= hits(x, query, n) + hits(y, query, n));
    }
}

proof fn lemma_hits_of_hits(items: Seq<Seq<char>>, query: Seq<char>, n: i32, m: i32)
    ensures
        hits(hits(items, query, n), query, m) == if n == m {
            hits(items, query, n)
        } else {
            Seq::<Seq<char>>::empty()
        },
    decreases items.len(),
{
    if items.len() > 0 {
        lemma_hits_step(items, query, n);
        lemma_hits_of_hits(items.drop_last(), query, n, m);
        if match_score(items.last(), query) == Some(n) {
            let h = hits(items, query, n);
            lemma_hits_step(h, query, m);
            assert(h.drop_last() =~= hits(items.drop_last(), query, n));
        }
    } else {
        assert(hits(items, query, n) =~= Seq::<Seq<char>>::empty());
    }
}

/// Items that match equally well keep the order that they have in the list.
pub proof fn law_equal_matches_keep_order(items: Seq<Seq<char>>, query: Seq<char>, n: i32)
    requires
        query.len() > 0,
        n == EXACT || n == PREFIX || n == INSIDE || n == SCATTERED,
    ensures
        picked(
            ranked(items, query),
            lowered_all(ranked(items, query)),
            lowercase(query),
            n,
        ) == picked(items, lowered_all(items), lowercase(query), n),
{
    let (a, b, c, d) = (
        hits(items, query, EXACT),
        hits(items, query, PREFIX),
        hits(items, query, INSIDE),
        hits(items, query, SCATTERED),
    );
    lemma_hits_append(a + b + c, d, query, n);
    lemma_hits_append(a + b, c, query, n);
    lemma_hits_append(a, b, query, n);
    lemma_hits_of_hits(items, query, EXACT, n);
    lemma_hits_of_hits(items, query, PREFIX, n);
    lemma_hits_of_hits(items, query, INSIDE, n);
    lemma_hits_of_hits(items, query, SCATTERED, n);
    assert(hits(a + b + c + d, query, n) =~= hits(items, query, n));
}

/// Filtering again with the same query changes nothing.
pub proof fn law_filtering_twice(items: Seq<Seq<char>>, query: Seq<char>)
    ensures
        ranked(ranked(items, query), query) == ranked(items, query),
{
    if query.len() > 0 {
        law_equal_matches_keep_order(items, query, EXACT);
        law_equal_matches_keep_order(items, query, PREFIX);
        law_equal_matches_keep_order(items, query, INSIDE);
        law_equal_matches_keep_order(items, query, SCATTERED);
    }
}

proof fn lemma_hits_count(items: Seq<Seq<char>>, query: Seq<char>)
    ensures
        hits(items, query, EXACT).len() + hits(items, query, PREFIX).len() + hits(
            items,
            query,
            INSIDE,
        ).len() + hits(items, query, SCATTERED).len() <= items.len(),
    decreases items.len(),
{
    if items.len() > 0 {
        lemma_hits_step(items, query, EXACT);
        lemma_hits_step(items, query, PREFIX);
        lemma_hits_step(items, query, INSIDE);
        lemma_hits_step(items, query, SCATTERED);
        lemma_hits_count(items.drop_last(), query);
    }
}

/// A query never shows more items than the list holds.
pub proof fn law_filter_never_grows(items: Seq<Seq<char>>, query: Seq<char>)
    ensures
        ranked(items, query).len() <= items.len(),
{
    lemma_hits_count(items, query);
}

/// The case of a query never matters: queries with one lower-case form show the same items.
pub proof fn law_case_of_query_ignored(items: Seq<Seq<char>>, a: Seq<char>, b: Seq<char>)
    requires
        lowercase(a) == lowercase(b),
    ensures
        ranked(items, a) == ranked(items, b),
{
    if a.len() > 0 {
        assert(lowercase(a).len() > 0);
    }
    if b.len() > 0 {
        assert(lowercase(b).len() > 0);
    }
}

proof fn lemma_match_scattered(s: Seq<char>, q: Seq<char>)
    ensures
        score_of(s, q) is Some <==> holds_scattered(s, q),
{
    if s == q {
        assert(s.subrange(0, q.len() as int) =~= q);
        assert(stands_at(s, q, 0));
    }
    if begins_with(s, q) {
        assert(s.subrange(0, q.len() as int) =~= s.take(q.len() as int));
        assert(stands_at(s, q, 0));
    }
    if holds(s, q) {
        let k = choose|k: int| stands_at(s, q, k);
        let at = Seq::new(q.len(), |i: int| k + i);
        assert forall|i: int| 0 <= i < at.len() implies 0 <= #[trigger] at[i] < s.len() && s[at[i]]
            == q[i] by {
            assert(s.subrange(k, k + q.len())[i] == q[i]);
        }
        assert(places(s, q, at));
    }
}

/// A query shows an item if and only if the list holds it and there are ascending places in
/// its lower-case form at which the characters of the lower-case query stand in their order.
pub proof fn law_shown_iff_in_order(items: Seq<Seq<char>>, query: Seq<char>, x: Seq<char>)
    requires
        query.len() > 0,
    ensures
        ranked(items, query).contains(x) <==> items.contains(x) && exists|at: Seq<int>|
            {
                &&& #[trigger] at.len() == lowercase(query).len()
                &&& forall|i: int|
                    0 <= i < at.len() ==> 0 <= #[trigger] at[i] < lowercase(x).len() && lowercase(
                        x,
                    )[at[i]] == lowercase(query)[i]
                &&& forall|i: int, j: int|
                    0 <= i < j < at.len() ==> #[trigger] at[i] < #[trigger] at[j]
            },
{
    let (s, q) = (lowercase(x), lowercase(query));
    law_shown_iff_matching(items, query, x);
    lemma_match_scattered(s, q);
    if holds_scattered(s, q) {
        let at = choose|at: Seq<int>| places(s, q, at);
        assert(at.len() == q.len());
    }
    if exists|at: Seq<int>|
        {
            &&& #[trigger] at.len() == q.len()
            &&& forall|i: int|
                0 <= i < at.len() ==> 0 <= #[trigger] at[i] < s.len() && s[at[i]] == q[i]
            &&& forall|i: int, j: int|
                0 <= i < j < at.len() ==> #[trigger] at[i] < #[trigger] at[j]
        } {
        let at = choose|at: Seq<int>|
            {
                &&& #[trigger] at.len() == q.len()
                &&& forall|i: int|
                    0 <= i < at.len() ==> 0 <= #[trigger] at[i] < s.len() && s[at[i]] == q[i]
                &&& forall|i: int, j: int|
                    0 <= i < j < at.len() ==> #[trigger] at[i] < #[trigger] at[j]
            };
        assert(places(s, q, at));
    }
}

proof fn lemma_score_kinds(s: Seq<char>, q: Seq<char>)
    ensures
        s == q <==> score_of(s, q) == Some(EXACT),
        q.len() <= s.len() && s.take(q.len() as int) == q <==> (score_of(s, q) matches Some(n) && n
            >= PREFIX),
        (exists|k: int, e: int| 0 <= k && e == k + q.len() && e <= s.len() && #[trigger] s.subrange(k, e) == q)
            <==> (score_of(s, q) matches Some(n) && n >= INSIDE),
{
    if s == q {
        assert(s.take(q.len() as int) =~= q);
    }
    if q.len() <= s.len() && s.take(q.len() as int) == q {
        assert(s.subrange(0, q.len() as int) =~= q);
    }
    if exists|k: int, e: int| 0 <= k && e == k + q.len() && e <= s.len() && #[trigger] s.subrange(k, e) == q {
        let (k, e) = choose|k: int, e: int| 0 <= k && e == k + q.len() && e <= s.len() && #[trigger] s.subrange(k, e) == q;
        assert(stands_at(s, q, k));
    }
    if holds(s, q) {
        let k = choose|k: int| stands_at(s, q, k);
        let e = k + q.len();
        assert(s.subrange(k, e) == q);
    }
}

/// Among the items that a query shows, those that are the query come first, then those that
/// begin with it, then those that hold it anywhere.
pub proof fn law_exact_then_prefix_then_inside(
    items: Seq<Seq<char>>,
    query: Seq<char>,
    i: int,
    j: int,
)
    requires
        query.len() > 0,
        0 <= i <= j < ranked(items, query).len(),
    ensures
        ({
            let q = lowercase(query);
            let s = lowercase(ranked(items, query)[i]);
            let t = lowercase(ranked(items, query)[j]);
            &&& t == q ==> s == q
            &&& q.len() <= t.len() && t.take(q.len() as int) == q ==> q.len() <= s.len() && s.take(
                q.len() as int,
            ) == q
            &&& (exists|k: int, e: int| 0 <= k && e == k + q.len() && e <= t.len() && #[trigger] t.subrange(k, e) == q)
                ==> (exists|k: int, e: int| 0 <= k && e == k + q.len() && e <= s.len() && #[trigger] s.subrange(k, e) == q)
        }),
{
    law_better_match_first(items, query, i, j);
    lemma_score_kinds(lowercase(ranked(items, query)[i]), lowercase(query));
    lemma_score_kinds(lowercase(ranked(items, query)[j]), lowercase(query));
}

/// An item that is added at the end of a list comes behind all that match at least as well,
/// and before all that match worse; where it does not match, it changes nothing.
pub proof fn law_added_item_takes_its_place(
    items: Seq<Seq<char>>,
    query: Seq<char>,
    x: Seq<char>,
) -> (at: int)
    requires
        query.len() > 0,
    ensures
        !ranked(items.push(x), query).contains(x) ==> ranked(items.push(x), query) == ranked(
            items,
            query,
        ),
        ranked(items.push(x), query).contains(x) ==> {
            let old_list = ranked(items, query);
            let q = lowercase(query);
            let s = lowercase(x);
            &&& 0 <= at <= old_list.len()
            &&& ranked(items.push(x), query) == old_list.insert(at, x)
            &&& forall|j: int|
                #![trigger old_list[j]]
                at <= j < old_list.len() ==> {
                    let t = lowercase(old_list[j]);
                    ||| s == q && t != q
                    ||| (q.len() <= s.len() && s.take(q.len() as int) == q) && !(q.len() <= t.len()
                        && t.take(q.len() as int) == q)
                    ||| (exists|k: int, e: int| 0 <= k && e == k + q.len() && e <= s.len() && #[trigger] s.subrange(k, e) == q) && !(exists|k: int, e: int| 0 <= k && e == k + q.len() && e <= t.len() && #[trigger] t.subrange(k, e) == q)
                }
        },
{
    let all = items.push(x);
    let q = lowercase(query);
    assert(all.drop_last() =~= items);
    lemma_hits_step(all, query, EXACT);
    lemma_hits_step(all, query, PREFIX);
    lemma_hits_step(all, query, INSIDE);
    lemma_hits_step(all, query, SCATTERED);
    law_shown_iff_matching(all, query, x);
    assert(all[items.len() as int] == x);
    let (a, b, c, d) = (
        hits(items, query, EXACT),
        hits(items, query, PREFIX),
        hits(items, query, INSIDE),
        hits(items, query, SCATTERED),
    );
    let r = ranked(items, query);
    let at: int = match match_score(x, query) {
        Some(n) => if n == EXACT {
            a.len() as int
        } else if n == PREFIX {
            (a.len() + b.len()) as int
        } else if n == INSIDE {
            (a.len() + b.len() + c.len()) as int
        } else {
            r.len() as int
        },
        None => 0,
    };
    if match_score(x, query) is Some {
        assert(ranked(all, query) =~= r.insert(at, x));
        assert forall|j: int| #![trigger r[j]] at <= j < r.len() implies {
            let t = lowercase(r[j]);
            let s = lowercase(x);
            ||| s == q && t != q
            ||| (q.len() <= s.len() && s.take(q.len() as int) == q) && !(q.len() <= t.len()
                && t.take(q.len() as int) == q)
            ||| (exists|k: int, e: int| 0 <= k && e == k + q.len() && e <= s.len() && #[trigger] s.subrange(k, e) == q)
                && !(exists|k: int, e: int| 0 <= k && e == k + q.len() && e <= t.len() && #[trigger] t.subrange(k, e) == q)
        } by {
            lemma_score_kinds(lowercase(x), q);
            lemma_score_kinds(lowercase(r[j]), q);
            if j < a.len() {
                lemma_hits_score(items, query, EXACT, j);
            } else if j < a.len() + b.len() {
                lemma_hits_score(items, query, PREFIX, j - a.len());
            } else if j < a.len() + b.len() + c.len() {
                lemma_hits_score(items, query, INSIDE, j - a.len() - b.len());
            } else {
                lemma_hits_score(items, query, SCATTERED, j - a.len() - b.len() - c.len());
            }
        }
    } else {
        assert(ranked(all, query) =~= r);
    }
    at
}

/// The scores: 100 for an item that is the query, 80 for one that begins with it, 50 for one
/// that holds it further inside, 10 for one that holds its characters in their order at
/// ascending places, each where no higher one fits, and none for every other item.
pub proof fn law_scores(s: Seq<char>, q: Seq<char>)
    ensures
        ({
            let begins = q.len() <= s.len() && s.take(q.len() as int) == q;
            let inside = exists|k: int, e: int|
                0 <= k && e == k + q.len() && e <= s.len() && #[trigger] s.subrange(k, e) == q;
            let scattered = exists|at: Seq<int>|
                {
                    &&& #[trigger] at.len() == q.len()
                    &&& forall|i: int|
                        0 <= i < at.len() ==> 0 <= #[trigger] at[i] < s.len() && s[at[i]] == q[i]
                    &&& forall|i: int, j: int|
                        0 <= i < j < at.len() ==> #[trigger] at[i] < #[trigger] at[j]
                };
            &&& s == q ==> score_of(s, q) == Some(100i32)
            &&& s != q && begins ==> score_of(s, q) == Some(80i32)
            &&& !begins && inside ==> score_of(s, q) == Some(50i32)
            &&& !inside && scattered ==> score_of(s, q) == Some(10i32)
            &&& !scattered ==> score_of(s, q) is None
        }),
{
    lemma_score_kinds(s, q);
    lemma_match_scattered(s, q);
    if holds_scattered(s, q) {
        let at = choose|at: Seq<int>| places(s, q, at);
        assert(at.len() == q.len());
    }
    if exists|at: Seq<int>|
        {
            &&& #[trigger] at.len() == q.len()
            &&& forall|i: int|
                0 <= i < at.len() ==> 0 <= #[trigger] at[i] < s.len() && s[at[i]] == q[i]
            &&& forall|i: int, j: int|
                0 <= i < j < at.len() ==> #[trigger] at[i] < #[trigger] at[j]
        } {
        let at = choose|at: Seq<int>|
            {
                &&& #[trigger] at.len() == q.len()
                &&& forall|i: int|
                    0 <= i < at.len() ==> 0 <= #[trigger] at[i] < s.len() && s[at[i]] == q[i]
                &&& forall|i: int, j: int|
                    0 <= i < j < at.len() ==> #[trigger] at[i] < #[trigger] at[j]
            };
        assert(places(s, q, at));
    }
}

} // verus!
