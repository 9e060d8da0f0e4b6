//! The default order of the items: by falling score, and among equal scores by
//! rising name without regard to case.

use crate::frecency::frecency_score;
use crate::frecency::score_of;
use crate::frecency::FrecencyEntry;
use crate::frecency::FrecencyMap;
use crate::frecency::Score;
use crate::items::Item;
use crate::text::chars_of;
use crate::text::lowercased;
use crate::text::to_lowercase;
use vstd::prelude::*;

verus! {

/// Whether `a` stands before `b` in the order of strings: at the first place where
/// they differ `a` holds the lower code point, or `a` ends there and `b` goes on.
pub open spec fn lex_lt(a: Seq<char>, b: Seq<char>) -> bool
    decreases a.len(),
{
    if b.len() == 0 {
        false
    } else if a.len() == 0 {
        true
    } else if a[0] != b[0] {
        a[0] < b[0]
    } else {
        lex_lt(a.drop_first(), b.drop_first())
    }
}

/// The score by which an item is ranked: that of its usage, and zero where none
/// is recorded.
pub open spec fn item_score(item: Item, frecency: Map<Seq<char>, FrecencyEntry>, now: u64) -> Score {
    if frecency.contains_key(item.desktop_id@) {
        score_of(frecency[item.desktop_id@], now)
    } else {
        Score { count: 0, age: 0 }
    }
}

/// Whether a key of score `sa` and lowercase name `a` ranks strictly before one of
/// score `sb` and lowercase name `b`.
pub open spec fn key_before(sa: Score, a: Seq<char>, sb: Score, b: Seq<char>) -> bool {
    sa.exceeds(sb) || (!sb.exceeds(sa) && lex_lt(a, b))
}

/// Whether item `a` ranks strictly before item `b`: its score is higher, or the
/// scores are equal and its lowercase name comes first.
pub open spec fn precedes(a: Item, b: Item, frecency: Map<Seq<char>, FrecencyEntry>, now: u64) -> bool {
    key_before(
        item_score(a, frecency, now),
        lowercased(a.name@),
        item_score(b, frecency, now),
        lowercased(b.name@),
    )
}

/// A ranked sequence with one more item put in: behind every item that it does not
/// strictly precede, so that among equals the earlier arrival stays first.
pub open spec fn inserted(
    sorted: Seq<Item>,
    x: Item,
    frecency: Map<Seq<char>, FrecencyEntry>,
    now: u64,
) -> Seq<Item>
    decreases sorted.len(),
{
    if sorted.len() == 0 {
        seq![x]
    } else if precedes(x, sorted.last(), frecency, now) {
        inserted(sorted.drop_last(), x, frecency, now).push(sorted.last())
    } else {
        sorted.push(x)
    }
}

/// The items in their default order.
pub open spec fn ranked(items: Seq<Item>, frecency: Map<Seq<char>, FrecencyEntry>, now: u64) -> Seq<
    Item,
>
    decreases items.len(),
{
    if items.len() == 0 {
        Seq::empty()
    } else {
        inserted(ranked(items.drop_last(), frecency, now), items.last(), frecency, now)
    }
}

/// Where the place of the new item is known, putting it in is an insertion there.
proof fn lemma_inserted_at(
    sorted: Seq<Item>,
    x: Item,
    frecency: Map<Seq<char>, FrecencyEntry>,
    now: u64,
    at: int,
)
    requires
        0 <= at <= sorted.len(),
        forall|j: int| at <= j < sorted.len() ==> precedes(x, sorted[j], frecency, now),
        at == 0 || !precedes(x, sorted[at - 1], frecency, now),
    ensures
        inserted(sorted, x, frecency, now) == sorted.insert(at, x),
    decreases sorted.len(),
{
    if sorted.len() == 0 {
        assert(seq![x] =~= sorted.insert(at, x));
    } else if at == sorted.len() {
        assert(sorted.push(x) =~= sorted.insert(at, x));
    } else {
        lemma_inserted_at(sorted.drop_last(), x, frecency, now, at);
        assert(sorted.drop_last().insert(at, x).push(sorted.last()) =~= sorted.insert(at, x));
    }
}

/// Whether `a` stands before `b` in the order of strings.
pub fn lex_less(a: &str, b: &str) -> (less: bool)
    ensures
        less == lex_lt(a@, b@),
{
    let x = chars_of(a);
    let y = chars_of(b);
    let mut i: usize = 0;
    assert(x@.skip(0) == x@ && y@.skip(0) == y@);
    while i < x.len() && i < y.len()
        invariant
            i <= x.len(),
            i <= y.len(),
            x@ == a@,
            y@ == b@,
            lex_lt(x@, y@) == lex_lt(x@.skip(i as int), y@.skip(i as int)),
        decreases x.len() - i,
    {
        if x[i] != y[i] {
            return x[i] < y[i];
        }
        assert(x@.skip(i as int).drop_first() == x@.skip(i + 1));
        assert(y@.skip(i as int).drop_first() == y@.skip(i + 1));
        i += 1;
    }
    i < y.len()
}

/// Whether a key of score `sa` and lowercase name `a` ranks strictly before one of
/// score `sb` and lowercase name `b`.
pub fn outranks(sa: &Score, a: &str, sb: &Score, b: &str) -> (before: bool)
    ensures
        before == key_before(*sa, a@, *sb, b@),
{
    if sa.is_greater(sb) {
        true
    } else if sb.is_greater(sa) {
        false
    } else {
        lex_less(a, b)
    }
}

/// The score by which `item` is ranked at time `now`.
pub fn score_item(item: &Item, frecency: &FrecencyMap, now: u64) -> (s: Score)
    ensures
        s == item_score(*item, frecency@, now),
{
    match frecency.get(item.desktop_id.as_str()) {
        Some(e) => frecency_score(&e, now),
        None => Score::zero(),
    }
}

/// Whether `a` ranks strictly before `b` at time `now`.
pub fn ranks_before(a: &Item, b: &Item, frecency: &FrecencyMap, now: u64) -> (before: bool)
    ensures
        before == precedes(*a, *b, frecency@, now),
{
    let sa = score_item(a, frecency, now);
    let sb = score_item(b, frecency, now);
    let la = to_lowercase(a.name.as_str());
    let lb = to_lowercase(b.name.as_str());
    outranks(&sa, la.as_str(), &sb, lb.as_str())
}

/// Puts the items in their default order: by falling score at time `now`, among
/// equal scores by rising lowercase name, and among equal keys as they came.
pub fn order(items: Vec<Item>, frecency: &FrecencyMap, now: u64) -> (out: Vec<Item>)
    ensures
        out@ == ranked(items@, frecency@, now),
{
    let ghost all = items@;
    let mut rest = items;
    let mut out: Vec<Item> = Vec::new();
    let mut done: usize = 0;
    let total = rest.len();
    assert(all.take(0) == Seq::<Item>::empty());
    assert(all.skip(0) == all);
    while done < total
        invariant
            done <= total,
            total == all.len(),
            rest@ == all.skip(done as int),
            out@ == ranked(all.take(done as int), frecency@, now),
            out@.len() <= done,
        decreases total - done,
    {
        let x = rest.remove(0);
        assert(x == all[done as int]);
        assert(rest@ == all.skip(done + 1));
        let mut at: usize = out.len();
        while at > 0 && ranks_before(&x, &out[at - 1], frecency, now)
            invariant
                at <= out@.len(),
                forall|j: int| at <= j < out@.len() ==> precedes(x, out@[j], frecency@, now),
            decreases at,
        {
            at -= 1;
        }
        proof {
            lemma_inserted_at(out@, x, frecency@, now, at as int);
            assert(all.take(done + 1).drop_last() == all.take(done as int));
            lemma_ranked_len(all.take(done + 1), frecency@, now);
        }
        out.insert(at, x);
        done += 1;
    }
    assert(all.take(total as int) == all);
    out
}

/// Putting one item in makes the sequence longer by one.
pub proof fn lemma_inserted_len(
    sorted: Seq<Item>,
    x: Item,
    frecency: Map<Seq<char>, FrecencyEntry>,
    now: u64,
)
    ensures
        inserted(sorted, x, frecency, now).len() == sorted.len() + 1,
    decreases sorted.len(),
{
    if sorted.len() > 0 && precedes(x, sorted.last(), frecency, now) {
        lemma_inserted_len(sorted.drop_last(), x, frecency, now);
    }
}

/// Ranking keeps the number of items.
pub proof fn lemma_ranked_len(items: Seq<Item>, frecency: Map<Seq<char>, FrecencyEntry>, now: u64)
    ensures
        ranked(items, frecency, now).len() == items.len(),
    decreases items.len(),
{
    if items.len() > 0 {
        lemma_ranked_len(items.drop_last(), frecency, now);
        lemma_inserted_len(ranked(items.drop_last(), frecency, now), items.last(), frecency, now);
    }
}

/// Of three fractions with positive denominators, where the first is no less than
/// the second and the second no less than the third, the first is no less than
/// the third; and it is greater where one of the two steps is strict.
proof fn lemma_fractions_chain(an: int, ad: int, bn: int, bd: int, cn: int, cd: int)
    requires
        ad > 0,
        bd > 0,
        cd > 0,
        bn * ad <= an * bd,
        cn * bd <= bn * cd,
    ensures
        cn * ad <= an * cd,
        bn * ad < an * bd || cn * bd < bn * cd ==> cn * ad < an * cd,
{
    assert(cn * bd * ad <= bn * cd * ad) by (nonlinear_arith)
        requires
            cn * bd <= bn * cd,
            ad > 0,
    ;
    assert(bn * ad * cd <= an * bd * cd) by (nonlinear_arith)
        requires
            bn * ad <= an * bd,
            cd > 0,
    ;
    assert(bn * cd * ad == bn * ad * cd) by (nonlinear_arith);
    assert(cn * bd * ad == (cn * ad) * bd && an * bd * cd == (an * cd) * bd) by (nonlinear_arith);
    assert(cn * ad <= an * cd) by (nonlinear_arith)
        requires
            (cn * ad) * bd <= (an * cd) * bd,
            bd > 0,
    ;
    if bn * ad < an * bd {
        assert(bn * ad * cd < an * bd * cd) by (nonlinear_arith)
            requires
                bn * ad < an * bd,
                cd > 0,
        ;
        assert(cn * ad < an * cd) by (nonlinear_arith)
            requires
                (cn * ad) * bd < (an * cd) * bd,
                bd > 0,
        ;
    }
    if cn * bd < bn * cd {
        assert(cn * bd * ad < bn * cd * ad) by (nonlinear_arith)
            requires
                cn * bd < bn * cd,
                ad > 0,
        ;
        assert(cn * ad < an * cd) by (nonlinear_arith)
            requires
                (cn * ad) * bd < (an * cd) * bd,
                bd > 0,
        ;
    }
}

/// Scores are ordered as numbers are: where `a` is no less than `b` and `b` no
/// less than `c`, `a` is no less than `c`, and greater where one step is strict.
pub proof fn lemma_score_chain(a: Score, b: Score, c: Score)
    requires
        !b.exceeds(a),
        !c.exceeds(b),
    ensures
        !c.exceeds(a),
        a.exceeds(b) || b.exceeds(c) ==> a.exceeds(c),
{
    lemma_fractions_chain(a.num(), a.den(), b.num(), b.den(), c.num(), c.den());
}

/// No string stands before itself, and of two strings at most one stands before
/// the other.
pub proof fn lemma_lex_asymmetric(a: Seq<char>, b: Seq<char>)
    requires
        lex_lt(a, b),
    ensures
        !lex_lt(b, a),
    decreases a.len(),
{
    if a.len() > 0 && b.len() > 0 && a[0] == b[0] {
        lemma_lex_asymmetric(a.drop_first(), b.drop_first());
    }
}

/// Where `a` stands no later than `b` and `b` no later than `c`, `a` stands no
/// later than `c`.
pub proof fn lemma_lex_chain(a: Seq<char>, b: Seq<char>, c: Seq<char>)
    requires
        !lex_lt(b, a),
        !lex_lt(c, b),
    ensures
        !lex_lt(c, a),
    decreases a.len(),
{
    if a.len() > 0 {
        assert(b.len() > 0);
        assert(c.len() > 0);
        if a[0] == b[0] && b[0] == c[0] {
            lemma_lex_chain(a.drop_first(), b.drop_first(), c.drop_first());
        }
    }
}

/// Of two items at most one ranks strictly before the other.
pub proof fn lemma_precedes_asymmetric(
    a: Item,
    b: Item,
    frecency: Map<Seq<char>, FrecencyEntry>,
    now: u64,
)
    requires
        precedes(a, b, frecency, now),
    ensures
        !precedes(b, a, frecency, now),
{
    if !item_score(a, frecency, now).exceeds(item_score(b, frecency, now)) {
        lemma_lex_asymmetric(lowercased(a.name@), lowercased(b.name@));
    }
}

/// Where `a` ranks no later than `b` and `b` no later than `c`, `a` ranks no later
/// than `c`.
pub proof fn lemma_precedes_chain(
    a: Item,
    b: Item,
    c: Item,
    frecency: Map<Seq<char>, FrecencyEntry>,
    now: u64,
)
    requires
        !precedes(b, a, frecency, now),
        !precedes(c, b, frecency, now),
    ensures
        !precedes(c, a, frecency, now),
{
    let sa = item_score(a, frecency, now);
    let sb = item_score(b, frecency, now);
    let sc = item_score(c, frecency, now);
    lemma_score_chain(sa, sb, sc);
    if !sa.exceeds(sc) {
        lemma_lex_chain(lowercased(a.name@), lowercased(b.name@), lowercased(c.name@));
    }
}

/// Whether no item of the sequence ranks strictly before an item that stands
/// before it.
pub open spec fn is_ranked(s: Seq<Item>, frecency: Map<Seq<char>, FrecencyEntry>, now: u64) -> bool {
    forall|i: int, j: int| 0 <= i < j < s.len() ==> !precedes(s[j], s[i], frecency, now)
}

/// Putting an item into a sequence that is in order leaves it in order, and
/// holding what it held and the item.
pub proof fn lemma_inserted_ranked(
    sorted: Seq<Item>,
    x: Item,
    frecency: Map<Seq<char>, FrecencyEntry>,
    now: u64,
)
    requires
        is_ranked(sorted, frecency, now),
    ensures
        is_ranked(inserted(sorted, x, frecency, now), frecency, now),
        inserted(sorted, x, frecency, now).to_multiset() == sorted.to_multiset().insert(x),
        inserted(sorted, x, frecency, now).len() == sorted.len() + 1,
        forall|k: int|
            0 <= k < sorted.len() + 1 ==> #[trigger] inserted(sorted, x, frecency, now)[k] == x
                || sorted.contains(inserted(sorted, x, frecency, now)[k]),
    decreases sorted.len(),
{
    broadcast use vstd::seq_lib::group_to_multiset_ensures;

    let out = inserted(sorted, x, frecency, now);
    if sorted.len() == 0 {
        assert(out =~= Seq::<Item>::empty().push(x));
        assert(sorted =~= Seq::<Item>::empty());
    } else if precedes(x, sorted.last(), frecency, now) {
        let front = sorted.drop_last();
        let last = sorted.last();
        assert(is_ranked(front, frecency, now)) by {
            assert forall|i: int, j: int| 0 <= i < j < front.len() implies !precedes(
                front[j],
                front[i],
                frecency,
                now,
            ) by {
                assert(front[i] == sorted[i] && front[j] == sorted[j]);
            }
        }
        lemma_inserted_ranked(front, x, frecency, now);
        let mid = inserted(front, x, frecency, now);
        assert(out == mid.push(last));
        assert(sorted =~= front.push(last));
        assert forall|i: int, j: int| 0 <= i < j < out.len() implies !precedes(
            out[j],
            out[i],
            frecency,
            now,
        ) by {
            if j < mid.len() {
                assert(out[i] == mid[i] && out[j] == mid[j]);
            } else {
                assert(out[j] == last);
                assert(out[i] == mid[i]);
                if mid[i] == x {
                    lemma_precedes_asymmetric(x, last, frecency, now);
                } else {
                    assert(front.contains(mid[i]));
                    let k = choose|k: int| 0 <= k < front.len() && front[k] == mid[i];
                    assert(sorted[k] == mid[i]);
                    assert(!precedes(sorted[sorted.len() - 1], sorted[k], frecency, now));
                }
            }
        }
        assert forall|k: int| 0 <= k < sorted.len() + 1 implies #[trigger] out[k] == x
            || sorted.contains(out[k]) by {
            if k < mid.len() {
                assert(out[k] == mid[k]);
                if mid[k] != x {
                    let m = choose|m: int| 0 <= m < front.len() && front[m] == mid[k];
                    assert(sorted[m] == out[k]);
                }
            } else {
                assert(sorted[sorted.len() - 1] == out[k]);
            }
        }
    } else {
        assert(out == sorted.push(x));
        assert forall|i: int, j: int| 0 <= i < j < out.len() implies !precedes(
            out[j],
            out[i],
            frecency,
            now,
        ) by {
            if j < sorted.len() {
                assert(out[i] == sorted[i] && out[j] == sorted[j]);
            } else {
                assert(out[j] == x);
                assert(out[i] == sorted[i]);
                if i < sorted.len() - 1 {
                    assert(!precedes(sorted[sorted.len() - 1], sorted[i], frecency, now));
                    lemma_precedes_chain(sorted[i], sorted.last(), x, frecency, now);
                }
            }
        }
        assert forall|k: int| 0 <= k < sorted.len() + 1 implies #[trigger] out[k] == x
            || sorted.contains(out[k]) by {
            if k < sorted.len() {
                assert(sorted[k] == out[k]);
            }
        }
    }
}

/// The default order holds every item as often as the input holds it, and no
/// item of it ranks strictly before an item that stands before it: scores fall
/// along it, and among equal scores the lowercase names rise.
pub proof fn lemma_ranked_is_ranked(
    items: Seq<Item>,
    frecency: Map<Seq<char>, FrecencyEntry>,
    now: u64,
)
    ensures
        is_ranked(ranked(items, frecency, now), frecency, now),
        ranked(items, frecency, now).to_multiset() == items.to_multiset(),
    decreases items.len(),
{
    broadcast use vstd::seq_lib::group_to_multiset_ensures;

    if items.len() == 0 {
        assert(items =~= Seq::<Item>::empty());
    } else {
        lemma_ranked_is_ranked(items.drop_last(), frecency, now);
        lemma_inserted_ranked(ranked(items.drop_last(), frecency, now), items.last(), frecency, now);
        assert(items =~= items.drop_last().push(items.last()));
    }
}

/// The default order depends on nothing but the items, the usage map and the
/// time: the same inputs give the same order.
pub proof fn lemma_ranked_deterministic(
    items: Seq<Item>,
    again: Seq<Item>,
    frecency: Map<Seq<char>, FrecencyEntry>,
    frecency_again: Map<Seq<char>, FrecencyEntry>,
    now: u64,
)
    requires
        items == again,
        frecency == frecency_again,
    ensures
        ranked(items, frecency, now) == ranked(again, frecency_again, now),
{
}

} // verus!
