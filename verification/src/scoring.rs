use vstd::prelude::*;

verus! {

/// A candidate move with the score the computer gives it.
#[derive(Clone, Copy, Debug, PartialEq, Eq, Structural)]
pub struct MoveScore {
    pub q: i32,
    pub r: i32,
    pub score: i32,
}

/// A candidate move with the parts its score is made of.
#[derive(Clone, Copy, Debug, PartialEq, Eq, Structural)]
pub struct MoveBreakdown {
    pub q: i32,
    pub r: i32,
    /// Number of stones the move turns over.
    pub flips: i32,
    /// 70 on the six corners, 30 on the rest of the rim, else 0.
    pub position_bonus: i32,
    /// Twice the distance from the centre.
    pub ring_penalty: i32,
    /// `100 * flips + position_bonus - ring_penalty`.
    pub score: i32,
}

/// The move and score of a breakdown.
pub open spec fn score_of(b: MoveBreakdown) -> MoveScore {
    MoveScore { q: b.q, r: b.r, score: b.score }
}

/// The reduction of breakdowns to scored moves.
pub open spec fn to_score() -> spec_fn(MoveBreakdown) -> MoveScore {
    |b: MoveBreakdown| score_of(b)
}

/// Whether a breakdown has score `v`.
pub open spec fn breakdown_score_is(v: i32) -> spec_fn(MoveBreakdown) -> bool {
    |b: MoveBreakdown| b.score == v
}

/// Whether a scored move has score `v`.
pub open spec fn move_score_is(v: i32) -> spec_fn(MoveScore) -> bool {
    |m: MoveScore| m.score == v
}

/// The highest score in a non-empty sequence of breakdowns.
pub open spec fn max_score(s: Seq<MoveBreakdown>) -> i32
    decreases s.len(),
{
    if s.len() <= 1 {
        s[0].score
    } else {
        let m = max_score(s.drop_last());
        if s.last().score > m {
            s.last().score
        } else {
            m
        }
    }
}

/// Where `x` goes in `t` so that it follows every element whose score is at
/// least its own: the length of the leading run of such elements.
pub open spec fn insert_at(t: Seq<MoveBreakdown>, x: MoveBreakdown) -> nat
    decreases t.len(),
{
    if t.len() == 0 {
        0
    } else if t[0].score >= x.score {
        1 + insert_at(t.drop_first(), x)
    } else {
        0
    }
}

/// The breakdowns ordered by descending score, equal scores keeping their
/// order (a stable sort by descending score).
pub open spec fn sort_by_score(s: Seq<MoveBreakdown>) -> Seq<MoveBreakdown>
    decreases s.len(),
{
    if s.len() == 0 {
        s
    } else {
        let t = sort_by_score(s.drop_last());
        t.insert(insert_at(t, s.last()) as int, s.last())
    }
}

/// Whether the scores never rise along the sequence.
pub open spec fn descending(s: Seq<MoveBreakdown>) -> bool {
    forall|i: int, j: int| 0 <= i < j < s.len() ==> s[i].score >= s[j].score
}

proof fn lemma_insert_at_bounds(t: Seq<MoveBreakdown>, x: MoveBreakdown)
    ensures
        insert_at(t, x) <= t.len(),
        forall|i: int| 0 <= i < insert_at(t, x) ==> t[i].score >= x.score,
        insert_at(t, x) < t.len() ==> t[insert_at(t, x) as int].score < x.score,
    decreases t.len(),
{
    if t.len() > 0 && t[0].score >= x.score {
        lemma_insert_at_bounds(t.drop_first(), x);
        assert forall|i: int| 0 <= i < insert_at(t, x) implies t[i].score >= x.score by {
            if i > 0 {
                assert(t[i] == t.drop_first()[i - 1]);
            }
        }
    }
}

/// Inserting at `insert_at` keeps a descending sequence descending.
proof fn lemma_insert_keeps_descending(t: Seq<MoveBreakdown>, x: MoveBreakdown)
    requires
        descending(t),
    ensures
        descending(t.insert(insert_at(t, x) as int, x)),
{
    lemma_insert_at_bounds(t, x);
    let k = insert_at(t, x) as int;
    let u = t.insert(k, x);
    assert forall|i: int, j: int| 0 <= i < j < u.len() implies u[i].score >= u[j].score by {
        if j < k {
        } else if j == k {
        } else if i < k {
            assert(u[j] == t[j - 1]);
        } else if i == k {
            assert(u[j] == t[j - 1]);
            assert(t[k].score < x.score);
            assert(t[k].score >= t[j - 1].score || k == j - 1);
        } else {
            assert(u[i] == t[i - 1]);
            assert(u[j] == t[j - 1]);
        }
    }
}

/// The stable sort orders by descending score.
pub proof fn lemma_sort_descending(s: Seq<MoveBreakdown>)
    ensures
        descending(sort_by_score(s)),
        sort_by_score(s).len() == s.len(),
    decreases s.len(),
{
    if s.len() > 0 {
        lemma_sort_descending(s.drop_last());
        lemma_insert_keeps_descending(sort_by_score(s.drop_last()), s.last());
        lemma_insert_at_bounds(sort_by_score(s.drop_last()), s.last());
    }
}

/// The stable sort keeps exactly the elements it was given.
pub proof fn lemma_sort_permutes(s: Seq<MoveBreakdown>)
    ensures
        sort_by_score(s).to_multiset() == s.to_multiset(),
    decreases s.len(),
{
    broadcast use vstd::seq_lib::group_to_multiset_ensures;
    if s.len() > 0 {
        lemma_sort_permutes(s.drop_last());
        let t = sort_by_score(s.drop_last());
        lemma_insert_at_bounds(t, s.last());
        let k = insert_at(t, s.last()) as int;
        assert(t.insert(k, s.last()) =~= t.take(k).push(s.last()) + t.skip(k));
        vstd::seq_lib::lemma_multiset_commutative(t.take(k).push(s.last()), t.skip(k));
        vstd::seq_lib::lemma_multiset_commutative(t.take(k), t.skip(k));
        assert(t =~= t.take(k) + t.skip(k));
        assert(s =~= s.drop_last().push(s.last()));
    }
}


proof fn lemma_filter_none(s: Seq<MoveBreakdown>, v: i32)
    requires
        forall|i: int| 0 <= i < s.len() ==> s[i].score != v,
    ensures
        s.filter(breakdown_score_is(v)) == Seq::<MoveBreakdown>::empty(),
    decreases s.len(),
{
    reveal_with_fuel(Seq::<_>::filter, 1);
    if s.len() > 0 {
        lemma_filter_none(s.drop_last(), v);
    }
    assert(s.filter(breakdown_score_is(v)) =~= Seq::<MoveBreakdown>::empty());
}

/// Every element of the sorted sequence comes from the input.
pub proof fn lemma_sorted_from_input(s: Seq<MoveBreakdown>, i: int)
    requires
        0 <= i < sort_by_score(s).len(),
    ensures
        s.contains(sort_by_score(s)[i]),
{
    broadcast use vstd::seq_lib::group_to_multiset_ensures;
    lemma_sort_permutes(s);
    let t = sort_by_score(s);
    assert(t.contains(t[i]));
    assert(t.to_multiset().count(t[i]) > 0);
}

/// Among the moves of any one score, the stable sort keeps the order it was
/// given: picking the moves with score `v` out of the sorted sequence gives
/// the same as picking them out of the input.
pub proof fn lemma_sort_keeps_order_within_score(s: Seq<MoveBreakdown>, v: i32)
    ensures
        sort_by_score(s).filter(breakdown_score_is(v)) == s.filter(breakdown_score_is(v)),
    decreases s.len(),
{
    let p = breakdown_score_is(v);
    if s.len() == 0 {
    } else {
        let x = s.last();
        let t = sort_by_score(s.drop_last());
        lemma_sort_keeps_order_within_score(s.drop_last(), v);
        lemma_sort_descending(s.drop_last());
        lemma_insert_at_bounds(t, x);
        let k = insert_at(t, x) as int;
        assert(t.insert(k, x) =~= t.take(k) + (seq![x] + t.skip(k)));
        assert(t =~= t.take(k) + t.skip(k));
        Seq::filter_distributes_over_add(t.take(k), seq![x] + t.skip(k), p);
        Seq::filter_distributes_over_add(seq![x], t.skip(k), p);
        Seq::filter_distributes_over_add(t.take(k), t.skip(k), p);
        reveal_with_fuel(Seq::<_>::filter, 2);
        assert(seq![x].drop_last() =~= Seq::<MoveBreakdown>::empty());
        s.drop_last().lemma_filter_push(x, p);
        assert(s.drop_last().push(x) =~= s);
        if x.score == v {
            assert forall|i: int| 0 <= i < t.skip(k).len() implies t.skip(k)[i].score != v by {
                assert(t.skip(k)[i] == t[k + i]);
                assert(t[k].score >= t[k + i].score);
            }
            lemma_filter_none(t.skip(k), v);
            assert(t.take(k).filter(p) + seq![x] =~= t.take(k).filter(p).push(x));
        } else {
            assert(seq![x].filter(p) =~= Seq::<MoveBreakdown>::empty());
        }
    }
}

/// The first breakdown after sorting has the highest score.
pub proof fn lemma_sort_first_is_max(s: Seq<MoveBreakdown>)
    requires
        s.len() > 0,
    ensures
        sort_by_score(s)[0].score == max_score(s),
    decreases s.len(),
{
    let x = s.last();
    let t = sort_by_score(s.drop_last());
    lemma_insert_at_bounds(t, x);
    if s.len() == 1 {
        assert(t.len() == 0) by {
            lemma_sort_descending(s.drop_last());
        }
    } else {
        lemma_sort_first_is_max(s.drop_last());
        lemma_sort_descending(s.drop_last());
    }
}

/// Picking moves by score commutes with reducing breakdowns to scores.
pub proof fn lemma_filter_score_of(s: Seq<MoveBreakdown>, v: i32)
    ensures
        s.map_values(to_score()).filter(move_score_is(v)) == s.filter(
            breakdown_score_is(v),
        ).map_values(to_score()),
    decreases s.len(),
{
    reveal_with_fuel(Seq::<_>::filter, 1);
    let f = to_score();
    if s.len() > 0 {
        lemma_filter_score_of(s.drop_last(), v);
        assert(s.map_values(f).drop_last() =~= s.drop_last().map_values(f));
        if s.last().score == v {
            assert(s.filter(breakdown_score_is(v)).map_values(f) =~= s.drop_last().filter(
                breakdown_score_is(v),
            ).map_values(f).push(f(s.last())));
        }
    }
    assert(s.map_values(f).filter(move_score_is(v)) =~= s.filter(breakdown_score_is(v)).map_values(f));
}


/// No breakdown scores above the highest score, and some breakdown reaches it.
pub proof fn lemma_max_score_bounds(s: Seq<MoveBreakdown>)
    requires
        s.len() > 0,
    ensures
        forall|i: int| 0 <= i < s.len() ==> (#[trigger] s[i]).score <= max_score(s),
        exists|i: int| 0 <= i < s.len() && (#[trigger] s[i]).score == max_score(s),
    decreases s.len(),
{
    if s.len() > 1 {
        lemma_max_score_bounds(s.drop_last());
        assert forall|i: int| 0 <= i < s.len() implies (#[trigger] s[i]).score <= max_score(s) by {
            if i < s.len() - 1 {
                assert(s[i] == s.drop_last()[i]);
            }
        }
        if s.last().score > max_score(s.drop_last()) {
            assert(s[s.len() - 1].score == max_score(s));
        } else {
            let i = choose|i: int| 0 <= i < s.len() - 1 && (#[trigger] s.drop_last()[i]).score == max_score(s.drop_last());
            assert(s[i] == s.drop_last()[i]);
        }
    } else {
        assert(s[0].score == max_score(s));
    }
}

} // verus!
