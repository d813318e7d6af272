//! The subdivision schedule by which a path is resampled to more segments.
//!
//! A path is seen here as the kinds of its segments: `true` for a `MoveTo`,
//! which is never split, `false` for a drawing segment (line, quadratic or
//! cubic), which splits at its midpoint into two drawing segments. Each
//! round splits, from the start of the path, as many drawing segments as
//! are still missing, but never more than the path has segments; rounds go
//! on until the target count is reached or a round has nothing to split.
use vstd::prelude::*;

verus! {

/// The number of drawing segments among the first `i` segments.
pub open spec fn drawing_before(kinds: Seq<bool>, i: int) -> nat
    decreases i,
{
    if i <= 0 {
        0
    } else {
        drawing_before(kinds, i - 1) + if kinds[i - 1] {
            0nat
        } else {
            1nat
        }
    }
}

/// The most segments one round may split: what is missing to the target,
/// but no more than the path has.
pub open spec fn round_quota(len: nat, target: nat) -> nat {
    if target >= 2 * len {
        len
    } else {
        (target - len) as nat
    }
}

/// Whether segment `i` splits in a round with quota `quota`: it draws, and
/// fewer than `quota` drawing segments come before it.
pub open spec fn splits(kinds: Seq<bool>, quota: nat, i: int) -> bool {
    !kinds[i] && drawing_before(kinds, i) < quota
}

/// The split flags of one round.
pub open spec fn split_flags(kinds: Seq<bool>, quota: nat) -> Seq<bool> {
    Seq::new(kinds.len(), |i: int| splits(kinds, quota, i))
}

/// The kinds of the first `i` segments after a round: each split segment
/// becomes two drawing segments.
pub open spec fn split_prefix(kinds: Seq<bool>, quota: nat, i: nat) -> Seq<bool>
    decreases i,
{
    if i == 0 {
        Seq::empty()
    } else {
        let prev = split_prefix(kinds, quota, (i - 1) as nat);
        if splits(kinds, quota, i - 1) {
            prev + seq![false, false]
        } else {
            prev.push(kinds[i - 1])
        }
    }
}

/// The smaller of two numbers.
pub open spec fn min_nat(a: nat, b: nat) -> nat {
    if a <= b {
        a
    } else {
        b
    }
}

/// A round over the first `i` segments adds one segment for each split
/// one, and keeps at least the drawing segments it had.
pub proof fn lemma_split_prefix(kinds: Seq<bool>, quota: nat, i: nat)
    requires
        i <= kinds.len(),
    ensures
        split_prefix(kinds, quota, i).len() == i + min_nat(quota, drawing_before(kinds, i as int)),
        drawing_before(split_prefix(kinds, quota, i), split_prefix(kinds, quota, i).len() as int)
            >= drawing_before(kinds, i as int),
    decreases i,
{
    if i > 0 {
        let j = (i - 1) as nat;
        lemma_split_prefix(kinds, quota, j);
        let prev = split_prefix(kinds, quota, j);
        let cur = split_prefix(kinds, quota, i);
        lemma_drawing_prefix(cur, prev);
        if splits(kinds, quota, j as int) {
            let a = prev.push(false);
            assert(cur =~= a.push(false));
            lemma_drawing_prefix(a, prev);
            lemma_drawing_prefix(cur, a);
        } else {
            assert(cur =~= prev.push(kinds[j as int]));
        }
    }
}

/// Counting the drawing segments of `s.push(x)`-style extensions: the
/// count over `s` is the count over its prefix `p` plus what follows.
proof fn lemma_drawing_prefix(s: Seq<bool>, p: Seq<bool>)
    requires
        p.len() <= s.len(),
        p =~= s.subrange(0, p.len() as int),
    ensures
        drawing_before(s, p.len() as int) == drawing_before(p, p.len() as int),
        s.len() == p.len() + 1 ==> drawing_before(s, s.len() as int) == drawing_before(p, p.len() as int)
            + if s.last() {
            0nat
        } else {
            1nat
        },
    decreases p.len(),
{
    lemma_drawing_same_prefix(s, p, p.len() as int);
}

/// Two sequences that agree on their first `i` elements count the same
/// drawing segments there.
proof fn lemma_drawing_same_prefix(s: Seq<bool>, p: Seq<bool>, i: int)
    requires
        0 <= i <= p.len(),
        i <= s.len(),
        forall|k: int| 0 <= k < i ==> s[k] == p[k],
    ensures
        drawing_before(s, i) == drawing_before(p, i),
    decreases i,
{
    if i > 0 {
        lemma_drawing_same_prefix(s, p, i - 1);
    }
}

/// The kinds after one round.
pub open spec fn split_round(kinds: Seq<bool>, target: nat) -> Seq<bool> {
    split_prefix(kinds, round_quota(kinds.len(), target), kinds.len())
}

/// The split flags of every round that splits something, in order.
pub open spec fn resample_rounds(kinds: Seq<bool>, target: nat) -> Seq<Seq<bool>>
    decreases target - kinds.len(),
{
    if kinds.len() == 0 || kinds.len() >= target || drawing_before(kinds, kinds.len() as int) == 0 {
        Seq::empty()
    } else {
        proof {
            lemma_split_prefix(kinds, round_quota(kinds.len(), target), kinds.len());
        }
        seq![split_flags(kinds, round_quota(kinds.len(), target))] + resample_rounds(
            split_round(kinds, target),
            target,
        )
    }
}

/// The kinds of the segments once resampling is over.
pub open spec fn resampled(kinds: Seq<bool>, target: nat) -> Seq<bool>
    decreases target - kinds.len(),
{
    if kinds.len() == 0 || kinds.len() >= target || drawing_before(kinds, kinds.len() as int) == 0 {
        kinds
    } else {
        proof {
            lemma_split_prefix(kinds, round_quota(kinds.len(), target), kinds.len());
        }
        resampled(split_round(kinds, target), target)
    }
}

/// The kinds of the first `i` segments after splitting those flagged in
/// `flags`: each flagged segment becomes two drawing segments.
pub open spec fn apply_flags(kinds: Seq<bool>, flags: Seq<bool>, i: nat) -> Seq<bool>
    decreases i,
{
    if i == 0 {
        Seq::empty()
    } else {
        let prev = apply_flags(kinds, flags, (i - 1) as nat);
        if flags[i - 1] {
            prev + seq![false, false]
        } else {
            prev.push(kinds[i - 1])
        }
    }
}

/// The kinds after applying a list of rounds of split flags, in order.
pub open spec fn apply_rounds(kinds: Seq<bool>, rounds: Seq<Seq<bool>>) -> Seq<bool>
    decreases rounds.len(),
{
    if rounds.len() == 0 {
        kinds
    } else {
        apply_rounds(apply_flags(kinds, rounds[0], kinds.len()), rounds.drop_first())
    }
}

/// Splitting by a round's flags is the round's split.
proof fn lemma_apply_split_flags(kinds: Seq<bool>, quota: nat, i: nat)
    requires
        i <= kinds.len(),
    ensures
        apply_flags(kinds, split_flags(kinds, quota), i) == split_prefix(kinds, quota, i),
    decreases i,
{
    if i > 0 {
        lemma_apply_split_flags(kinds, quota, (i - 1) as nat);
    }
}

/// Law: applying the rounds of the schedule, one after the other, to the
/// segment kinds gives the resampled kinds; with
/// `lemma_resample_reaches_target`, the schedule that `resample_plan`
/// returns brings a path with a drawing segment to exactly the target
/// count.
pub proof fn lemma_rounds_give_resampled(kinds: Seq<bool>, target: nat)
    ensures
        apply_rounds(kinds, resample_rounds(kinds, target)) == resampled(kinds, target),
    decreases target - kinds.len(),
{
    if !(kinds.len() == 0 || kinds.len() >= target || drawing_before(kinds, kinds.len() as int) == 0) {
        let q = round_quota(kinds.len(), target);
        lemma_split_prefix(kinds, q, kinds.len());
        let f = split_flags(kinds, q);
        let next = split_round(kinds, target);
        lemma_apply_split_flags(kinds, q, kinds.len());
        lemma_rounds_give_resampled(next, target);
        let rounds = resample_rounds(kinds, target);
        let rest = resample_rounds(next, target);
        assert(rounds == seq![f] + rest);
        assert(rounds[0] == f);
        assert(rounds.drop_first() =~= rest);
    }
}

/// The views of a list of split-flag vectors.
pub open spec fn rounds_view(r: Seq<Vec<bool>>) -> Seq<Seq<bool>> {
    r.map_values(|v: Vec<bool>| v@)
}

/// One round of the schedule: the split flags, and the kinds after it.
fn plan_round(kinds: &Vec<bool>, quota: usize) -> (r: (Vec<bool>, Vec<bool>, usize))
    ensures
        r.0@ == split_flags(kinds@, quota as nat),
        r.1@ == split_prefix(kinds@, quota as nat, kinds@.len()),
        r.2 == min_nat(quota as nat, drawing_before(kinds@, kinds@.len() as int)),
{
    let mut flags: Vec<bool> = Vec::new();
    let mut next: Vec<bool> = Vec::new();
    let mut drawing: usize = 0;
    let mut split: usize = 0;
    let mut i: usize = 0;
    while i < kinds.len()
        invariant
            i <= kinds@.len(),
            drawing == drawing_before(kinds@, i as int),
            drawing <= i,
            split == min_nat(quota as nat, drawing as nat),
            flags@ =~= Seq::new(i as nat, |k: int| splits(kinds@, quota as nat, k)),
            next@ == split_prefix(kinds@, quota as nat, i as nat),
        decreases kinds@.len() - i,
    {
        let is_move = kinds[i];
        let split_here = !is_move && drawing < quota;
        flags.push(split_here);
        if split_here {
            next.push(false);
            next.push(false);
            split += 1;
        } else {
            next.push(is_move);
        }
        proof {
            let prev = split_prefix(kinds@, quota as nat, i as nat);
            if split_here {
                assert(split_prefix(kinds@, quota as nat, (i + 1) as nat) =~= prev + seq![false, false]);
            }
        }
        if !is_move {
            drawing += 1;
        }
        i += 1;
    }
    (flags, next, split)
}

/// The split flags of each round that resampling a path with segment kinds
/// `kinds` to `target_count` segments goes through: round by round, which
/// of the current segments split at their midpoint.
pub fn resample_plan(kinds: &Vec<bool>, target_count: usize) -> (r: Vec<Vec<bool>>)
    ensures
        rounds_view(r@) == resample_rounds(kinds@, target_count as nat),
        apply_rounds(kinds@, rounds_view(r@)) == resampled(kinds@, target_count as nat),
{
    proof {
        lemma_rounds_give_resampled(kinds@, target_count as nat);
    }
    let mut cur: Vec<bool> = kinds.clone();
    let mut rounds: Vec<Vec<bool>> = Vec::new();
    proof {
        assert(cur@ == kinds@);
    }
    if cur.len() == 0 || cur.len() >= target_count {
        return rounds;
    }
    let ghost whole = resample_rounds(kinds@, target_count as nat);
    loop
        invariant
            0 < cur@.len() <= target_count,
            rounds_view(rounds@) + resample_rounds(cur@, target_count as nat) == whole,
        ensures
            rounds_view(rounds@) == whole,
        decreases target_count - cur@.len(),
    {
        if cur.len() >= target_count {
            proof {
                assert(rounds_view(rounds@) + Seq::<Seq<bool>>::empty() =~= rounds_view(rounds@));
            }
            break;
        }
        let len = cur.len();
        let quota = if target_count - len >= len {
            len
        } else {
            target_count - len
        };
        let (flags, next, split) = plan_round(&cur, quota);
        proof {
            lemma_split_prefix(cur@, quota as nat, cur@.len());
        }
        if split == 0 {
            proof {
                assert(resample_rounds(cur@, target_count as nat) == Seq::<Seq<bool>>::empty());
                assert(rounds_view(rounds@) + Seq::<Seq<bool>>::empty() =~= rounds_view(rounds@));
            }
            break;
        }
        let ghost before = rounds_view(rounds@);
        rounds.push(flags);
        proof {
            assert(rounds_view(rounds@) =~= before.push(split_flags(cur@, quota as nat)));
            let rest = resample_rounds(next@, target_count as nat);
            assert(resample_rounds(cur@, target_count as nat) == seq![split_flags(cur@, quota as nat)] + rest);
            assert(before + (seq![split_flags(cur@, quota as nat)] + rest) =~= before.push(
                split_flags(cur@, quota as nat),
            ) + rest);
        }
        cur = next;
    }
    rounds
}

/// Law: resampling never loses segments and reaches exactly the target
/// count whenever the path has a drawing segment; a path of moves alone,
/// or one already long enough, keeps its segments as they are.
pub proof fn lemma_resample_reaches_target(kinds: Seq<bool>, target: nat)
    ensures
        resampled(kinds, target).len() >= kinds.len(),
        kinds.len() > 0 && drawing_before(kinds, kinds.len() as int) > 0 && kinds.len() <= target
            ==> resampled(kinds, target).len() == target,
        kinds.len() == 0 || kinds.len() >= target || drawing_before(kinds, kinds.len() as int) == 0
            ==> resampled(kinds, target) == kinds,
    decreases target - kinds.len(),
{
    if !(kinds.len() == 0 || kinds.len() >= target || drawing_before(kinds, kinds.len() as int) == 0) {
        let q = round_quota(kinds.len(), target);
        lemma_split_prefix(kinds, q, kinds.len());
        let next = split_round(kinds, target);
        assert(next.len() <= target);
        lemma_resample_reaches_target(next, target);
    }
}

/// The number of moves among the first `i` segments.
pub open spec fn moves_before(kinds: Seq<bool>, i: int) -> nat
    decreases i,
{
    if i <= 0 {
        0
    } else {
        moves_before(kinds, i - 1) + if kinds[i - 1] {
            1nat
        } else {
            0nat
        }
    }
}

/// A closed path of a single contour: it starts with its only move.
pub open spec fn single_closed_contour(closed: bool, kinds: Seq<bool>) -> bool {
    &&& closed
    &&& kinds.len() > 0
    &&& kinds[0]
    &&& moves_before(kinds, kinds.len() as int) == 1
}

/// Whether a path is one closed contour, the only shape whose start may be
/// rotated or reversed when it is aligned to another path.
pub fn is_single_closed_contour(closed: bool, kinds: &Vec<bool>) -> (r: bool)
    ensures
        r == single_closed_contour(closed, kinds@),
{
    if !closed || kinds.len() == 0 || !kinds[0] {
        return false;
    }
    let mut moves: usize = 0;
    let mut i: usize = 0;
    while i < kinds.len()
        invariant
            i <= kinds@.len(),
            moves == moves_before(kinds@, i as int),
            moves <= i,
        decreases kinds@.len() - i,
    {
        if kinds[i] {
            moves += 1;
        }
        i += 1;
    }
    moves == 1
}

/// One segment of a contour restarted at another of its points.
#[derive(Clone, Copy, Debug, PartialEq, Eq, Structural)]
pub enum RotatedSegment {
    /// Segment `k` of the contour, unchanged.
    Keep(usize),
    /// A straight line to the contour's first point: the closing edge of
    /// the contour, made explicit.
    CloseToStart,
}

/// The end point that a rotated segment reaches, as an index into the end
/// points of the contour's segments (the first point is that of segment 0).
pub open spec fn reaches(seg: RotatedSegment) -> nat {
    match seg {
        RotatedSegment::Keep(k) => k as nat,
        RotatedSegment::CloseToStart => 0,
    }
}

/// A single closed contour of `n` segments (a move to point 0, then
/// segments to points 1 to `n - 1`, then the implicit closing edge back to
/// point 0) restarted at point `shift`: a move to point `shift`, then the
/// segments to points `shift + 1` to `n - 1`, the closing edge made
/// explicit as a line to point 0, and the segments to points 1 to
/// `shift - 1`. The segment into point `shift` becomes the new implicit
/// closing edge. Entry `i` reaches point `(shift + 1 + i) % n`.
pub open spec fn rotation_plan(n: nat, shift: nat) -> Seq<RotatedSegment> {
    Seq::new(
        (n - 1) as nat,
        |i: int|
            if shift + 1 + i < n {
                RotatedSegment::Keep((shift + 1 + i) as usize)
            } else if shift + 1 + i == n {
                RotatedSegment::CloseToStart
            } else {
                RotatedSegment::Keep((shift + 1 + i - n) as usize)
            },
    )
}

/// The plan by which a single closed contour of `n` segments is restarted
/// at point `shift`: the index of the point its new move goes to, and the
/// segments that follow the move.
pub fn rotated_order(n: usize, shift: usize) -> (r: (usize, Vec<RotatedSegment>))
    requires
        0 < n,
        shift < n,
    ensures
        r.0 == shift,
        r.1@ == rotation_plan(n as nat, shift as nat),
{
    let wrap = n - shift - 1;
    let mut order: Vec<RotatedSegment> = Vec::new();
    let mut i: usize = 0;
    while i < n - 1
        invariant
            0 < n,
            shift < n,
            wrap == n - shift - 1,
            i <= n - 1,
            order@ =~= rotation_plan(n as nat, shift as nat).take(i as int),
        decreases n - 1 - i,
    {
        let seg = if i < wrap {
            RotatedSegment::Keep(shift + 1 + i)
        } else if i == wrap {
            RotatedSegment::CloseToStart
        } else {
            RotatedSegment::Keep(i - wrap)
        };
        order.push(seg);
        proof {
            assert(order@ =~= rotation_plan(n as nat, shift as nat).take(i + 1));
        }
        i += 1;
    }
    proof {
        assert(rotation_plan(n as nat, shift as nat).take(i as int) =~= rotation_plan(n as nat, shift as nat));
    }
    (shift, order)
}

/// Law: restarting a contour is a rotation. After the move to point
/// `shift`, entry `i` reaches point `(shift + 1 + i) % n`, so the end
/// points come in the contour's own order starting at `shift`; no entry is
/// a move, so the move stays the only one; every original segment other
/// than the one into point `shift` is kept exactly once; and the closing
/// edge is made explicit exactly when the start moves.
pub proof fn lemma_rotation_is_rotation(n: nat, shift: nat)
    requires
        0 < n <= usize::MAX,
        shift < n,
    ensures
        rotation_plan(n, shift).len() == n - 1,
        forall|i: int|
            0 <= i < n - 1 ==> reaches(#[trigger] rotation_plan(n, shift)[i]) == (shift + 1 + i) % (n as int),
        forall|i: int|
            0 <= i < n - 1 ==> (#[trigger] rotation_plan(n, shift)[i] matches RotatedSegment::Keep(k) ==> 1 <= k
                < n && k != shift),
        forall|k: nat|
            1 <= k < n && k != shift ==> #[trigger] rotation_plan(n, shift).contains(
                RotatedSegment::Keep(k as usize),
            ),
        rotation_plan(n, shift).no_duplicates(),
        rotation_plan(n, shift).contains(RotatedSegment::CloseToStart) <==> shift > 0,
{
    let s = rotation_plan(n, shift);
    assert forall|i: int| 0 <= i < n - 1 implies reaches(#[trigger] s[i]) == (shift + 1 + i) % (n as int) by {
        let x = shift + 1 + i;
        if x < n {
            vstd::arithmetic::div_mod::lemma_small_mod(x as nat, n);
        } else {
            vstd::arithmetic::div_mod::lemma_fundamental_div_mod_converse(x, n as int, 1, x - n);
        }
    }
    assert forall|k: nat| 1 <= k < n && k != shift implies #[trigger] s.contains(RotatedSegment::Keep(k as usize)) by {
        let i: int = if k > shift {
            k - shift - 1
        } else {
            n - shift - 1 + k
        };
        assert(s[i] == RotatedSegment::Keep(k as usize));
    }
    assert forall|a: int, b: int| 0 <= a < b < s.len() implies s[a] != s[b] by {
        assert(reaches(s[a]) == (shift + 1 + a) % (n as int));
        assert(reaches(s[b]) == (shift + 1 + b) % (n as int));
        let x = shift + 1 + a;
        let y = shift + 1 + b;
        if x < n && y >= n {
            assert(s[a] is Keep);
        }
    }
    if shift > 0 {
        assert(s[n - 1 - shift] == RotatedSegment::CloseToStart);
    }
}

} // verus!
