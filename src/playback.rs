//! The playback state machine as mathematics: a cursor `(frame, counter)` over
//! a sequence of frame durations, one step per tick, and what many steps do.
use vstd::prelude::*;

verus! {

/// The frame that follows frame `i` of `n`: the next one, or the first after the last.
pub open spec fn next_index(i: int, n: int) -> int {
    if i + 1 < n {
        i + 1
    } else {
        0
    }
}

/// Leaving frame `i` of `n` finishes a non-looping animation when `i` is the last frame.
pub open spec fn finishes_at(i: int, n: int, looping: bool) -> bool {
    i + 1 >= n && !looping
}

/// One tick from cursor `(i, c)`: the new cursor, and whether a non-looping
/// animation finished on this tick.
pub open spec fn step(durations: Seq<usize>, looping: bool, i: int, c: int) -> (int, int, bool) {
    if c + 1 >= durations[i] {
        (next_index(i, durations.len() as int), 0, finishes_at(i, durations.len() as int, looping))
    } else {
        (i, c + 1, false)
    }
}

/// `k` ticks from cursor `(i, c)`: the cursor after them, and whether any of
/// them finished the animation.
pub open spec fn run(durations: Seq<usize>, looping: bool, i: int, c: int, k: nat) -> (int, int, bool)
    decreases k,
{
    if k == 0 {
        (i, c, false)
    } else {
        let s = step(durations, looping, i, c);
        let t = run(durations, looping, s.0, s.1, (k - 1) as nat);
        (t.0, t.1, s.2 || t.2)
    }
}

/// Sum of the first `n` durations.
pub open spec fn total_duration(durations: Seq<usize>, n: int) -> int
    decreases n,
{
    if n <= 0 {
        0
    } else {
        total_duration(durations, n - 1) + durations[n - 1]
    }
}

/// Every frame lasts at least one tick.
pub open spec fn all_positive(durations: Seq<usize>) -> bool {
    forall|i: int| 0 <= i < durations.len() ==> #[trigger] durations[i] > 0
}

/// Ticks that stay inside frame `i` only raise its counter.
pub proof fn lemma_within_frame(durations: Seq<usize>, looping: bool, i: int, c: int, k: nat)
    requires
        0 <= i < durations.len(),
        0 <= c,
        c + k < durations[i],
    ensures
        run(durations, looping, i, c, k) == (i, c + k, false),
    decreases k,
{
    if k > 0 {
        lemma_within_frame(durations, looping, i, c + 1, (k - 1) as nat);
    }
}

/// From counter `c` of frame `i`, the tick that reaches its duration moves on
/// to the next frame with a fresh counter.
pub proof fn lemma_frame_end(durations: Seq<usize>, looping: bool, i: int, c: int)
    requires
        0 <= i < durations.len(),
        0 <= c < durations[i],
    ensures
        run(durations, looping, i, c, (durations[i] - c) as nat) == (
            next_index(i, durations.len() as int),
            0int,
            finishes_at(i, durations.len() as int, looping),
        ),
    decreases durations[i] - c,
{
    let k = (durations[i] - c) as nat;
    let s = step(durations, looping, i, c);
    if c + 1 < durations[i] {
        lemma_frame_end(durations, looping, i, c + 1);
        assert((k - 1) as nat == (durations[i] - (c + 1)) as nat);
    } else {
        assert((k - 1) as nat == 0);
        assert(run(durations, looping, s.0, s.1, 0) == (s.0, s.1, false));
    }
}

/// Running `a` ticks and then `b` more is running `a + b` ticks.
pub proof fn lemma_run_split(durations: Seq<usize>, looping: bool, i: int, c: int, a: nat, b: nat)
    ensures
        ({
            let s = run(durations, looping, i, c, a);
            let t = run(durations, looping, s.0, s.1, b);
            run(durations, looping, i, c, a + b) == (t.0, t.1, s.2 || t.2)
        }),
    decreases a,
{
    if a > 0 {
        let s = step(durations, looping, i, c);
        lemma_run_split(durations, looping, s.0, s.1, (a - 1) as nat, b);
        assert((a + b - 1) as nat == (a - 1) as nat + b);
    }
}

/// With positive durations, a fresh frame `i` keeps its place for `d - 1`
/// ticks, where `d` is its duration, and the `d`-th tick moves to the
/// following frame.
pub proof fn lemma_frame_holds_for_duration(durations: Seq<usize>, looping: bool, i: int)
    requires
        0 <= i < durations.len(),
        durations[i] > 0,
    ensures
        forall|k: nat| k < durations[i] ==> #[trigger] run(durations, looping, i, 0, k).0 == i,
        run(durations, looping, i, 0, durations[i] as nat).0 == next_index(i, durations.len() as int),
{
    assert forall|k: nat| k < durations[i] implies #[trigger] run(durations, looping, i, 0, k).0 == i by {
        lemma_within_frame(durations, looping, i, 0, k);
    }
    lemma_frame_end(durations, looping, i, 0);
}

/// Starting at the first frame, after the sum of the first `j` durations the
/// cursor stands at the start of frame `j`, and nothing has finished.
proof fn lemma_prefix_run(durations: Seq<usize>, looping: bool, j: int)
    requires
        all_positive(durations),
        0 <= j < durations.len(),
    ensures
        total_duration(durations, j) >= 0,
        run(durations, looping, 0, 0, total_duration(durations, j) as nat) == (j, 0int, false),
    decreases j,
{
    if j > 0 {
        lemma_prefix_run(durations, looping, j - 1);
        let before = total_duration(durations, j - 1) as nat;
        let d = durations[j - 1] as nat;
        lemma_run_split(durations, looping, 0, 0, before, d);
        assert(durations[j - 1] > 0);
        lemma_frame_end(durations, looping, j - 1, 0);
        assert((before + d) as nat == total_duration(durations, j) as nat);
    }
}

/// With positive durations, starting from the first frame, one full cycle of
/// ticks (the sum of all durations) brings the cursor back to the first frame
/// with a fresh counter; the cycle finishes the animation exactly when it does
/// not loop.
pub proof fn lemma_full_cycle(durations: Seq<usize>, looping: bool)
    requires
        durations.len() > 0,
        all_positive(durations),
    ensures
        ({
            let n = durations.len() as int;
            run(durations, looping, 0, 0, total_duration(durations, n) as nat) == (0int, 0int, !looping)
        }),
{
    let n = durations.len() as int;
    lemma_prefix_run(durations, looping, n - 1);
    let before = total_duration(durations, n - 1) as nat;
    let d = durations[n - 1] as nat;
    lemma_run_split(durations, looping, 0, 0, before, d);
    assert(durations[n - 1] > 0);
    lemma_frame_end(durations, looping, n - 1, 0);
    assert((before + d) as nat == total_duration(durations, n) as nat);
}

} // verus!
