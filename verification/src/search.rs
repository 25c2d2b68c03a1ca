//! Depth-first search with backtracking for an assignment of fill values to
//! coordinates.
//!
//! The search knows nothing of what is placed or where. A `SearchState` says
//! which placements are legal, makes them and takes them back; the search
//! decides in which order to try them.

use vstd::prelude::*;

verus! {

/// A board on which values are placed at coordinates, one at a time, and
/// taken back in the reverse order.
pub trait SearchState: Sized {
    /// Where a value can be placed.
    type Coord;

    /// What is placed.
    type Fill: Copy;

    /// The board as a mathematical value.
    type Model;

    /// The board as it stands.
    spec fn model(&self) -> Self::Model;

    /// What holds of the board before and after every placement.
    spec fn valid(model: Self::Model) -> bool;

    /// Whether `coord` can still take a value.
    spec fn vacant(model: Self::Model, coord: Self::Coord) -> bool;

    /// Whether the rules allow `fill` at `coord` on this board.
    spec fn legal(model: Self::Model, coord: Self::Coord, fill: Self::Fill) -> bool;

    /// The board after `fill` has been placed at `coord`.
    spec fn placed(model: Self::Model, coord: Self::Coord, fill: Self::Fill) -> Self::Model;

    /// A legal placement keeps the board valid and leaves every other vacant
    /// coordinate vacant.
    proof fn lemma_placed(
        model: Self::Model,
        coord: Self::Coord,
        fill: Self::Fill,
        other: Self::Coord,
    )
        requires
            Self::valid(model),
            Self::vacant(model, coord),
            Self::legal(model, coord, fill),
        ensures
            Self::valid(Self::placed(model, coord, fill)),
            other != coord && Self::vacant(model, other) ==> Self::vacant(
                Self::placed(model, coord, fill),
                other,
            ),
    ;

    /// Whether two values are the same.
    fn same_fill(a: &Self::Fill, b: &Self::Fill) -> (same: bool)
        ensures
            same == (*a == *b),
    ;

    /// Places `fill` at `coord` if that is legal, and leaves the board as it
    /// is if not.
    fn place(&mut self, coord: &Self::Coord, fill: &Self::Fill) -> (result: Result<(), ()>)
        requires
            Self::valid(old(self).model()),
            Self::vacant(old(self).model(), *coord),
        ensures
            result is Ok <==> Self::legal(old(self).model(), *coord, *fill),
            result is Ok ==> final(self).model() == Self::placed(old(self).model(), *coord, *fill),
            result is Err ==> final(self).model() == old(self).model(),
    ;

    /// Takes back the placement at `coord`: a board that came from a legal
    /// placement there is as it was before.
    fn remove(&mut self, coord: &Self::Coord)
        ensures
            forall|before: Self::Model, fill: Self::Fill|
                Self::valid(before) && Self::vacant(before, *coord) && Self::legal(
                    before,
                    *coord,
                    fill,
                ) && old(self).model() == #[trigger] Self::placed(before, *coord, fill)
                    ==> final(self).model() == before,
    ;
}

/// The board after `fills[k]` has been placed at `coords[k]` for each `k` from
/// `from` on, in that order; `None` if one of these placements is not legal at
/// the time it is made.
pub open spec fn filled<S: SearchState>(
    model: S::Model,
    coords: Seq<S::Coord>,
    fills: Seq<S::Fill>,
    from: int,
) -> Option<S::Model>
    decreases coords.len() - from,
{
    if from >= coords.len() {
        Some(model)
    } else if S::legal(model, coords[from], fills[from]) {
        filled::<S>(S::placed(model, coords[from], fills[from]), coords, fills, from + 1)
    } else {
        None
    }
}

/// `order` holds the same values as `fills`, with the first `from` of them in
/// the same places.
pub open spec fn rearranged<F>(fills: Seq<F>, order: Seq<F>, from: int) -> bool {
    &&& order.len() == fills.len()
    &&& order.take(from) == fills.take(from)
    &&& order.to_multiset() == fills.to_multiset()
}

/// Whether the values `fills[from..]` can be placed at `coords[from..]` in some
/// order so that every placement is legal when it is made.
pub open spec fn solvable<S: SearchState>(
    model: S::Model,
    coords: Seq<S::Coord>,
    fills: Seq<S::Fill>,
    from: int,
) -> bool {
    exists|order: Seq<S::Fill>|
        rearranged(fills, order, from) && (#[trigger] filled::<S>(model, coords, order, from))
            is Some
}

/// Whether `value` stands in `fills` at a position from `from` up to, but not
/// including, `upto`.
pub open spec fn occurs<F>(fills: Seq<F>, from: int, upto: int, value: F) -> bool {
    exists|j: int| from <= j < upto && #[trigger] fills[j] == value
}

/// In a rearrangement that keeps the first `from` values in place, the value
/// at `from` is one of those that stood at `from` or later.
pub proof fn lemma_rearranged_first<F>(fills: Seq<F>, order: Seq<F>, from: int)
    requires
        rearranged(fills, order, from),
        0 <= from < fills.len(),
    ensures
        occurs(fills, from, fills.len() as int, order[from]),
{
    let value = order[from];
    vstd::seq_lib::lemma_multiset_commutative(fills.take(from), fills.skip(from));
    vstd::seq_lib::lemma_multiset_commutative(order.take(from), order.skip(from));
    assert(fills.take(from) + fills.skip(from) =~= fills);
    assert(order.take(from) + order.skip(from) =~= order);
    assert(order.skip(from)[0] == value);
    vstd::seq_lib::to_multiset_contains(order.skip(from), value);
    vstd::seq_lib::to_multiset_contains(fills.skip(from), value);
    assert(order.skip(from).to_multiset().count(value) > 0);
    assert(fills.to_multiset().count(value) == fills.take(from).to_multiset().count(value)
        + fills.skip(from).to_multiset().count(value));
    assert(order.to_multiset().count(value) == order.take(from).to_multiset().count(value)
        + order.skip(from).to_multiset().count(value));
    assert(fills.skip(from).contains(value));
    let j = choose|j: int| 0 <= j < fills.skip(from).len() && fills.skip(from)[j] == value;
    assert(fills[from + j] == value);
}

/// `fills` with the values at `a` and `b` exchanged.
pub open spec fn exchanged<F>(fills: Seq<F>, a: int, b: int) -> Seq<F> {
    fills.update(a, fills[b]).update(b, fills[a])
}

/// How a search ended: whether every coordinate got a value, the board, the
/// supply, and how many candidates may still be tried.
pub struct Outcome<M, F> {
    /// Whether every coordinate got a value.
    pub found: bool,
    /// The board as the search left it.
    pub model: M,
    /// The supply as the search left it.
    pub fills: Seq<F>,
    /// How many candidates may still be tried.
    pub iterations_left: nat,
}

/// How the search for a placement of `fills[from..]` at `coords[from..]`
/// ends, when the candidates for `coords[from]` that stand before `at` have
/// been dealt with and `tried` are those of them that were placed and led
/// nowhere.
///
/// The candidates are tried in the order in which they stand. Each costs one
/// of `iterations_left`, and the search gives up when they run out. A
/// candidate that is among `tried` or is not legal is passed over. One that
/// is legal is placed and exchanged with the value at `from`, and the search
/// goes on at the next coordinate; if that leads nowhere, the placement is
/// taken back and the next candidate has its turn.
pub open spec fn search<S: SearchState>(
    model: S::Model,
    coords: Seq<S::Coord>,
    fills: Seq<S::Fill>,
    from: int,
    at: int,
    tried: Seq<S::Fill>,
    iterations_left: nat,
) -> Outcome<S::Model, S::Fill>
    decreases coords.len() - from, fills.len() - at,
{
    if from >= coords.len() {
        Outcome { found: true, model, fills, iterations_left }
    } else if at >= fills.len() {
        Outcome { found: false, model, fills, iterations_left }
    } else if iterations_left <= 1 {
        Outcome { found: false, model, fills, iterations_left: 0 }
    } else {
        let candidate = fills[at];
        let left = (iterations_left - 1) as nat;
        if tried.contains(candidate) || !S::legal(model, coords[from], candidate) {
            search::<S>(model, coords, fills, from, at + 1, tried, left)
        } else {
            let onward = search::<S>(
                S::placed(model, coords[from], candidate),
                coords,
                exchanged(fills, from, at),
                from + 1,
                from + 1,
                Seq::empty(),
                left,
            );
            if onward.found {
                onward
            } else {
                search::<S>(
                    model,
                    coords,
                    fills,
                    from,
                    at + 1,
                    tried.push(candidate),
                    onward.iterations_left,
                )
            }
        }
    }
}

/// What holds of the outcome of every search: the supply holds the same
/// values as before, with those before `from` in their places. After a
/// success the board is the one that comes of placing the supply, as it
/// stands then, at the coordinates one after the other, each placement legal
/// when it is made. After a failure the board and the supply are as they
/// were, and if iterations are left, no order of the supply can be placed.
pub open spec fn well_ended<S: SearchState>(
    model: S::Model,
    coords: Seq<S::Coord>,
    fills: Seq<S::Fill>,
    from: int,
    outcome: Outcome<S::Model, S::Fill>,
) -> bool {
    &&& rearranged(fills, outcome.fills, from)
    &&& S::valid(outcome.model)
    &&& outcome.found ==> filled::<S>(model, coords, outcome.fills, from) == Some(outcome.model)
    &&& !outcome.found ==> outcome.model == model && outcome.fills == fills
    &&& !outcome.found && outcome.iterations_left > 0 ==> !solvable::<S>(
        model,
        coords,
        fills,
        from,
    )
}

/// Exchanging two values keeps the values and leaves the places before both
/// as they are.
proof fn lemma_exchanged<F>(fills: Seq<F>, from: int, at: int)
    requires
        0 <= from <= at < fills.len(),
    ensures
        rearranged(fills, exchanged(fills, from, at), from),
        exchanged(fills, from, at)[from] == fills[at],
        exchanged(exchanged(fills, from, at), from, at) == fills,
{
    let between = fills.update(from, fills[at]);
    vstd::seq_lib::to_multiset_update(fills, from, fills[at]);
    vstd::seq_lib::to_multiset_update(between, at, fills[from]);
    vstd::seq_lib::to_multiset_contains(fills, fills[from]);
    vstd::seq_lib::to_multiset_contains(fills, fills[at]);
    assert(exchanged(fills, from, at).to_multiset() =~= fills.to_multiset());
    assert(exchanged(fills, from, at).take(from) =~= fills.take(from));
    assert(exchanged(exchanged(fills, from, at), from, at) =~= fills);
}

/// A rearrangement of a rearrangement that keeps one place more is a
/// rearrangement.
proof fn lemma_rearranged_onward<F>(fills: Seq<F>, between: Seq<F>, order: Seq<F>, from: int)
    requires
        0 <= from < fills.len(),
        rearranged(fills, between, from),
        rearranged(between, order, from + 1),
    ensures
        rearranged(fills, order, from),
        order[from] == between[from],
{
    assert(order.take(from) =~= fills.take(from)) by {
        assert forall|k: int| 0 <= k < from implies order[k] == fills[k] by {
            assert(order[k] == order.take(from + 1)[k]);
            assert(between[k] == between.take(from + 1)[k]);
            assert(between[k] == between.take(from)[k]);
            assert(fills[k] == fills.take(from)[k]);
        }
    }
    assert(order[from] == order.take(from + 1)[from]);
    assert(between[from] == between.take(from + 1)[from]);
}

/// What a search leaves behind. The supply holds the same values as before,
/// with those before `from` in their places. Where the search succeeds, the
/// board is the one that comes of placing the supply, as it stands then, at
/// the coordinates one after the other, each placement legal when it is
/// made. Where it fails, the board and the supply are as they were.
pub proof fn lemma_search_sound<S: SearchState>(
    model: S::Model,
    coords: Seq<S::Coord>,
    fills: Seq<S::Fill>,
    from: int,
    at: int,
    tried: Seq<S::Fill>,
    iterations_left: nat,
)
    requires
        0 <= from <= coords.len(),
        coords.len() == fills.len(),
        from <= at <= fills.len(),
        coords.no_duplicates(),
        S::valid(model),
        forall|k: int| from <= k < coords.len() ==> S::vacant(model, coords[k]),
    ensures
        ({
            let outcome = search::<S>(model, coords, fills, from, at, tried, iterations_left);
            &&& rearranged(fills, outcome.fills, from)
            &&& outcome.iterations_left <= iterations_left
            &&& S::valid(outcome.model)
            &&& outcome.found ==> filled::<S>(model, coords, outcome.fills, from) == Some(
                outcome.model,
            )
            &&& !outcome.found ==> outcome.model == model && outcome.fills == fills
        }),
    decreases coords.len() - from, fills.len() - at,
{
    if from >= coords.len() || at >= fills.len() || iterations_left <= 1 {
    } else {
        let candidate = fills[at];
        let left = (iterations_left - 1) as nat;
        if tried.contains(candidate) || !S::legal(model, coords[from], candidate) {
            lemma_search_sound::<S>(model, coords, fills, from, at + 1, tried, left);
        } else {
            let next = S::placed(model, coords[from], candidate);
            let swapped = exchanged(fills, from, at);
            lemma_exchanged(fills, from, at);
            assert forall|k: int| from + 1 <= k < coords.len() implies S::vacant(
                next,
                coords[k],
            ) by {
                S::lemma_placed(model, coords[from], candidate, coords[k]);
            }
            S::lemma_placed(model, coords[from], candidate, coords[from]);
            lemma_search_sound::<S>(next, coords, swapped, from + 1, from + 1, Seq::empty(), left);
            let onward = search::<S>(next, coords, swapped, from + 1, from + 1, Seq::empty(), left);
            if onward.found {
                lemma_rearranged_onward(fills, swapped, onward.fills, from);
            } else {
                lemma_search_sound::<S>(
                    model,
                    coords,
                    fills,
                    from,
                    at + 1,
                    tried.push(candidate),
                    onward.iterations_left,
                );
            }
        }
    }
}

/// A search fails only where there is nothing to find, or where it ran out
/// of candidates that it may try: if the candidates before `at` cannot
/// start a placement, and the search fails with candidates left, then no
/// order of the supply can be placed.
pub proof fn lemma_search_complete<S: SearchState>(
    model: S::Model,
    coords: Seq<S::Coord>,
    fills: Seq<S::Fill>,
    from: int,
    at: int,
    tried: Seq<S::Fill>,
    iterations_left: nat,
)
    requires
        0 <= from <= coords.len(),
        coords.len() == fills.len(),
        from <= at <= fills.len(),
        coords.no_duplicates(),
        S::valid(model),
        forall|k: int| from <= k < coords.len() ==> S::vacant(model, coords[k]),
        forall|t: int| 0 <= t < tried.len() ==> occurs(fills, from, at, tried[t]),
        forall|order: Seq<S::Fill>|
            #[trigger] rearranged(fills, order, from) && occurs(fills, from, at, order[from])
                ==> filled::<S>(model, coords, order, from) is None,
    ensures
        ({
            let outcome = search::<S>(model, coords, fills, from, at, tried, iterations_left);
            !outcome.found && outcome.iterations_left > 0 ==> !solvable::<S>(
                model,
                coords,
                fills,
                from,
            )
        }),
    decreases coords.len() - from, fills.len() - at,
{
    if from >= coords.len() || iterations_left <= 1 && at < fills.len() {
    } else if at >= fills.len() {
        assert forall|order: Seq<S::Fill>| rearranged(fills, order, from) implies !((
        #[trigger] filled::<S>(model, coords, order, from)) is Some) by {
            lemma_rearranged_first(fills, order, from);
        }
    } else {
        let candidate = fills[at];
        let left = (iterations_left - 1) as nat;
        if tried.contains(candidate) || !S::legal(model, coords[from], candidate) {
            if tried.contains(candidate) {
                let t = choose|t: int| 0 <= t < tried.len() && tried[t] == candidate;
                assert(occurs(fills, from, at, tried[t]));
            }
            lemma_occurs_onward(fills, from, at, tried);
            assert forall|order: Seq<S::Fill>|
                #[trigger] rearranged(fills, order, from) && occurs(
                    fills,
                    from,
                    at + 1,
                    order[from],
                ) implies filled::<S>(model, coords, order, from) is None by {
                lemma_occurs_last(fills, from, at, order[from]);
            }
            lemma_search_complete::<S>(model, coords, fills, from, at + 1, tried, left);
        } else {
            let next = S::placed(model, coords[from], candidate);
            let swapped = exchanged(fills, from, at);
            lemma_exchanged(fills, from, at);
            assert forall|k: int| from + 1 <= k < coords.len() implies S::vacant(
                next,
                coords[k],
            ) by {
                S::lemma_placed(model, coords[from], candidate, coords[k]);
            }
            S::lemma_placed(model, coords[from], candidate, coords[from]);
            lemma_search_complete::<S>(
                next,
                coords,
                swapped,
                from + 1,
                from + 1,
                Seq::empty(),
                left,
            );
            lemma_search_sound::<S>(next, coords, swapped, from + 1, from + 1, Seq::empty(), left);
            let onward = search::<S>(next, coords, swapped, from + 1, from + 1, Seq::empty(), left);
            if !onward.found && onward.iterations_left == 0 {
                lemma_search_out_of_iterations::<S>(
                    model,
                    coords,
                    fills,
                    from,
                    at + 1,
                    tried.push(candidate),
                );
            }
            if !onward.found && onward.iterations_left > 0 {
                let pushed = tried.push(candidate);
                lemma_occurs_onward(fills, from, at, tried);
                assert forall|t: int| 0 <= t < pushed.len() implies occurs(
                    fills,
                    from,
                    at + 1,
                    pushed[t],
                ) by {
                    if t < tried.len() {
                        assert(pushed[t] == tried[t]);
                    } else {
                        assert(fills[at] == pushed[t]);
                    }
                }
                assert forall|order: Seq<S::Fill>|
                    #[trigger] rearranged(fills, order, from) && occurs(
                        fills,
                        from,
                        at + 1,
                        order[from],
                    ) implies filled::<S>(model, coords, order, from) is None by {
                    lemma_occurs_last(fills, from, at, order[from]);
                    if order[from] == candidate && !occurs(fills, from, at, order[from]) {
                        assert(order.take(from + 1) =~= swapped.take(from + 1)) by {
                            assert forall|k: int| 0 <= k < from implies order[k] == swapped[k] by {
                                assert(order[k] == order.take(from)[k]);
                                assert(fills[k] == fills.take(from)[k]);
                            }
                        }
                        assert(rearranged(swapped, order, from + 1));
                        assert(filled::<S>(next, coords, order, from + 1) is None);
                    }
                }
                lemma_search_complete::<S>(
                    model,
                    coords,
                    fills,
                    from,
                    at + 1,
                    pushed,
                    onward.iterations_left,
                );
            }
        }
    }
}

/// With at most one iteration left, a search that still has a coordinate to
/// fill ends without success and with no iteration left, unless there is
/// no candidate left either.
proof fn lemma_search_out_of_iterations<S: SearchState>(
    model: S::Model,
    coords: Seq<S::Coord>,
    fills: Seq<S::Fill>,
    from: int,
    at: int,
    tried: Seq<S::Fill>,
)
    requires
        from < coords.len(),
    ensures
        !search::<S>(model, coords, fills, from, at, tried, 0).found,
        search::<S>(model, coords, fills, from, at, tried, 0).iterations_left == 0,
{
}

/// What stands before `at` stands before `at + 1`.
proof fn lemma_occurs_onward<F>(fills: Seq<F>, from: int, at: int, values: Seq<F>)
    requires
        forall|t: int| 0 <= t < values.len() ==> occurs(fills, from, at, values[t]),
    ensures
        forall|t: int| 0 <= t < values.len() ==> occurs(fills, from, at + 1, values[t]),
{
    assert forall|t: int| 0 <= t < values.len() implies occurs(fills, from, at + 1, values[t]) by {
        let j = choose|j: int| from <= j < at && #[trigger] fills[j] == values[t];
        assert(from <= j < at + 1 && fills[j] == values[t]);
    }
}

/// What stands before `at + 1` stands before `at` or at `at`.
proof fn lemma_occurs_last<F>(fills: Seq<F>, from: int, at: int, value: F)
    requires
        occurs(fills, from, at + 1, value),
    ensures
        occurs(fills, from, at, value) || (from <= at && fills[at] == value),
{
    let j = choose|j: int| from <= j < at + 1 && #[trigger] fills[j] == value;
    if j < at {
        assert(from <= j < at && fills[j] == value);
    }
}

/// Exchanges the entries at `a` and `b`.
pub fn swap_entries<F: Copy>(entries: &mut Vec<F>, a: usize, b: usize)
    requires
        a < old(entries).len(),
        b < old(entries).len(),
    ensures
        final(entries)@ == exchanged(old(entries)@, a as int, b as int),
{
    let first = entries[a];
    let second = entries[b];
    entries.set(a, second);
    entries.set(b, first);
}

/// Whether `fill` is among `tried`.
fn was_tried<S: SearchState>(tried: &Vec<S::Fill>, fill: &S::Fill) -> (found: bool)
    ensures
        found == tried@.contains(*fill),
{
    let mut i: usize = 0;
    while i < tried.len()
        invariant
            0 <= i <= tried.len(),
            forall|j: int| 0 <= j < i ==> tried@[j] != *fill,
        decreases tried.len() - i,
    {
        if S::same_fill(&tried[i], fill) {
            return true;
        }
        i += 1;
    }
    false
}

/// Searches for a way to place the values `fill_data[from..]` at the
/// coordinates `coords[from..]`, one value at each coordinate, so that every
/// placement is legal when it is made.
///
/// At each coordinate the candidates are tried in the order in which they
/// stand in `fill_data`; a value that was placed there before and led nowhere
/// is not tried again. Each candidate costs one of `iterations_left`; the
/// search gives up when they run out.
///
/// On success the placements have been made and `fill_data[k]` is what was
/// placed at `coords[k]`. On failure the board and `fill_data` are as they
/// were. A failure with iterations left means that no order of the values
/// can be placed.
pub fn recurse<S: SearchState>(
    state: &mut S,
    coords: &Vec<S::Coord>,
    fill_data: &mut Vec<S::Fill>,
    from: usize,
    iterations_left: &mut u32,
) -> (result: Result<(), ()>)
    requires
        from <= coords.len(),
        coords.len() == old(fill_data).len(),
        coords@.no_duplicates(),
        S::valid(old(state).model()),
        forall|k: int| from <= k < coords.len() ==> S::vacant(old(state).model(), coords@[k]),
    ensures
        ({
            let outcome = search::<S>(
                old(state).model(),
                coords@,
                old(fill_data)@,
                from as int,
                from as int,
                Seq::empty(),
                *old(iterations_left) as nat,
            );
            &&& result is Ok <==> outcome.found
            &&& final(state).model() == outcome.model
            &&& final(fill_data)@ == outcome.fills
            &&& *final(iterations_left) == outcome.iterations_left
        }),
        rearranged(old(fill_data)@, final(fill_data)@, from as int),
        S::valid(final(state).model()),
        *final(iterations_left) <= *old(iterations_left),
        result is Ok ==> filled::<S>(old(state).model(), coords@, final(fill_data)@, from as int)
            == Some(final(state).model()),
        result is Err ==> final(state).model() == old(state).model() && final(fill_data)@ == old(
            fill_data,
        )@,
        result is Err && *final(iterations_left) > 0 ==> !solvable::<S>(
            old(state).model(),
            coords@,
            old(fill_data)@,
            from as int,
        ),
    decreases coords.len() - from,
{
    let ghost start = state.model();
    let ghost fills = fill_data@;
    let ghost outcome = search::<S>(
        start,
        coords@,
        fills,
        from as int,
        from as int,
        Seq::empty(),
        *iterations_left as nat,
    );
    proof {
        lemma_search_sound::<S>(
            start,
            coords@,
            fills,
            from as int,
            from as int,
            Seq::empty(),
            *iterations_left as nat,
        );
        lemma_search_complete::<S>(
            start,
            coords@,
            fills,
            from as int,
            from as int,
            Seq::empty(),
            *iterations_left as nat,
        );
    }
    if from >= coords.len() {
        return Ok(());
    }
    let mut tried: Vec<S::Fill> = Vec::new();
    let mut i: usize = from;
    while i < fill_data.len()
        invariant
            from <= i <= fill_data.len(),
            from < coords.len(),
            coords.len() == fill_data.len(),
            coords@.no_duplicates(),
            fills == old(fill_data)@,
            start == old(state).model(),
            fill_data@ == fills,
            state.model() == start,
            S::valid(start),
            forall|k: int| from <= k < coords.len() ==> S::vacant(start, coords@[k]),
            outcome == search::<S>(
                start,
                coords@,
                fills,
                from as int,
                from as int,
                Seq::empty(),
                *old(iterations_left) as nat,
            ),
            outcome == search::<S>(
                start,
                coords@,
                fills,
                from as int,
                i as int,
                tried@,
                *iterations_left as nat,
            ),
            well_ended::<S>(start, coords@, fills, from as int, outcome),
            outcome.iterations_left <= *old(iterations_left),
        decreases fill_data.len() - i,
    {
        if *iterations_left <= 1 {
            *iterations_left = 0;
            return Err(());
        }
        *iterations_left -= 1;
        let candidate = fill_data[i];
        if !was_tried::<S>(&tried, &candidate) {
            match state.place(&coords[from], &candidate) {
                Ok(()) => {
                    tried.push(candidate);
                    swap_entries(fill_data, from, i);
                    proof {
                        lemma_exchanged(fills, from as int, i as int);
                        assert forall|k: int| from + 1 <= k < coords.len() implies S::vacant(
                            state.model(),
                            coords@[k],
                        ) by {
                            S::lemma_placed(start, coords@[from as int], candidate, coords@[k]);
                        }
                        S::lemma_placed(start, coords@[from as int], candidate, coords@[from as int]);
                    }
                    match recurse(state, coords, fill_data, from + 1, iterations_left) {
                        Ok(()) => {
                            return Ok(());
                        },
                        Err(()) => {
                            swap_entries(fill_data, from, i);
                            state.remove(&coords[from]);
                        },
                    }
                },
                Err(()) => {},
            }
        }
        i += 1;
    }
    Err(())
}

} // verus!
