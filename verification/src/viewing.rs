//! Seat-map geometry and viewing-quality assessment.
use vstd::prelude::*;

use crate::domain::{Quality, Score, Seat, SeatMap, SeatState, SeatingArrangement, Showtime, texts};
use crate::order::{
    block_key_before, block_key_lt, block_key_same, is_preferred, lemma_block_key_congruent,
    lemma_block_key_irreflexive, lemma_block_key_same_iff, lemma_preferred_transitive,
    lemma_score_lt_same, lemma_score_same_transitive, preferred, seat_key_eq,
};
use crate::score::{
    abs, bounded, compare_scores, reaches, score_at_least, score_lt, score_same, visual_score,
    visual_score_spec,
};
use crate::seats::{
    SeatOrder, insert_sorted, lemma_row_seats_empty, lemma_row_seats_members, lemma_sort_len,
    lemma_sort_members, row_seats, seat_before, select_row, sort_seats, sorted_seats,
};
use crate::text::{compare_text, concat, decimal_digits, decimal_text, owned};

verus! {

/// The lowest visual score counted as a good viewing position. Ranking and
/// presentation share this boundary.
pub const GOOD_VIEWING_SCORE_THRESHOLD: i128 = 72;

/// The lowest visual score counted as an excellent viewing position.
pub const EXCELLENT_VIEWING_SCORE_THRESHOLD: i128 = 90;

/// Identifier of the zone of good viewing positions.
pub const GOOD_VIEWING_ZONE_ID: &'static str = "central_middle_rear";

// ---------------------------------------------------------------------------
// Geometry.
// ---------------------------------------------------------------------------
/// Neighbouring seats: one column apart and numbered consecutively.
pub open spec fn contiguous(a: Seat, b: Seat) -> bool {
    abs(a.x - b.x) == 1 && abs(a.number - b.number) == 1
}

/// Each seat of `w` neighbours the next one.
pub open spec fn runs_contiguously(w: Seq<Seat>) -> bool {
    forall|k: int| 0 <= k < w.len() - 1 ==> contiguous(#[trigger] w[k], w[k + 1])
}

pub open spec fn sum_x(w: Seq<Seat>) -> int
    decreases w.len(),
{
    if w.len() == 0 {
        0
    } else {
        sum_x(w.drop_last()) + w.last().x
    }
}

pub open spec fn sum_y(w: Seq<Seat>) -> int
    decreases w.len(),
{
    if w.len() == 0 {
        0
    } else {
        sum_y(w.drop_last()) + w.last().y
    }
}

/// The exact visual score of a block of seats on a map of the given size.
pub open spec fn block_score(w: Seq<Seat>, columns: u16, rows: u16) -> Option<Score> {
    visual_score_spec(sum_x(w), sum_y(w), w.len() as int, columns, rows)
}

/// The visual score of the single position `(x, y)`.
pub open spec fn position_score(map_columns: u16, map_rows: u16, x: u16, y: u16) -> Option<Score> {
    visual_score_spec(x as int, y as int, 1, map_columns, map_rows)
}

/// The quality label of a score.
pub open spec fn quality_of(s: Score) -> Quality {
    if score_at_least(s, 90) {
        Quality::Excellent
    } else if score_at_least(s, 72) {
        Quality::Good
    } else {
        Quality::Unfavorable
    }
}

pub fn is_contiguous(a: &Seat, b: &Seat) -> (r: bool)
    ensures
        r == contiguous(*a, *b),
{
    let dx: u16 = if a.x >= b.x {
        a.x - b.x
    } else {
        b.x - a.x
    };
    let dn: u16 = if a.number >= b.number {
        a.number - b.number
    } else {
        b.number - a.number
    };
    dx == 1 && dn == 1
}

fn all_contiguous(w: &[Seat]) -> (r: bool)
    ensures
        r == runs_contiguously(w@),
{
    if w.len() < 2 {
        return true;
    }
    let mut k: usize = 0;
    while k + 1 < w.len()
        invariant
            w.len() >= 2,
            k + 1 <= w.len(),
            forall|j: int| 0 <= j < k ==> contiguous(#[trigger] w@[j], w@[j + 1]),
        decreases w.len() - k,
    {
        if !is_contiguous(&w[k], &w[k + 1]) {
            return false;
        }
        k += 1;
    }
    true
}

/// The seats `v[start .. start + len]`.
pub fn window(v: &[Seat], start: usize, len: usize) -> (r: Vec<Seat>)
    requires
        start + len <= v.len(),
    ensures
        r@ == v@.subrange(start as int, start + len),
{
    let mut out: Vec<Seat> = Vec::new();
    let mut k: usize = 0;
    while k < len
        invariant
            start + len <= v.len(),
            k <= len,
            out@ == v@.subrange(start as int, start + k),
        decreases len - k,
    {
        out.push(v[start + k].copied());
        proof {
            assert(v@.subrange(start as int, start + k + 1) =~= v@.subrange(start as int, start + k).push(
                v@[start + k],
            ));
        }
        k += 1;
    }
    out
}

/// The exact score of a block, when it is deep enough to be scored.
pub fn score_block(w: &[Seat], columns: u16, rows: u16) -> (r: Option<Score>)
    requires
        1 <= w.len() <= 0xFFFF_FFFF_FFFF_FFFF,
    ensures
        r == block_score(w@, columns, rows),
        r matches Some(s) ==> bounded(s) && s.valid(),
{
    let mut xs: u128 = 0;
    let mut ys: u128 = 0;
    let mut k: usize = 0;
    while k < w.len()
        invariant
            k <= w.len(),
            w.len() <= 0xFFFF_FFFF_FFFF_FFFF,
            xs == sum_x(w@.take(k as int)),
            ys == sum_y(w@.take(k as int)),
            xs <= k * 65535,
            ys <= k * 65535,
        decreases w.len() - k,
    {
        proof {
            assert(w@.take(k + 1).drop_last() =~= w@.take(k as int));
            assert(w@.take(k + 1).last() == w@[k as int]);
        }
        xs = xs + w[k].x as u128;
        ys = ys + w[k].y as u128;
        k += 1;
    }
    proof {
        assert(w@.take(w.len() as int) =~= w@);
    }
    visual_score(xs, ys, w.len() as u128, columns, rows)
}

fn quality_for(s: &Score) -> (r: Quality)
    requires
        bounded(*s),
    ensures
        r == quality_of(*s),
{
    if reaches(s, EXCELLENT_VIEWING_SCORE_THRESHOLD) {
        Quality::Excellent
    } else if reaches(s, GOOD_VIEWING_SCORE_THRESHOLD) {
        Quality::Good
    } else {
        Quality::Unfavorable
    }
}

// ---------------------------------------------------------------------------
// Blocks of seats side by side.
// ---------------------------------------------------------------------------
/// The available seats of a row, ordered by column, number and identifier.
pub open spec fn together_row(st: Showtime, row: Seq<char>) -> Seq<Seat> {
    sort_seats(row_seats(st.seat_map.seats@, row, true), SeatOrder::ColumnNumberId)
}

/// `n` consecutive available seats of a row, starting at position `i`.
pub open spec fn together_window(st: Showtime, row: Seq<char>, n: int, i: int) -> Seq<Seat> {
    together_row(st, row).subrange(i, i + n)
}

/// A window of `n` neighbouring available seats that can be scored.
pub open spec fn together_candidate(st: Showtime, row: Seq<char>, n: int, i: int) -> bool {
    &&& 0 <= i
    &&& i + n <= together_row(st, row).len()
    &&& runs_contiguously(together_window(st, row, n, i))
    &&& block_score(together_window(st, row, n, i), st.seat_map.columns, st.seat_map.rows) is Some
}

/// The block a window yields: its seats ordered by number.
pub open spec fn together_block(st: Showtime, row: Seq<char>, n: int, i: int) -> Seq<Seat> {
    sort_seats(together_window(st, row, n, i), SeatOrder::Number)
}

pub open spec fn together_score(st: Showtime, row: Seq<char>, n: int, i: int) -> Score {
    block_score(together_window(st, row, n, i), st.seat_map.columns, st.seat_map.rows).unwrap()
}

/// Some window of `n` neighbouring seats exists.
pub open spec fn together_exists(st: Showtime, n: int) -> bool {
    exists|row: Seq<char>, i: int| together_candidate(st, row, n, i)
}

/// The window at `(row, i)` is a candidate and no candidate is preferred to it.
pub open spec fn best_together(st: Showtime, n: int, row: Seq<char>, i: int) -> bool {
    &&& together_candidate(st, row, n, i)
    &&& forall|row2: Seq<char>, i2: int|
        together_candidate(st, row2, n, i2) ==> !preferred(
            #[trigger] together_score(st, row2, n, i2),
            together_block(st, row2, n, i2),
            together_score(st, row, n, i),
            together_block(st, row, n, i),
        )
}

/// Whether an available seat before position `k` belongs to the same row
/// as the seat at `k`.
fn available_row_seen(seats: &[Seat], k: usize) -> (r: bool)
    requires
        k < seats.len(),
    ensures
        r == exists|m: int|
            0 <= m < k && (#[trigger] seats@[m]).row@ == seats@[k as int].row@ && seats@[m].state
                == SeatState::Available,
{
    let mut j: usize = 0;
    while j < k
        invariant
            j <= k < seats.len(),
            forall|m: int|
                0 <= m < j ==> !((#[trigger] seats@[m]).row@ == seats@[k as int].row@
                    && seats@[m].state == SeatState::Available),
        decreases k - j,
    {
        if seats[j].state == SeatState::Available && compare_text(
            seats[j].row.as_str(),
            seats[k].row.as_str(),
        ) == 0 {
            return true;
        }
        j += 1;
    }
    false
}

/// The preferred window among the rows of the first `k` seats.
fn best_together_search(st: &Showtime, n: usize) -> (r: Option<(Score, Vec<Seat>)>)
    requires
        n >= 1,
    ensures
        r matches Some((s, b)) ==> exists|row: Seq<char>, i: int|
            best_together(*st, n as int, row, i) && s == together_score(*st, row, n as int, i)
                && b@ == together_block(*st, row, n as int, i),
        r matches Some((s, b)) ==> bounded(s) && s.valid(),
        r is None ==> !together_exists(*st, n as int),
{
    let seats = &st.seat_map.seats;
    let ghost ni = n as int;
    let mut best: Option<(Score, Vec<Seat>)> = None;
    let ghost mut best_row: Seq<char> = Seq::empty();
    let ghost mut best_i: int = 0;
    let mut k: usize = 0;
    while k < seats.len()
        invariant
            k <= seats.len(),
            seats == &st.seat_map.seats,
            ni == n,
            n >= 1,
            best matches Some((s, b)) ==> {
                &&& together_candidate(*st, best_row, ni, best_i)
                &&& s == together_score(*st, best_row, ni, best_i)
                &&& b@ == together_block(*st, best_row, ni, best_i)
                &&& bounded(s) && s.valid()
            },
            forall|row: Seq<char>, i: int|
                (exists|j: int|
                    0 <= j < k && (#[trigger] seats@[j]).row@ == row && seats@[j].state
                        == SeatState::Available) && together_candidate(*st, row, ni, i) ==> {
                    &&& best is Some
                    &&& !preferred(
                        together_score(*st, row, ni, i),
                        together_block(*st, row, ni, i),
                        together_score(*st, best_row, ni, best_i),
                        together_block(*st, best_row, ni, best_i),
                    )
                },
        decreases seats.len() - k,
    {
        let available = seats[k].state == SeatState::Available;
        let seen = available && available_row_seen(seats.as_slice(), k);
        if available && !seen {
            let ghost row = seats@[k as int].row@;
            let picked = select_row(seats.as_slice(), seats[k].row.as_str(), true);
            let ordered = sorted_seats(picked.as_slice(), SeatOrder::ColumnNumberId);
            proof {
                assert(ordered@ == together_row(*st, row));
                lemma_sort_len(row_seats(st.seat_map.seats@, row, true), SeatOrder::ColumnNumberId);
                lemma_row_seats_members(st.seat_map.seats@, row, true);
            }
            if n <= ordered.len() {
                let count = ordered.len() - n + 1;
                let mut i: usize = 0;
                while i < count
                    invariant
                        i <= count,
                        count == ordered.len() - n + 1,
                        n <= ordered.len(),
                        ordered@ == together_row(*st, row),
                        ordered.len() <= seats.len(),
                        seats == &st.seat_map.seats,
                        ni == n,
                        n >= 1,
                        best matches Some((s, b)) ==> {
                            &&& together_candidate(*st, best_row, ni, best_i)
                            &&& s == together_score(*st, best_row, ni, best_i)
                            &&& b@ == together_block(*st, best_row, ni, best_i)
                            &&& bounded(s) && s.valid()
                        },
                        forall|row2: Seq<char>, i2: int|
                            (exists|j: int|
                                0 <= j < k && (#[trigger] seats@[j]).row@ == row2 && seats@[j].state
                                    == SeatState::Available) && together_candidate(*st, row2, ni, i2)
                                ==> {
                                &&& best is Some
                                &&& !preferred(
                                    together_score(*st, row2, ni, i2),
                                    together_block(*st, row2, ni, i2),
                                    together_score(*st, best_row, ni, best_i),
                                    together_block(*st, best_row, ni, best_i),
                                )
                            },
                        forall|i2: int|
                            0 <= i2 < i && together_candidate(*st, row, ni, i2) ==> {
                                &&& best is Some
                                &&& !preferred(
                                    together_score(*st, row, ni, i2),
                                    together_block(*st, row, ni, i2),
                                    together_score(*st, best_row, ni, best_i),
                                    together_block(*st, best_row, ni, best_i),
                                )
                            },
                    decreases count - i,
                {
                    let w = window(ordered.as_slice(), i, n);
                    proof {
                        assert(w@ == together_window(*st, row, ni, i as int));
                    }
                    if all_contiguous(w.as_slice()) {
                        let scored = score_block(w.as_slice(), st.seat_map.columns, st.seat_map.rows);
                        if let Some(s) = scored {
                            let block = sorted_seats(w.as_slice(), SeatOrder::Number);
                            let take = match &best {
                                None => true,
                                Some((bs, bb)) => is_preferred(&s, block.as_slice(), bs, bb.as_slice()),
                            };
                            if take {
                                proof {
                                    lemma_block_key_irreflexive(block@);
                                    let ghost old_row = best_row;
                                    let ghost old_i = best_i;
                                    if best is Some {
                                        assert forall|row2: Seq<char>, i2: int|
                                            together_candidate(*st, row2, ni, i2) && !preferred(
                                                together_score(*st, row2, ni, i2),
                                                together_block(*st, row2, ni, i2),
                                                together_score(*st, old_row, ni, old_i),
                                                together_block(*st, old_row, ni, old_i),
                                            ) implies !preferred(
                                                together_score(*st, row2, ni, i2),
                                                together_block(*st, row2, ni, i2),
                                                s,
                                                block@,
                                            ) by {
                                            if preferred(
                                                together_score(*st, row2, ni, i2),
                                                together_block(*st, row2, ni, i2),
                                                s,
                                                block@,
                                            ) {
                                                lemma_preferred_transitive(
                                                    together_score(*st, row2, ni, i2),
                                                    together_block(*st, row2, ni, i2),
                                                    s,
                                                    block@,
                                                    together_score(*st, old_row, ni, old_i),
                                                    together_block(*st, old_row, ni, old_i),
                                                );
                                            }
                                        }
                                    }
                                    best_row = row;
                                    best_i = i as int;
                                }
                                best = Some((s, block));
                            }
                        }
                    }
                    i += 1;
                }
            }
            proof {
                assert forall|i2: int| together_candidate(*st, row, ni, i2) implies {
                    &&& best is Some
                    &&& !preferred(
                        together_score(*st, row, ni, i2),
                        together_block(*st, row, ni, i2),
                        together_score(*st, best_row, ni, best_i),
                        together_block(*st, best_row, ni, best_i),
                    )
                } by {}
            }
        }
        proof {
            assert forall|row2: Seq<char>, i2: int|
                (exists|j: int|
                    0 <= j < k + 1 && (#[trigger] seats@[j]).row@ == row2 && seats@[j].state
                        == SeatState::Available) && together_candidate(*st, row2, ni, i2) implies {
                &&& best is Some
                &&& !preferred(
                    together_score(*st, row2, ni, i2),
                    together_block(*st, row2, ni, i2),
                    together_score(*st, best_row, ni, best_i),
                    together_block(*st, best_row, ni, best_i),
                )
            } by {
                let j = choose|j: int|
                    0 <= j < k + 1 && (#[trigger] seats@[j]).row@ == row2 && seats@[j].state
                        == SeatState::Available;
                if j == k && seen {
                    let m = choose|m: int|
                        0 <= m < k && (#[trigger] seats@[m]).row@ == seats@[k as int].row@
                            && seats@[m].state == SeatState::Available;
                    assert(seats@[m].row@ == row2);
                }
            }
        }
        k += 1;
    }
    proof {
        assert forall|row: Seq<char>, i: int| together_candidate(*st, row, ni, i) implies {
            &&& best is Some
            &&& !preferred(
                together_score(*st, row, ni, i),
                together_block(*st, row, ni, i),
                together_score(*st, best_row, ni, best_i),
                together_block(*st, best_row, ni, best_i),
            )
        } by {
            if !(exists|j: int|
                0 <= j < k && (#[trigger] seats@[j]).row@ == row && seats@[j].state
                    == SeatState::Available) {
                lemma_row_seats_empty(st.seat_map.seats@, row, true);
                lemma_sort_len(row_seats(st.seat_map.seats@, row, true), SeatOrder::ColumnNumberId);
            }
        }
    }
    best
}


// ---------------------------------------------------------------------------
// Blocks split by an aisle.
// ---------------------------------------------------------------------------
/// Position of the first seat of column `x` in `s`; `s.len()` when none.
pub open spec fn first_with_x(s: Seq<Seat>, x: u16) -> int
    decreases s.len(),
{
    if s.len() == 0 {
        0
    } else if s[0].x == x {
        0
    } else {
        1 + first_with_x(s.drop_first(), x)
    }
}

/// From position `i`, step left while the seat before is available and
/// neighbours the current one.
pub open spec fn walk_left(s: Seq<Seat>, i: int) -> int
    decreases i,
{
    if 0 < i < s.len() && s[i - 1].state == SeatState::Available && contiguous(s[i - 1], s[i]) {
        walk_left(s, i - 1)
    } else {
        i
    }
}

/// From position `i`, step right while the seat after is available and
/// neighbours the current one.
pub open spec fn walk_right(s: Seq<Seat>, i: int) -> int
    decreases s.len() - i,
{
    if 0 <= i && i + 1 < s.len() && s[i + 1].state == SeatState::Available && contiguous(
        s[i],
        s[i + 1],
    ) {
        walk_right(s, i + 1)
    } else {
        i
    }
}

/// The run of neighbouring available seats that ends at the first seat of
/// column `x`; empty when that seat is missing or not available.
pub open spec fn run_ending_spec(s: Seq<Seat>, x: u16) -> Seq<Seat> {
    let e = first_with_x(s, x);
    if e < s.len() && s[e].state == SeatState::Available {
        s.subrange(walk_left(s, e), e + 1)
    } else {
        Seq::empty()
    }
}

/// The run of neighbouring available seats that starts at the first seat of
/// column `x`; empty when that seat is missing or not available.
pub open spec fn run_starting_spec(s: Seq<Seat>, x: u16) -> Seq<Seat> {
    let b = first_with_x(s, x);
    if b < s.len() && s[b].state == SeatState::Available {
        s.subrange(b, walk_right(s, b) + 1)
    } else {
        Seq::empty()
    }
}

proof fn lemma_first_with_x_skip(s: Seq<Seat>, x: u16, j: int)
    requires
        0 <= j <= s.len(),
        forall|m: int| 0 <= m < j ==> (#[trigger] s[m]).x != x,
    ensures
        first_with_x(s, x) == j + first_with_x(s.skip(j), x),
    decreases j,
{
    if j > 0 {
        assert forall|m: int| 0 <= m < j - 1 implies (#[trigger] s.drop_first()[m]).x != x by {
            assert(s.drop_first()[m] == s[m + 1]);
        }
        lemma_first_with_x_skip(s.drop_first(), x, j - 1);
        assert(s.drop_first().skip(j - 1) =~= s.skip(j));
    } else {
        assert(s.skip(0) =~= s);
    }
}

proof fn lemma_walk_left_bounds(s: Seq<Seat>, i: int)
    requires
        0 <= i < s.len(),
    ensures
        0 <= walk_left(s, i) <= i,
        forall|m: int| walk_left(s, i) <= m <= i ==> s[m].state == SeatState::Available || m == i,
    decreases i,
{
    if 0 < i && s[i - 1].state == SeatState::Available && contiguous(s[i - 1], s[i]) {
        lemma_walk_left_bounds(s, i - 1);
    }
}

proof fn lemma_walk_right_bounds(s: Seq<Seat>, i: int)
    requires
        0 <= i < s.len(),
    ensures
        i <= walk_right(s, i) < s.len(),
        forall|m: int| i < m <= walk_right(s, i) ==> s[m].state == SeatState::Available,
    decreases s.len() - i,
{
    if i + 1 < s.len() && s[i + 1].state == SeatState::Available && contiguous(s[i], s[i + 1]) {
        lemma_walk_right_bounds(s, i + 1);
    }
}

pub(crate) fn find_column(s: &[Seat], x: u16) -> (r: usize)
    ensures
        r == first_with_x(s@, x),
        r <= s.len(),
        r < s.len() ==> s@[r as int].x == x,
{
    let mut j: usize = 0;
    while j < s.len() && s[j].x != x
        invariant
            j <= s.len(),
            forall|m: int| 0 <= m < j ==> (#[trigger] s@[m]).x != x,
        decreases s.len() - j,
    {
        j += 1;
    }
    proof {
        lemma_first_with_x_skip(s@, x, j as int);
        if j < s.len() {
            assert(s@.skip(j as int)[0] == s@[j as int]);
        }
    }
    j
}

/// The run of neighbouring available seats that ends at the first seat of
/// column `x` in a row ordered by column.
pub fn run_ending(seats: &[Seat], x: u16) -> (r: Vec<Seat>)
    ensures
        r@ == run_ending_spec(seats@, x),
{
    let end = find_column(seats, x);
    if end >= seats.len() || seats[end].state != SeatState::Available {
        return Vec::new();
    }
    let mut start: usize = end;
    while start > 0 && seats[start - 1].state == SeatState::Available && is_contiguous(
        &seats[start - 1],
        &seats[start],
    )
        invariant
            start <= end < seats.len(),
            walk_left(seats@, end as int) == walk_left(seats@, start as int),
        decreases start,
    {
        start -= 1;
    }
    window(seats, start, end + 1 - start)
}

/// The run of neighbouring available seats that starts at the first seat of
/// column `x` in a row ordered by column.
pub fn run_starting(seats: &[Seat], x: u16) -> (r: Vec<Seat>)
    ensures
        r@ == run_starting_spec(seats@, x),
{
    let start = find_column(seats, x);
    if start >= seats.len() || seats[start].state != SeatState::Available {
        return Vec::new();
    }
    let mut end: usize = start;
    while end + 1 < seats.len() && seats[end + 1].state == SeatState::Available && is_contiguous(
        &seats[end],
        &seats[end + 1],
    )
        invariant
            start <= end < seats.len(),
            walk_right(seats@, start as int) == walk_right(seats@, end as int),
        decreases seats.len() - end,
    {
        end += 1;
    }
    window(seats, start, end + 1 - start)
}

/// All seats of a row, ordered by column and number.
pub open spec fn aisle_row(st: Showtime, row: Seq<char>) -> Seq<Seat> {
    sort_seats(row_seats(st.seat_map.seats@, row, false), SeatOrder::ColumnNumber)
}

/// Seats `j` and `j + 1` of the row are separated by an empty column.
pub open spec fn aisle_gap(s: Seq<Seat>, j: int) -> bool {
    0 <= j && j + 1 < s.len() && s[j + 1].x > s[j].x + 1
}

pub open spec fn aisle_left(st: Showtime, row: Seq<char>, j: int) -> Seq<Seat> {
    run_ending_spec(aisle_row(st, row), aisle_row(st, row)[j].x)
}

pub open spec fn aisle_right(st: Showtime, row: Seq<char>, j: int) -> Seq<Seat> {
    run_starting_spec(aisle_row(st, row), aisle_row(st, row)[j + 1].x)
}

/// The last `first` seats of the run left of the aisle and the first
/// `n - first` seats of the run right of it, ordered by column and number.
pub open spec fn aisle_block(st: Showtime, row: Seq<char>, n: int, j: int, first: int) -> Seq<Seat> {
    let l = aisle_left(st, row, j);
    let r = aisle_right(st, row, j);
    sort_seats(l.subrange(l.len() - first, l.len() as int) + r.subrange(0, n - first), SeatOrder::ColumnNumber)
}

/// A block of `n` seats split by the aisle after position `j`, `first` of
/// them on its left, that can be scored.
pub open spec fn aisle_candidate(st: Showtime, row: Seq<char>, n: int, j: int, first: int) -> bool {
    &&& aisle_gap(aisle_row(st, row), j)
    &&& 1 <= first
    &&& first <= aisle_left(st, row, j).len()
    &&& first <= n - 1
    &&& n - first <= aisle_right(st, row, j).len()
    &&& block_score(aisle_block(st, row, n, j, first), st.seat_map.columns, st.seat_map.rows) is Some
}

pub open spec fn aisle_score(st: Showtime, row: Seq<char>, n: int, j: int, first: int) -> Score {
    block_score(aisle_block(st, row, n, j, first), st.seat_map.columns, st.seat_map.rows).unwrap()
}

/// The size of the smaller part of a split block.
pub open spec fn smaller_part(n: int, first: int) -> int {
    if first <= n - first {
        first
    } else {
        n - first
    }
}

/// A split block `a`, `fa` of its seats left of the aisle, is preferred to
/// `b`: a smaller minority part, then a higher score, then a lower block key,
/// then fewer seats left of the aisle.
pub open spec fn aisle_preferred(
    ma: int,
    sa: Score,
    a: Seq<Seat>,
    fa: int,
    mb: int,
    sb: Score,
    b: Seq<Seat>,
    fb: int,
) -> bool {
    ma < mb || (ma == mb && (preferred(sa, a, sb, b) || (score_same(sa, sb) && block_key_same(a, b)
        && fa < fb)))
}

/// Some split block of `n` seats exists.
pub open spec fn aisle_exists(st: Showtime, n: int) -> bool {
    exists|row: Seq<char>, j: int, first: int| aisle_candidate(st, row, n, j, first)
}

/// The split block at `(row, j, first)` is a candidate and no candidate is
/// preferred to it.
pub open spec fn best_aisle(st: Showtime, n: int, row: Seq<char>, j: int, first: int) -> bool {
    &&& aisle_candidate(st, row, n, j, first)
    &&& forall|row2: Seq<char>, j2: int, first2: int|
        aisle_candidate(st, row2, n, j2, first2) ==> !aisle_preferred(
            smaller_part(n, first2),
            #[trigger] aisle_score(st, row2, n, j2, first2),
            aisle_block(st, row2, n, j2, first2),
            first2,
            smaller_part(n, first),
            aisle_score(st, row, n, j, first),
            aisle_block(st, row, n, j, first),
            first,
        )
}

/// The last `first` seats of `l` followed by the first `second` seats of `r`.
fn join_parts(l: &[Seat], first: usize, r: &[Seat], second: usize) -> (out: Vec<Seat>)
    requires
        first <= l.len(),
        second <= r.len(),
    ensures
        out@ == l@.subrange(l.len() - first, l.len() as int) + r@.subrange(0, second as int),
{
    let mut out = window(l, l.len() - first, first);
    let tail = window(r, 0, second);
    let mut k: usize = 0;
    let ghost head = out@;
    while k < tail.len()
        invariant
            k <= tail.len(),
            out@ == head + tail@.take(k as int),
        decreases tail.len() - k,
    {
        out.push(tail[k].copied());
        proof {
            assert(tail@.take(k + 1) =~= tail@.take(k as int).push(tail@[k as int]));
        }
        k += 1;
    }
    proof {
        assert(tail@.take(tail.len() as int) =~= tail@);
    }
    out
}

proof fn lemma_aisle_preferred_transitive(
    ma: int,
    sa: Score,
    a: Seq<Seat>,
    fa: int,
    mb: int,
    sb: Score,
    b: Seq<Seat>,
    fb: int,
    mc: int,
    sc: Score,
    c: Seq<Seat>,
    fc: int,
)
    requires
        sa.denominator > 0,
        sb.denominator > 0,
        sc.denominator > 0,
        aisle_preferred(ma, sa, a, fa, mb, sb, b, fb),
        aisle_preferred(mb, sb, b, fb, mc, sc, c, fc),
    ensures
        aisle_preferred(ma, sa, a, fa, mc, sc, c, fc),
{
    if ma == mb && mb == mc {
        lemma_score_lt_same(sc, sb, sa);
        lemma_score_lt_same(sb, sa, sc);
        lemma_score_lt_same(sc, sa, sb);
        lemma_score_lt_same(sb, sc, sa);
        if preferred(sa, a, sb, b) && preferred(sb, b, sc, c) {
            lemma_preferred_transitive(sa, a, sb, b, sc, c);
        } else if preferred(sa, a, sb, b) {
            lemma_block_key_congruent(b, c, a);
            if score_same(sa, sb) {
                lemma_score_same_transitive(sa, sb, sc);
            }
        } else if preferred(sb, b, sc, c) {
            lemma_block_key_congruent(a, b, c);
            if score_same(sb, sc) {
                lemma_score_same_transitive(sa, sb, sc);
            }
        } else {
            lemma_score_same_transitive(sa, sb, sc);
        }
    }
}


/// The split block at `(row2, j2, first2)` is not preferred to the one at
/// `(row, j, first)`.
pub open spec fn aisle_not_preferred(
    st: Showtime,
    n: int,
    row2: Seq<char>,
    j2: int,
    first2: int,
    row: Seq<char>,
    j: int,
    first: int,
) -> bool {
    !aisle_preferred(
        smaller_part(n, first2),
        aisle_score(st, row2, n, j2, first2),
        aisle_block(st, row2, n, j2, first2),
        first2,
        smaller_part(n, first),
        aisle_score(st, row, n, j, first),
        aisle_block(st, row, n, j, first),
        first,
    )
}

/// Whether a seat before position `k` belongs to the same row as the seat
/// at `k`.
fn row_seen(seats: &[Seat], k: usize) -> (r: bool)
    requires
        k < seats.len(),
    ensures
        r == exists|m: int| 0 <= m < k && (#[trigger] seats@[m]).row@ == seats@[k as int].row@,
{
    let mut j: usize = 0;
    while j < k
        invariant
            j <= k < seats.len(),
            forall|m: int| 0 <= m < j ==> (#[trigger] seats@[m]).row@ != seats@[k as int].row@,
        decreases k - j,
    {
        if compare_text(seats[j].row.as_str(), seats[k].row.as_str()) == 0 {
            return true;
        }
        j += 1;
    }
    false
}

/// The preferred split block, if any.
fn best_aisle_search(st: &Showtime, n: usize) -> (r: Option<(Score, Vec<Seat>, usize)>)
    requires
        n >= 1,
    ensures
        r is Some ==> exists|row: Seq<char>, j: int|
            #[trigger] best_aisle(*st, n as int, row, j, r.unwrap().2 as int) && r.unwrap().0
                == aisle_score(*st, row, n as int, j, r.unwrap().2 as int) && r.unwrap().1@
                == aisle_block(*st, row, n as int, j, r.unwrap().2 as int),
        r matches Some((s, b, first)) ==> bounded(s) && s.valid() && 1 <= first < n,
        r is None ==> !aisle_exists(*st, n as int),
{
    let seats = &st.seat_map.seats;
    let ghost ni = n as int;
    let mut best: Option<(usize, Score, Vec<Seat>, usize)> = None;
    let ghost mut brow: Seq<char> = Seq::empty();
    let ghost mut bj: int = 0;
    let ghost mut bf: int = 0;
    let mut k: usize = 0;
    while k < seats.len()
        invariant
            k <= seats.len(),
            seats == &st.seat_map.seats,
            ni == n,
            n >= 1,
            best matches Some((m, s, b, f)) ==> {
                &&& aisle_candidate(*st, brow, ni, bj, bf)
                &&& f == bf
                &&& m == smaller_part(ni, bf)
                &&& s == aisle_score(*st, brow, ni, bj, bf)
                &&& b@ == aisle_block(*st, brow, ni, bj, bf)
                &&& bounded(s) && s.valid()
            },
            forall|row: Seq<char>, j: int, f: int|
                (exists|q: int| 0 <= q < k && (#[trigger] seats@[q]).row@ == row) && aisle_candidate(
                    *st,
                    row,
                    ni,
                    j,
                    f,
                ) ==> best is Some && aisle_not_preferred(*st, ni, row, j, f, brow, bj, bf),
        decreases seats.len() - k,
    {
        let seen = row_seen(seats.as_slice(), k);
        if !seen {
            let ghost row = seats@[k as int].row@;
            let picked = select_row(seats.as_slice(), seats[k].row.as_str(), false);
            let ordered = sorted_seats(picked.as_slice(), SeatOrder::ColumnNumber);
            proof {
                assert(ordered@ == aisle_row(*st, row));
            }
            let mut j: usize = 0;
            while j + 1 < ordered.len()
                invariant
                    ordered@ == aisle_row(*st, row),
                    j + 1 <= ordered.len() || j == 0,
                    seats == &st.seat_map.seats,
                    ni == n,
                    n >= 1,
                    best matches Some((m, s, b, f)) ==> {
                        &&& aisle_candidate(*st, brow, ni, bj, bf)
                        &&& f == bf
                        &&& m == smaller_part(ni, bf)
                        &&& s == aisle_score(*st, brow, ni, bj, bf)
                        &&& b@ == aisle_block(*st, brow, ni, bj, bf)
                        &&& bounded(s) && s.valid()
                    },
                    forall|row2: Seq<char>, j2: int, f2: int|
                        (exists|q: int| 0 <= q < k && (#[trigger] seats@[q]).row@ == row2)
                            && aisle_candidate(*st, row2, ni, j2, f2) ==> best is Some
                            && aisle_not_preferred(*st, ni, row2, j2, f2, brow, bj, bf),
                    forall|j2: int, f2: int|
                        0 <= j2 < j && aisle_candidate(*st, row, ni, j2, f2) ==> best is Some
                            && aisle_not_preferred(*st, ni, row, j2, f2, brow, bj, bf),
                decreases ordered.len() - j,
            {
                let gap = (ordered[j + 1].x as u32) > (ordered[j].x as u32) + 1;
                if gap {
                    let left = run_ending(ordered.as_slice(), ordered[j].x);
                    let right = run_starting(ordered.as_slice(), ordered[j + 1].x);
                    proof {
                        assert(left@ == aisle_left(*st, row, j as int));
                        assert(right@ == aisle_right(*st, row, j as int));
                    }
                    let max_first = if left.len() < n - 1 {
                        left.len()
                    } else {
                        n - 1
                    };
                    let mut first: usize = 1;
                    while first <= max_first
                        invariant
                            1 <= first <= max_first + 1,
                            max_first <= n - 1,
                            max_first <= left.len(),
                            max_first == left.len() || max_first == n - 1,
                            left@ == aisle_left(*st, row, j as int),
                            right@ == aisle_right(*st, row, j as int),
                            aisle_gap(aisle_row(*st, row), j as int),
                            ordered@ == aisle_row(*st, row),
                            seats == &st.seat_map.seats,
                            ni == n,
                            n >= 1,
                            best matches Some((m, s, b, f)) ==> {
                                &&& aisle_candidate(*st, brow, ni, bj, bf)
                                &&& f == bf
                                &&& m == smaller_part(ni, bf)
                                &&& s == aisle_score(*st, brow, ni, bj, bf)
                                &&& b@ == aisle_block(*st, brow, ni, bj, bf)
                                &&& bounded(s) && s.valid()
                            },
                            forall|row2: Seq<char>, j2: int, f2: int|
                                (exists|q: int| 0 <= q < k && (#[trigger] seats@[q]).row@ == row2)
                                    && aisle_candidate(*st, row2, ni, j2, f2) ==> best is Some
                                    && aisle_not_preferred(*st, ni, row2, j2, f2, brow, bj, bf),
                            forall|j2: int, f2: int|
                                0 <= j2 < j && aisle_candidate(*st, row, ni, j2, f2) ==> best is Some
                                    && aisle_not_preferred(*st, ni, row, j2, f2, brow, bj, bf),
                            forall|f2: int|
                                f2 < first && aisle_candidate(*st, row, ni, j as int, f2) ==> best
                                    is Some && aisle_not_preferred(
                                    *st,
                                    ni,
                                    row,
                                    j as int,
                                    f2,
                                    brow,
                                    bj,
                                    bf,
                                ),
                        decreases max_first + 1 - first,
                    {
                        let second = n - first;
                        if second <= right.len() {
                            let joined = join_parts(left.as_slice(), first, right.as_slice(), second);
                            let block = sorted_seats(joined.as_slice(), SeatOrder::ColumnNumber);
                            proof {
                                assert(block@ == aisle_block(*st, row, ni, j as int, first as int));
                                lemma_sort_len(joined@, SeatOrder::ColumnNumber);
                            }
                            let scored = score_block(block.as_slice(), st.seat_map.columns, st.seat_map.rows);
                            if let Some(s) = scored {
                                let minor = if first <= second {
                                    first
                                } else {
                                    second
                                };
                                let take = match &best {
                                    None => true,
                                    Some((bm, bs, bb, bfirst)) => {
                                        proof {
                                            lemma_block_key_same_iff(block@, bb@);
                                        }
                                        minor < *bm || (minor == *bm && (is_preferred(
                                            &s,
                                            block.as_slice(),
                                            bs,
                                            bb.as_slice(),
                                        ) || (compare_scores(&s, bs) == 0 && !block_key_before(
                                            block.as_slice(),
                                            bb.as_slice(),
                                        ) && !block_key_before(bb.as_slice(), block.as_slice())
                                            && first < *bfirst)))
                                    },
                                };
                                if take {
                                    proof {
                                        lemma_block_key_irreflexive(block@);
                                        let ghost (orow, oj, of) = (brow, bj, bf);
                                        if best is Some {
                                            assert forall|row2: Seq<char>, j2: int, f2: int|
                                                aisle_candidate(*st, row2, ni, j2, f2)
                                                    && aisle_not_preferred(
                                                    *st,
                                                    ni,
                                                    row2,
                                                    j2,
                                                    f2,
                                                    orow,
                                                    oj,
                                                    of,
                                                ) implies aisle_not_preferred(
                                                *st,
                                                ni,
                                                row2,
                                                j2,
                                                f2,
                                                row,
                                                j as int,
                                                first as int,
                                            ) by {
                                                if !aisle_not_preferred(
                                                    *st,
                                                    ni,
                                                    row2,
                                                    j2,
                                                    f2,
                                                    row,
                                                    j as int,
                                                    first as int,
                                                ) {
                                                    lemma_aisle_score_positive(*st, row2, ni, j2, f2);
                                                    lemma_aisle_score_positive(*st, orow, ni, oj, of);
                                                    lemma_aisle_preferred_transitive(
                                                        smaller_part(ni, f2),
                                                        aisle_score(*st, row2, ni, j2, f2),
                                                        aisle_block(*st, row2, ni, j2, f2),
                                                        f2,
                                                        smaller_part(ni, first as int),
                                                        s,
                                                        block@,
                                                        first as int,
                                                        smaller_part(ni, of),
                                                        aisle_score(*st, orow, ni, oj, of),
                                                        aisle_block(*st, orow, ni, oj, of),
                                                        of,
                                                    );
                                                }
                                            }
                                        }
                                        brow = row;
                                        bj = j as int;
                                        bf = first as int;
                                    }
                                    best = Some((minor, s, block, first));
                                }
                            }
                        }
                        first += 1;
                    }
                }
                j += 1;
            }
        }
        proof {
            assert forall|row2: Seq<char>, j2: int, f2: int|
                (exists|q: int| 0 <= q < k + 1 && (#[trigger] seats@[q]).row@ == row2)
                    && aisle_candidate(*st, row2, ni, j2, f2) implies best is Some
                && aisle_not_preferred(*st, ni, row2, j2, f2, brow, bj, bf) by {
                let q = choose|q: int| 0 <= q < k + 1 && (#[trigger] seats@[q]).row@ == row2;
                if q == k && seen {
                    let m = choose|m: int|
                        0 <= m < k && (#[trigger] seats@[m]).row@ == seats@[k as int].row@;
                    assert(seats@[m].row@ == row2);
                }
            }
        }
        k += 1;
    }
    proof {
        assert forall|row: Seq<char>, j: int, f: int| aisle_candidate(*st, row, ni, j, f) implies best
            is Some && aisle_not_preferred(*st, ni, row, j, f, brow, bj, bf) by {
            if !(exists|q: int| 0 <= q < k && (#[trigger] seats@[q]).row@ == row) {
                lemma_row_seats_empty(st.seat_map.seats@, row, false);
                lemma_sort_len(row_seats(st.seat_map.seats@, row, false), SeatOrder::ColumnNumber);
            }
        }
    }
    proof {
        if best is Some {
            assert forall|row2: Seq<char>, j2: int, f2: int|
                aisle_candidate(*st, row2, ni, j2, f2) implies !aisle_preferred(
                smaller_part(ni, f2),
                #[trigger] aisle_score(*st, row2, ni, j2, f2),
                aisle_block(*st, row2, ni, j2, f2),
                f2,
                smaller_part(ni, bf),
                aisle_score(*st, brow, ni, bj, bf),
                aisle_block(*st, brow, ni, bj, bf),
                bf,
            ) by {
                assert(aisle_not_preferred(*st, ni, row2, j2, f2, brow, bj, bf));
            }
            assert(best_aisle(*st, ni, brow, bj, bf));
        }
    }
    match best {
        Some((_, s, b, f)) => {
            proof {
                assert(best_aisle(*st, n as int, brow, bj, f as int) && s == aisle_score(
                    *st,
                    brow,
                    n as int,
                    bj,
                    f as int,
                ) && b@ == aisle_block(*st, brow, n as int, bj, f as int));
                assert(exists|row: Seq<char>, j: int|
                    #[trigger] best_aisle(*st, n as int, row, j, f as int) && s
                        == aisle_score(*st, row, n as int, j, f as int) && b@
                        == aisle_block(*st, row, n as int, j, f as int));
            }
            let out = Some((s, b, f));
            proof {
                assert(out.unwrap().2 == f);
                assert(out.unwrap().1@ == b@);
            }
            out
        },
        None => None,
    }
}

/// A score that a block of `n >= 1` seats receives has a positive denominator.
proof fn lemma_block_score_positive(w: Seq<Seat>, columns: u16, rows: u16)
    requires
        1 <= w.len() <= 0xFFFF_FFFF_FFFF_FFFF,
    ensures
        block_score(w, columns, rows) matches Some(s) ==> s.denominator > 0,
{
    let n = w.len() as int;
    let c = crate::score::span(columns);
    let r = crate::score::span(rows);
    assert(1 <= 20 * n * c * r <= 20 * 0xFFFF_FFFF_FFFF_FFFF * 65535 * 65535) by (nonlinear_arith)
        requires
            1 <= n <= 0xFFFF_FFFF_FFFF_FFFF,
            1 <= c <= 65535,
            1 <= r <= 65535,
    ;
}

proof fn lemma_aisle_score_positive(st: Showtime, row: Seq<char>, n: int, j: int, first: int)
    requires
        aisle_candidate(st, row, n, j, first),
        1 <= n <= 0xFFFF_FFFF_FFFF_FFFF,
    ensures
        aisle_score(st, row, n, j, first).denominator > 0,
{
    let l = aisle_left(st, row, j);
    let r = aisle_right(st, row, j);
    let joined = l.subrange(l.len() - first, l.len() as int) + r.subrange(0, n - first);
    lemma_sort_len(joined, SeatOrder::ColumnNumber);
    lemma_block_score_positive(aisle_block(st, row, n, j, first), st.seat_map.columns, st.seat_map.rows);
}


// ---------------------------------------------------------------------------
// Assessment.
// ---------------------------------------------------------------------------
/// The outcome of assessing one showtime for a party.
#[derive(Clone, Debug)]
pub struct ViewingAssessment {
    pub block: Vec<Seat>,
    pub arrangement: SeatingArrangement,
    pub quality: Quality,
    pub visual_score: Score,
    pub reason_codes: Vec<String>,
    pub reasons: Vec<String>,
}

/// The available seats of a list, in the order given.
pub open spec fn free_seats(s: Seq<Seat>) -> Seq<Seat>
    decreases s.len(),
{
    if s.len() == 0 {
        Seq::empty()
    } else if s.last().state == SeatState::Available {
        free_seats(s.drop_last()).push(s.last())
    } else {
        free_seats(s.drop_last())
    }
}

/// The machine-readable reason for an arrangement.
pub open spec fn reason_code_text(a: SeatingArrangement) -> Seq<char> {
    match a {
        SeatingArrangement::Together => "contiguous_central_block"@,
        SeatingArrangement::AcrossAisle { .. } => "across_aisle_block"@,
        SeatingArrangement::Scattered => "no_contiguous_block"@,
    }
}

/// The human-readable reason for an arrangement.
pub open spec fn reason_text(a: SeatingArrangement) -> Seq<char> {
    match a {
        SeatingArrangement::Together => "Bloque contiguo cerca del centro de la sala"@,
        SeatingArrangement::AcrossAisle { .. } => "Dos bloques contiguos separados por un pasillo"@,
        SeatingArrangement::Scattered => "Sin bloque contiguo"@,
    }
}

/// The explanation given when no block fits the party.
pub open spec fn scattered_reason(n: nat, free: nat) -> Seq<char> {
    "Sin bloque contiguo para "@ + decimal_digits(n) + " personas; quedan "@ + decimal_digits(free)
        + " asientos disponibles"@
}

/// `a` reports `block` with the given arrangement and score, its quality,
/// and the arrangement's reason.
pub open spec fn finished(
    a: ViewingAssessment,
    block: Seq<Seat>,
    arrangement: SeatingArrangement,
    score: Score,
) -> bool {
    &&& a.block@ == block
    &&& a.arrangement == arrangement
    &&& a.visual_score == score
    &&& a.quality == quality_of(score)
    &&& a.reason_codes@.len() == 1
    &&& a.reason_codes@[0]@ == reason_code_text(arrangement)
    &&& a.reasons@.len() == 1
    &&& a.reasons@[0]@ == reason_text(arrangement)
}

fn reason_strings(a: SeatingArrangement) -> (r: (String, String))
    ensures
        r.0@ == reason_code_text(a),
        r.1@ == reason_text(a),
{
    match a {
        SeatingArrangement::Together => (
            owned("contiguous_central_block"),
            owned("Bloque contiguo cerca del centro de la sala"),
        ),
        SeatingArrangement::AcrossAisle { .. } => (
            owned("across_aisle_block"),
            owned("Dos bloques contiguos separados por un pasillo"),
        ),
        SeatingArrangement::Scattered => (owned("no_contiguous_block"), owned("Sin bloque contiguo")),
    }
}

/// The assessment of a chosen block.
pub fn finish(block: Vec<Seat>, arrangement: SeatingArrangement, visual_score: Score) -> (r:
    ViewingAssessment)
    requires
        bounded(visual_score),
    ensures
        finished(r, block@, arrangement, visual_score),
{
    let quality = quality_for(&visual_score);
    let (code, reason) = reason_strings(arrangement);
    let mut reason_codes: Vec<String> = Vec::new();
    reason_codes.push(code);
    let mut reasons: Vec<String> = Vec::new();
    reasons.push(reason);
    ViewingAssessment { block, arrangement, quality, visual_score, reason_codes, reasons }
}

fn available_of(s: &[Seat]) -> (r: Vec<Seat>)
    ensures
        r@ == free_seats(s@),
{
    let mut out: Vec<Seat> = Vec::new();
    let mut i: usize = 0;
    while i < s.len()
        invariant
            i <= s.len(),
            out@ == free_seats(s@.take(i as int)),
        decreases s.len() - i,
    {
        proof {
            assert(s@.take(i + 1).drop_last() =~= s@.take(i as int));
            assert(s@.take(i + 1).last() == s@[i as int]);
        }
        if s[i].state == SeatState::Available {
            out.push(s[i].copied());
        }
        i += 1;
    }
    proof {
        assert(s@.take(s@.len() as int) =~= s@);
    }
    out
}

proof fn lemma_free_seats_len(s: Seq<Seat>)
    ensures
        free_seats(s).len() <= s.len(),
    decreases s.len(),
{
    if s.len() > 0 {
        lemma_free_seats_len(s.drop_last());
    }
}

/// `r` is an assessment of the showtime for a party of `n`: the preferred
/// block of neighbouring seats in a row; else the preferred block split by
/// an aisle; else the first available seat, scattered; else none. A party
/// of zero gets none.
pub open spec fn assessed(showtime: Showtime, n: int, r: Option<ViewingAssessment>) -> bool {
    let free = free_seats(showtime.seat_map.seats@);
    if n <= 0 {
        r is None
    } else if together_exists(showtime, n) {
        r is Some && exists|row: Seq<char>, i: int|
            #[trigger] best_together(showtime, n, row, i) && finished(
                r.unwrap(),
                together_block(showtime, row, n, i),
                SeatingArrangement::Together,
                together_score(showtime, row, n, i),
            )
    } else if aisle_exists(showtime, n) {
        r is Some && exists|row: Seq<char>, j: int, first: int|
            #[trigger] best_aisle(showtime, n, row, j, first) && finished(
                r.unwrap(),
                aisle_block(showtime, row, n, j, first),
                SeatingArrangement::AcrossAisle { first: first as usize, second: (n - first) as usize },
                aisle_score(showtime, row, n, j, first),
            )
    } else if free.len() > 0 {
        r is Some && {
            let a = r.unwrap();
            &&& a.block@ == seq![free[0]]
            &&& a.arrangement == SeatingArrangement::Scattered
            &&& a.quality == Quality::Unfavorable
            &&& a.visual_score == (Score { numerator: 0, denominator: 1 })
            &&& a.reason_codes@.len() == 1
            &&& a.reason_codes@[0]@ == "no_contiguous_block"@
            &&& a.reasons@.len() == 1
            &&& a.reasons@[0]@ == scattered_reason(n as nat, free.len())
        }
    } else {
        r is None
    }
}

/// Assesses how well a party of `party_size` can sit for a showtime.
///
/// The preferred block of neighbouring available seats in one row wins; the
/// preferred block split by an aisle comes next; otherwise the first
/// available seat stands for a scattered party. A party of zero, or a room
/// without available seats, gets no assessment.
pub fn assess(showtime: &Showtime, party_size: usize) -> (r: Option<ViewingAssessment>)
    ensures
        assessed(*showtime, party_size as int, r),
        r matches Some(a) ==> bounded(a.visual_score) && a.visual_score.valid(),
{
    if party_size == 0 {
        return None;
    }
    if let Some((s, block)) = best_together_search(showtime, party_size) {
        let a = finish(block, SeatingArrangement::Together, s);
        return Some(a);
    }
    if let Some((s, block, first)) = best_aisle_search(showtime, party_size) {
        let arrangement = SeatingArrangement::AcrossAisle { first, second: party_size - first };
        let a = finish(block, arrangement, s);
        return Some(a);
    }
    let available = available_of(showtime.seat_map.seats.as_slice());
    if available.len() == 0 {
        return None;
    }
    let representative = available[0].copied();
    let mut block: Vec<Seat> = Vec::new();
    block.push(representative);
    let mut reason_codes: Vec<String> = Vec::new();
    reason_codes.push(owned("no_contiguous_block"));
    proof {
        lemma_free_seats_len(showtime.seat_map.seats@);
    }
    let a1 = concat("Sin bloque contiguo para ", decimal_text(party_size as u64).as_str());
    let a2 = concat(a1.as_str(), " personas; quedan ");
    let a3 = concat(a2.as_str(), decimal_text(available.len() as u64).as_str());
    let a4 = concat(a3.as_str(), " asientos disponibles");
    let mut reasons: Vec<String> = Vec::new();
    reasons.push(a4);
    proof {
        assert(block@ =~= seq![free_seats(showtime.seat_map.seats@)[0]]);
    }
    Some(
        ViewingAssessment {
            block,
            arrangement: SeatingArrangement::Scattered,
            quality: Quality::Unfavorable,
            visual_score: Score { numerator: 0, denominator: 1 },
            reason_codes,
            reasons,
        },
    )
}


// ---------------------------------------------------------------------------
// The zone of good viewing positions.
// ---------------------------------------------------------------------------
/// Columns `start_x ..= end_x` of depth `y`.
#[derive(Clone, Debug, PartialEq, Eq, Structural)]
pub struct ViewingZoneSpan {
    pub y: u16,
    pub start_x: u16,
    pub end_x: u16,
}

/// The positions whose visual score reaches `score_threshold`.
#[derive(Clone, Debug)]
pub struct ViewingZone {
    pub score_threshold: i128,
    pub spans: Vec<ViewingZoneSpan>,
}

/// Position `(x, y)` of the map scores at least the good threshold.
pub open spec fn good_position(map_columns: u16, map_rows: u16, x: int, y: int) -> bool {
    0 <= x <= u16::MAX && 0 <= y <= u16::MAX && match position_score(
        map_columns,
        map_rows,
        x as u16,
        y as u16,
    ) {
        Some(s) => score_at_least(s, 72),
        None => false,
    }
}

/// Some span covers `(x, y)`.
pub open spec fn spans_cover(spans: Seq<ViewingZoneSpan>, x: int, y: int) -> bool {
    exists|k: int| 0 <= k < spans.len() && (#[trigger] spans[k]).y == y && spans[k].start_x <= x
        <= spans[k].end_x
}

/// `sp` is a maximal run of good positions of one depth of the map.
pub open spec fn maximal_span(columns: u16, rows: u16, sp: ViewingZoneSpan) -> bool {
    &&& sp.y < rows
    &&& sp.start_x <= sp.end_x < columns
    &&& forall|x: int| sp.start_x <= x <= sp.end_x ==> good_position(columns, rows, x, sp.y as int)
    &&& (sp.start_x == 0 || !good_position(columns, rows, sp.start_x - 1, sp.y as int))
    &&& (sp.end_x + 1 == columns || !good_position(columns, rows, sp.end_x + 1, sp.y as int))
}

/// Span `a` comes before span `b`: a smaller depth, or the same depth and a
/// smaller first column.
pub open spec fn span_before(a: ViewingZoneSpan, b: ViewingZoneSpan) -> bool {
    a.y < b.y || (a.y == b.y && a.start_x < b.start_x)
}

/// The spans are exactly the maximal runs of good positions of the map, in
/// order of depth and then column.
pub open spec fn zone_of(columns: u16, rows: u16, spans: Seq<ViewingZoneSpan>) -> bool {
    &&& forall|k: int| 0 <= k < spans.len() ==> maximal_span(columns, rows, #[trigger] spans[k])
    &&& forall|a: int, b: int| 0 <= a < b < spans.len() ==> span_before(spans[a], spans[b])
    &&& forall|x: int, y: int|
        0 <= x < columns && 0 <= y < rows && good_position(columns, rows, x, y) ==> spans_cover(
            spans,
            x,
            y,
        )
}

impl ViewingZone {
    /// Whether a span of the zone covers column `x` at depth `y`.
    pub fn contains(&self, x: u16, y: u16) -> (r: bool)
        ensures
            r == spans_cover(self.spans@, x as int, y as int),
    {
        let mut k: usize = 0;
        while k < self.spans.len()
            invariant
                k <= self.spans.len(),
                forall|j: int|
                    0 <= j < k ==> !((#[trigger] self.spans@[j]).y == y && self.spans@[j].start_x
                        <= x <= self.spans@[j].end_x),
            decreases self.spans.len() - k,
        {
            let span = &self.spans[k];
            if span.y == y && span.start_x <= x && x <= span.end_x {
                return true;
            }
            k += 1;
        }
        false
    }
}

/// A zone whose spans are maximal runs of good positions covers exactly the
/// good positions of the map.
pub proof fn lemma_zone_covers_good_positions(
    columns: u16,
    rows: u16,
    spans: Seq<ViewingZoneSpan>,
    x: int,
    y: int,
)
    requires
        zone_of(columns, rows, spans),
    ensures
        spans_cover(spans, x, y) <==> (0 <= x < columns && 0 <= y < rows && good_position(
            columns,
            rows,
            x,
            y,
        )),
{
    if spans_cover(spans, x, y) {
        let k = choose|k: int|
            0 <= k < spans.len() && (#[trigger] spans[k]).y == y && spans[k].start_x <= x
                <= spans[k].end_x;
        assert(maximal_span(columns, rows, spans[k]));
    }
}

fn is_good_position(columns: u16, rows: u16, x: u16, y: u16) -> (r: bool)
    ensures
        r == good_position(columns, rows, x as int, y as int),
{
    match visual_score(x as u128, y as u128, 1, columns, rows) {
        Some(s) => reaches(&s, GOOD_VIEWING_SCORE_THRESHOLD),
        None => false,
    }
}

/// The zone of positions with a good visual score, from the map's size
/// alone: a sold seat does not punch a hole through it.
pub fn good_viewing_zone(map: &SeatMap) -> (r: ViewingZone)
    ensures
        r.score_threshold == GOOD_VIEWING_SCORE_THRESHOLD,
        zone_of(map.columns, map.rows, r.spans@),
{
    let columns = map.columns;
    let rows = map.rows;
    let mut spans: Vec<ViewingZoneSpan> = Vec::new();
    let mut y: u16 = 0;
    while y < rows
        invariant
            y <= rows,
            columns == map.columns,
            rows == map.rows,
            forall|k: int| 0 <= k < spans.len() ==> maximal_span(columns, rows, #[trigger] spans@[k]),
            forall|a: int, b: int| 0 <= a < b < spans.len() ==> span_before(spans@[a], spans@[b]),
            forall|k: int| 0 <= k < spans.len() ==> (#[trigger] spans@[k]).y < y,
            forall|xx: int, yy: int|
                0 <= xx < columns && 0 <= yy < y && good_position(columns, rows, xx, yy)
                    ==> spans_cover(spans@, xx, yy),
        decreases rows - y,
    {
        let ghost before = spans@;
        let mut start: Option<u16> = None;
        let mut x: u16 = 0;
        while x < columns
            invariant
                x <= columns,
                y < rows,
                columns == map.columns,
                rows == map.rows,
                forall|k: int| 0 <= k < spans.len() ==> maximal_span(columns, rows, #[trigger] spans@[k]),
                forall|a: int, b: int| 0 <= a < b < spans.len() ==> span_before(spans@[a], spans@[b]),
                forall|k: int| 0 <= k < spans.len() ==> (#[trigger] spans@[k]).y <= y,
                forall|k: int|
                    0 <= k < spans.len() && (#[trigger] spans@[k]).y == y ==> spans@[k].end_x < x
                        && (start matches Some(sx) ==> spans@[k].end_x + 1 < sx),
                forall|xx: int, yy: int|
                    0 <= xx < columns && 0 <= yy < y && good_position(columns, rows, xx, yy)
                        ==> spans_cover(spans@, xx, yy),
                forall|xx: int|
                    0 <= xx < x && good_position(columns, rows, xx, y as int) && !(start matches Some(
                        sx,
                    ) && sx <= xx) ==> spans_cover(spans@, xx, y as int),
                start matches Some(sx) ==> {
                    &&& sx < x
                    &&& forall|xx: int| sx <= xx < x ==> good_position(columns, rows, xx, y as int)
                    &&& (sx == 0 || !good_position(columns, rows, sx - 1, y as int))
                },
                start is None ==> (x == 0 || !good_position(columns, rows, x - 1, y as int)),
            decreases columns - x,
        {
            let good = is_good_position(columns, rows, x, y);
            match start {
                None => {
                    if good {
                        start = Some(x);
                    }
                },
                Some(sx) => {
                    if !good {
                        let span = ViewingZoneSpan { y, start_x: sx, end_x: x - 1 };
                        proof {
                            assert(maximal_span(columns, rows, span));
                        }
                        let ghost old_spans = spans@;
                        spans.push(span);
                        proof {
                            assert forall|xx: int|
                                0 <= xx < x + 1 && good_position(columns, rows, xx, y as int)
                                    implies spans_cover(spans@, xx, y as int) by {
                                if sx <= xx < x {
                                    assert(spans@[spans.len() - 1] == span);
                                } else if xx < sx {
                                    assert(spans_cover(old_spans, xx, y as int));
                                    let k = choose|k: int|
                                        0 <= k < old_spans.len() && (#[trigger] old_spans[k]).y == y
                                            && old_spans[k].start_x <= xx <= old_spans[k].end_x;
                                    assert(spans@[k] == old_spans[k]);
                                }
                            }
                            assert forall|xx: int, yy: int|
                                0 <= xx < columns && 0 <= yy < y && good_position(
                                    columns,
                                    rows,
                                    xx,
                                    yy,
                                ) implies spans_cover(spans@, xx, yy) by {
                                assert(spans_cover(old_spans, xx, yy));
                                let k = choose|k: int|
                                    0 <= k < old_spans.len() && (#[trigger] old_spans[k]).y == yy
                                        && old_spans[k].start_x <= xx <= old_spans[k].end_x;
                                assert(spans@[k] == old_spans[k]);
                            }
                        }
                        start = None;
                    }
                },
            }
            x += 1;
        }
        if let Some(sx) = start {
            let span = ViewingZoneSpan { y, start_x: sx, end_x: columns - 1 };
            proof {
                assert(maximal_span(columns, rows, span));
            }
            let ghost old_spans = spans@;
            spans.push(span);
            proof {
                assert forall|xx: int|
                    0 <= xx < columns && good_position(columns, rows, xx, y as int) implies spans_cover(
                    spans@,
                    xx,
                    y as int,
                ) by {
                    if sx <= xx {
                        assert(spans@[spans.len() - 1] == span);
                    } else {
                        assert(spans_cover(old_spans, xx, y as int));
                        let k = choose|k: int|
                            0 <= k < old_spans.len() && (#[trigger] old_spans[k]).y == y
                                && old_spans[k].start_x <= xx <= old_spans[k].end_x;
                        assert(spans@[k] == old_spans[k]);
                    }
                }
                assert forall|xx: int, yy: int|
                    0 <= xx < columns && 0 <= yy < y && good_position(columns, rows, xx, yy)
                        implies spans_cover(spans@, xx, yy) by {
                    assert(spans_cover(old_spans, xx, yy));
                    let k = choose|k: int|
                        0 <= k < old_spans.len() && (#[trigger] old_spans[k]).y == yy
                            && old_spans[k].start_x <= xx <= old_spans[k].end_x;
                    assert(spans@[k] == old_spans[k]);
                }
            }
        }
        y += 1;
    }
    ViewingZone { score_threshold: GOOD_VIEWING_SCORE_THRESHOLD, spans }
}

/// Whether a block lies inside the good viewing zone of the map. A
/// scattered party has no block to place.
pub fn selected_block_is_in_good_viewing_zone(
    map: &SeatMap,
    block: &[Seat],
    arrangement: &SeatingArrangement,
) -> (r: bool)
    ensures
        r == (!(*arrangement is Scattered) && forall|k: int|
            0 <= k < block@.len() ==> {
                let seat = #[trigger] block@[k];
                seat.x < map.columns && seat.y < map.rows && good_position(
                    map.columns,
                    map.rows,
                    seat.x as int,
                    seat.y as int,
                )
            }),
{
    if let SeatingArrangement::Scattered = arrangement {
        return false;
    }
    let zone = good_viewing_zone(map);
    let mut k: usize = 0;
    while k < block.len()
        invariant
            k <= block.len(),
            zone_of(map.columns, map.rows, zone.spans@),
            forall|j: int|
                0 <= j < k ==> {
                    let seat = #[trigger] block@[j];
                    seat.x < map.columns && seat.y < map.rows && good_position(
                        map.columns,
                        map.rows,
                        seat.x as int,
                        seat.y as int,
                    )
                },
        decreases block.len() - k,
    {
        let inside = zone.contains(block[k].x, block[k].y);
        proof {
            lemma_zone_covers_good_positions(
                map.columns,
                map.rows,
                zone.spans@,
                block@[k as int].x as int,
                block@[k as int].y as int,
            );
        }
        if !inside {
            return false;
        }
        k += 1;
    }
    true
}


// ---------------------------------------------------------------------------
// One assessment per showtime and party.
// ---------------------------------------------------------------------------
proof fn lemma_insert_sums(s: Seq<Seat>, e: Seat, o: SeatOrder)
    ensures
        sum_x(insert_sorted(s, e, o)) == sum_x(s) + e.x,
        sum_y(insert_sorted(s, e, o)) == sum_y(s) + e.y,
    decreases s.len(),
{
    let r = insert_sorted(s, e, o);
    if s.len() == 0 {
        assert(r == seq![e]);
        assert(r.drop_last() =~= Seq::<Seat>::empty());
        assert(sum_x(r) == sum_x(r.drop_last()) + r.last().x);
        assert(sum_y(r) == sum_y(r.drop_last()) + r.last().y);
    } else if seat_before(e, s.last(), o) {
        let d = s.drop_last();
        lemma_insert_sums(d, e, o);
        let t = insert_sorted(d, e, o);
        assert(r == t.push(s.last()));
        assert(r.drop_last() =~= t);
        assert(sum_x(r) == sum_x(r.drop_last()) + r.last().x);
        assert(sum_y(r) == sum_y(r.drop_last()) + r.last().y);
        assert(sum_x(s) == sum_x(d) + s.last().x);
        assert(sum_y(s) == sum_y(d) + s.last().y);
    } else {
        assert(r == s.push(e));
        assert(r.drop_last() =~= s);
        assert(sum_x(r) == sum_x(r.drop_last()) + r.last().x);
        assert(sum_y(r) == sum_y(r.drop_last()) + r.last().y);
    }
}

/// Sorting keeps the sums of the columns and rows.
proof fn lemma_sort_sums(s: Seq<Seat>, o: SeatOrder)
    ensures
        sum_x(sort_seats(s, o)) == sum_x(s),
        sum_y(sort_seats(s, o)) == sum_y(s),
    decreases s.len(),
{
    if s.len() > 0 {
        lemma_sort_sums(s.drop_last(), o);
        lemma_insert_sums(sort_seats(s.drop_last(), o), s.last(), o);
    }
}

/// Blocks of the same key have the same sums of columns and rows.
proof fn lemma_same_key_sums(a: Seq<Seat>, b: Seq<Seat>)
    requires
        block_key_same(a, b),
    ensures
        sum_x(a) == sum_x(b),
        sum_y(a) == sum_y(b),
    decreases a.len(),
{
    if a.len() > 0 {
        assert(seat_key_eq(a[a.len() - 1], b[b.len() - 1]));
        assert forall|k: int| 0 <= k < a.drop_last().len() implies seat_key_eq(
            #[trigger] a.drop_last()[k],
            b.drop_last()[k],
        ) by {
            assert(seat_key_eq(a[k], b[k]));
        }
        lemma_same_key_sums(a.drop_last(), b.drop_last());
    }
}

proof fn lemma_together_block_available(st: Showtime, row: Seq<char>, n: int, i: int)
    requires
        n >= 1,
        together_candidate(st, row, n, i),
    ensures
        forall|k: int|
            0 <= k < together_block(st, row, n, i).len() ==> (#[trigger] together_block(
                st,
                row,
                n,
                i,
            )[k]).state == SeatState::Available,
{
    let rs = row_seats(st.seat_map.seats@, row, true);
    let w = together_window(st, row, n, i);
    lemma_row_seats_members(st.seat_map.seats@, row, true);
    lemma_sort_members(rs, SeatOrder::ColumnNumberId);
    lemma_sort_len(rs, SeatOrder::ColumnNumberId);
    lemma_sort_members(w, SeatOrder::Number);
    assert forall|k: int| 0 <= k < together_block(st, row, n, i).len() implies (#[trigger] together_block(
        st,
        row,
        n,
        i,
    )[k]).state == SeatState::Available by {
        let x = together_block(st, row, n, i)[k];
        assert(together_block(st, row, n, i) == sort_seats(w, SeatOrder::Number));
        assert(w.contains(sort_seats(w, SeatOrder::Number)[k]));
        let q = choose|q: int| 0 <= q < w.len() && w[q] == x;
        let tr = together_row(st, row);
        assert(tr == sort_seats(rs, SeatOrder::ColumnNumberId));
        assert(w == tr.subrange(i, i + n));
        assert(w[q] == tr[i + q]);
        assert(rs.contains(sort_seats(rs, SeatOrder::ColumnNumberId)[i + q]));
        let m = choose|m: int| 0 <= m < rs.len() && rs[m] == tr[i + q];
        assert(rs[m].state == SeatState::Available);
    }
}

proof fn lemma_first_with_x_bounds(s: Seq<Seat>, x: u16)
    ensures
        0 <= first_with_x(s, x) <= s.len(),
    decreases s.len(),
{
    if s.len() > 0 && s[0].x != x {
        lemma_first_with_x_bounds(s.drop_first(), x);
    }
}

proof fn lemma_aisle_block_available(st: Showtime, row: Seq<char>, n: int, j: int, first: int)
    requires
        aisle_candidate(st, row, n, j, first),
    ensures
        forall|k: int|
            0 <= k < aisle_block(st, row, n, j, first).len() ==> (#[trigger] aisle_block(
                st,
                row,
                n,
                j,
                first,
            )[k]).state == SeatState::Available,
{
    let s = aisle_row(st, row);
    let l = aisle_left(st, row, j);
    let r = aisle_right(st, row, j);
    let e = first_with_x(s, s[j].x);
    let b = first_with_x(s, s[j + 1].x);
    assert(l == run_ending_spec(s, s[j].x));
    assert(r == run_starting_spec(s, s[j + 1].x));
    lemma_first_with_x_bounds(s, s[j].x);
    lemma_first_with_x_bounds(s, s[j + 1].x);
    assert forall|k: int| 0 <= k < l.len() implies (#[trigger] l[k]).state == SeatState::Available by {
        if !(e < s.len() && s[e].state == SeatState::Available) {
            assert(run_ending_spec(s, s[j].x) =~= Seq::<Seat>::empty());
        }
        lemma_walk_left_bounds(s, e);
        assert(l[k] == s[walk_left(s, e) + k]);
    }
    assert forall|k: int| 0 <= k < r.len() implies (#[trigger] r[k]).state == SeatState::Available by {
        if !(b < s.len() && s[b].state == SeatState::Available) {
            assert(run_starting_spec(s, s[j + 1].x) =~= Seq::<Seat>::empty());
        }
        lemma_walk_right_bounds(s, b);
        assert(r[k] == s[b + k]);
    }
    let joined = l.subrange(l.len() - first, l.len() as int) + r.subrange(0, n - first);
    lemma_sort_members(joined, SeatOrder::ColumnNumber);
    assert(aisle_block(st, row, n, j, first) == sort_seats(joined, SeatOrder::ColumnNumber));
    assert forall|k: int| 0 <= k < aisle_block(st, row, n, j, first).len() implies (#[trigger] aisle_block(
        st,
        row,
        n,
        j,
        first,
    )[k]).state == SeatState::Available by {
        let x = aisle_block(st, row, n, j, first)[k];
        assert(joined.contains(sort_seats(joined, SeatOrder::ColumnNumber)[k]));
        let q = choose|q: int| 0 <= q < joined.len() && joined[q] == x;
        if q < first {
            assert(joined[q] == l[l.len() - first + q]);
        } else {
            assert(joined[q] == r[q - first]);
        }
    }
}

/// Two blocks show the same seats: the same key and state, seat by seat.
pub open spec fn alike_blocks(a: Seq<Seat>, b: Seq<Seat>) -> bool {
    block_key_same(a, b) && forall|k: int| 0 <= k < a.len() ==> (#[trigger] a[k]).state == b[k].state
}

/// Two assessments agree on everything they report.
pub open spec fn same_assessment(a: ViewingAssessment, b: ViewingAssessment) -> bool {
    &&& alike_blocks(a.block@, b.block@)
    &&& a.arrangement == b.arrangement
    &&& a.quality == b.quality
    &&& a.visual_score == b.visual_score
    &&& texts(a.reason_codes@) == texts(b.reason_codes@)
    &&& texts(a.reasons@) == texts(b.reasons@)
}

/// A showtime and a party size determine the assessment: any two that meet
/// `assessed` report the same block, arrangement, quality, score and
/// reasons.
pub proof fn lemma_assessment_determined(
    st: Showtime,
    n: int,
    r1: Option<ViewingAssessment>,
    r2: Option<ViewingAssessment>,
)
    requires
        assessed(st, n, r1),
        assessed(st, n, r2),
    ensures
        r1 is Some <==> r2 is Some,
        r1 is Some ==> same_assessment(r1.unwrap(), r2.unwrap()),
{
    if n > 0 && together_exists(st, n) {
        let (row1, i1) = choose|row: Seq<char>, i: int|
            #[trigger] best_together(st, n, row, i) && finished(
                r1.unwrap(),
                together_block(st, row, n, i),
                SeatingArrangement::Together,
                together_score(st, row, n, i),
            );
        let (row2, i2) = choose|row: Seq<char>, i: int|
            #[trigger] best_together(st, n, row, i) && finished(
                r2.unwrap(),
                together_block(st, row, n, i),
                SeatingArrangement::Together,
                together_score(st, row, n, i),
            );
        let s1 = together_score(st, row1, n, i1);
        let s2 = together_score(st, row2, n, i2);
        let b1 = together_block(st, row1, n, i1);
        let b2 = together_block(st, row2, n, i2);
        assert(!preferred(s2, b2, s1, b1));
        assert(!preferred(s1, b1, s2, b2));
        assert(score_same(s1, s2));
        lemma_block_key_same_iff(b1, b2);
        lemma_together_block_available(st, row1, n, i1);
        lemma_together_block_available(st, row2, n, i2);
        let w1 = together_window(st, row1, n, i1);
        let w2 = together_window(st, row2, n, i2);
        lemma_sort_sums(w1, SeatOrder::Number);
        lemma_sort_sums(w2, SeatOrder::Number);
        lemma_same_key_sums(b1, b2);
        assert(s1 == s2);
        assert(texts(r1.unwrap().reason_codes@) =~= texts(r2.unwrap().reason_codes@));
        assert(texts(r1.unwrap().reasons@) =~= texts(r2.unwrap().reasons@));
    } else if n > 0 && aisle_exists(st, n) {
        let (row1, j1, f1) = choose|row: Seq<char>, j: int, first: int|
            #[trigger] best_aisle(st, n, row, j, first) && finished(
                r1.unwrap(),
                aisle_block(st, row, n, j, first),
                SeatingArrangement::AcrossAisle { first: first as usize, second: (n - first) as usize },
                aisle_score(st, row, n, j, first),
            );
        let (row2, j2, f2) = choose|row: Seq<char>, j: int, first: int|
            #[trigger] best_aisle(st, n, row, j, first) && finished(
                r2.unwrap(),
                aisle_block(st, row, n, j, first),
                SeatingArrangement::AcrossAisle { first: first as usize, second: (n - first) as usize },
                aisle_score(st, row, n, j, first),
            );
        let s1 = aisle_score(st, row1, n, j1, f1);
        let s2 = aisle_score(st, row2, n, j2, f2);
        let b1 = aisle_block(st, row1, n, j1, f1);
        let b2 = aisle_block(st, row2, n, j2, f2);
        assert(!aisle_preferred(smaller_part(n, f2), s2, b2, f2, smaller_part(n, f1), s1, b1, f1));
        assert(!aisle_preferred(smaller_part(n, f1), s1, b1, f1, smaller_part(n, f2), s2, b2, f2));
        assert(score_same(s1, s2));
        lemma_block_key_same_iff(b1, b2);
        assert(f1 == f2);
        lemma_aisle_block_available(st, row1, n, j1, f1);
        lemma_aisle_block_available(st, row2, n, j2, f2);
        lemma_same_key_sums(b1, b2);
        assert(s1 == s2);
        assert(texts(r1.unwrap().reason_codes@) =~= texts(r2.unwrap().reason_codes@));
        assert(texts(r1.unwrap().reasons@) =~= texts(r2.unwrap().reasons@));
    } else if r1 is Some {
        assert(texts(r1.unwrap().reason_codes@) =~= texts(r2.unwrap().reason_codes@));
        assert(texts(r1.unwrap().reasons@) =~= texts(r2.unwrap().reasons@));
    }
}

/// The quality of an assessment follows its visual score: excellent from
/// 90 up, good from 72 up to below 90, unfavorable below 72.
pub proof fn lemma_assessed_quality_thresholds(st: Showtime, n: int, a: ViewingAssessment)
    requires
        assessed(st, n, Some(a)),
    ensures
        (a.quality == Quality::Excellent) <==> a.visual_score.numerator >= 90 * a.visual_score.denominator,
        (a.quality == Quality::Good) <==> (72 * a.visual_score.denominator <= a.visual_score.numerator
            && a.visual_score.numerator < 90 * a.visual_score.denominator),
        (a.quality == Quality::Unfavorable) <==> a.visual_score.numerator < 72
            * a.visual_score.denominator,
{
    let v = a.visual_score;
    if v.denominator > 0 {
        assert(v.numerator >= 90 * v.denominator ==> v.numerator >= 72 * v.denominator) by (nonlinear_arith)
            requires v.denominator > 0;
    } else {
        assert(v.denominator == 0);
    }
}

} // verus!
