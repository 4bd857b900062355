//! Seat orders, stable sorting and row selection.
use vstd::prelude::*;

use crate::domain::{Seat, SeatState};
use crate::text::{compare_text, text_lt};

verus! {

/// The keys by which seats are ordered.
#[derive(Clone, Copy, Debug, PartialEq, Eq, Structural)]
pub enum SeatOrder {
    /// By column, then seat number, then identifier.
    ColumnNumberId,
    /// By column, then seat number.
    ColumnNumber,
    /// By seat number.
    Number,
    /// By depth, then column, then row name, then seat number.
    Depth,
}

/// `a`'s key is strictly below `b`'s key in the given order.
pub open spec fn seat_before(a: Seat, b: Seat, o: SeatOrder) -> bool {
    match o {
        SeatOrder::ColumnNumberId => a.x < b.x || (a.x == b.x && (a.number < b.number || (a.number
            == b.number && text_lt(a.id@, b.id@)))),
        SeatOrder::ColumnNumber => a.x < b.x || (a.x == b.x && a.number < b.number),
        SeatOrder::Number => a.number < b.number,
        SeatOrder::Depth => a.y < b.y || (a.y == b.y && (a.x < b.x || (a.x == b.x && (text_lt(
            a.row@,
            b.row@,
        ) || (a.row@ == b.row@ && a.number < b.number))))),
    }
}

/// Whether `a` sorts strictly before `b` in the given order.
pub fn seat_before_exec(a: &Seat, b: &Seat, o: SeatOrder) -> (r: bool)
    ensures
        r == seat_before(*a, *b, o),
{
    match o {
        SeatOrder::ColumnNumberId => {
            if a.x != b.x {
                a.x < b.x
            } else if a.number != b.number {
                a.number < b.number
            } else {
                compare_text(a.id.as_str(), b.id.as_str()) < 0
            }
        },
        SeatOrder::ColumnNumber => a.x < b.x || (a.x == b.x && a.number < b.number),
        SeatOrder::Number => a.number < b.number,
        SeatOrder::Depth => {
            if a.y != b.y {
                a.y < b.y
            } else if a.x != b.x {
                a.x < b.x
            } else {
                let c = compare_text(a.row.as_str(), b.row.as_str());
                if c != 0 {
                    c < 0
                } else {
                    a.number < b.number
                }
            }
        },
    }
}

/// Inserts `e` into `s` after every element whose key is not above `e`'s.
pub open spec fn insert_sorted(s: Seq<Seat>, e: Seat, o: SeatOrder) -> Seq<Seat>
    decreases s.len(),
{
    if s.len() == 0 {
        seq![e]
    } else if seat_before(e, s.last(), o) {
        insert_sorted(s.drop_last(), e, o).push(s.last())
    } else {
        s.push(e)
    }
}

/// The stable sort of `s` by the key of `o`: ordered by key, with seats of
/// equal key kept in the order given.
pub open spec fn sort_seats(s: Seq<Seat>, o: SeatOrder) -> Seq<Seat>
    decreases s.len(),
{
    if s.len() == 0 {
        Seq::empty()
    } else {
        insert_sorted(sort_seats(s.drop_last(), o), s.last(), o)
    }
}

proof fn lemma_insert_at(s: Seq<Seat>, e: Seat, o: SeatOrder, j: int)
    requires
        0 <= j <= s.len(),
        j == 0 || !seat_before(e, s[j - 1], o),
        forall|k: int| j <= k < s.len() ==> seat_before(e, #[trigger] s[k], o),
    ensures
        insert_sorted(s, e, o) == s.take(j) + seq![e] + s.skip(j),
    decreases s.len() - j,
{
    if s.len() == 0 {
        assert(s.take(j) + seq![e] + s.skip(j) =~= seq![e]);
    } else if j == s.len() {
        assert(!seat_before(e, s.last(), o));
        assert(s.take(j) + seq![e] + s.skip(j) =~= s.push(e));
    } else {
        assert(seat_before(e, s.last(), o));
        let d = s.drop_last();
        assert forall|k: int| j <= k < d.len() implies seat_before(e, #[trigger] d[k], o) by {
            assert(d[k] == s[k]);
        }
        if j > 0 {
            assert(d[j - 1] == s[j - 1]);
        }
        lemma_insert_at(d, e, o, j);
        assert(d.take(j) + seq![e] + d.skip(j) + seq![s.last()] =~= s.take(j) + seq![e] + s.skip(j));
    }
}

proof fn lemma_insert_len(s: Seq<Seat>, e: Seat, o: SeatOrder)
    ensures
        insert_sorted(s, e, o).len() == s.len() + 1,
    decreases s.len(),
{
    if s.len() > 0 && seat_before(e, s.last(), o) {
        lemma_insert_len(s.drop_last(), e, o);
    }
}

/// Sorting keeps the number of seats.
pub proof fn lemma_sort_len(s: Seq<Seat>, o: SeatOrder)
    ensures
        sort_seats(s, o).len() == s.len(),
    decreases s.len(),
{
    if s.len() > 0 {
        lemma_sort_len(s.drop_last(), o);
        lemma_insert_len(sort_seats(s.drop_last(), o), s.last(), o);
    }
}

proof fn lemma_insert_members(s: Seq<Seat>, e: Seat, o: SeatOrder)
    ensures
        forall|k: int|
            0 <= k < insert_sorted(s, e, o).len() ==> #[trigger] insert_sorted(s, e, o)[k] == e
                || s.contains(insert_sorted(s, e, o)[k]),
    decreases s.len(),
{
    lemma_insert_len(s, e, o);
    if s.len() > 0 {
        let d = s.drop_last();
        lemma_insert_members(d, e, o);
        lemma_insert_len(d, e, o);
        let r = insert_sorted(s, e, o);
        assert forall|k: int| 0 <= k < r.len() implies #[trigger] r[k] == e || s.contains(r[k]) by {
            if seat_before(e, s.last(), o) {
                let t = insert_sorted(d, e, o);
                if k == r.len() - 1 {
                    assert(s[s.len() - 1] == r[k]);
                } else if t[k] != e {
                    let m = choose|m: int| 0 <= m < d.len() && d[m] == t[k];
                    assert(s[m] == r[k]);
                }
            } else if k < s.len() {
                assert(s[k] == r[k]);
            }
        }
    }
}

/// Every seat of a sorted list comes from the list sorted.
pub proof fn lemma_sort_members(s: Seq<Seat>, o: SeatOrder)
    ensures
        forall|k: int| 0 <= k < sort_seats(s, o).len() ==> s.contains(#[trigger] sort_seats(s, o)[k]),
    decreases s.len(),
{
    if s.len() > 0 {
        let d = s.drop_last();
        lemma_sort_members(d, o);
        lemma_insert_members(sort_seats(d, o), s.last(), o);
        assert forall|k: int| 0 <= k < sort_seats(s, o).len() implies s.contains(
            #[trigger] sort_seats(s, o)[k],
        ) by {
            let x = sort_seats(s, o)[k];
            if x == s.last() {
                assert(s[s.len() - 1] == x);
            } else {
                let q = choose|q: int| 0 <= q < sort_seats(d, o).len() && sort_seats(d, o)[q] == x;
                let m = choose|m: int| 0 <= m < d.len() && d[m] == sort_seats(d, o)[q];
                assert(s[m] == x);
            }
        }
    }
}

fn insert_seat(out: &mut Vec<Seat>, e: Seat, o: SeatOrder)
    ensures
        final(out)@ == insert_sorted(old(out)@, e, o),
{
    let mut j: usize = out.len();
    while j > 0 && seat_before_exec(&e, &out[j - 1], o)
        invariant
            j <= out.len(),
            out@ == old(out)@,
            forall|k: int| j <= k < out.len() ==> seat_before(e, #[trigger] out@[k], o),
        decreases j,
    {
        j -= 1;
    }
    proof {
        lemma_insert_at(out@, e, o, j as int);
    }
    out.insert(j, e);
    proof {
        assert(out@ =~= old(out)@.take(j as int) + seq![e] + old(out)@.skip(j as int));
    }
}

/// The stable sort of a list of seats.
pub fn sorted_seats(v: &[Seat], o: SeatOrder) -> (r: Vec<Seat>)
    ensures
        r@ == sort_seats(v@, o),
{
    let mut out: Vec<Seat> = Vec::new();
    let mut i: usize = 0;
    while i < v.len()
        invariant
            i <= v.len(),
            out@ == sort_seats(v@.take(i as int), o),
        decreases v.len() - i,
    {
        proof {
            assert(v@.take(i + 1).drop_last() =~= v@.take(i as int));
            assert(v@.take(i + 1).last() == v@[i as int]);
        }
        insert_seat(&mut out, v[i].copied(), o);
        i += 1;
    }
    proof {
        assert(v@.take(v@.len() as int) =~= v@);
    }
    out
}

// ---------------------------------------------------------------------------
// Row selection.
// ---------------------------------------------------------------------------
/// The seats of row `row`, in the order given; only available ones
/// when `available_only`.
pub open spec fn row_seats(s: Seq<Seat>, row: Seq<char>, available_only: bool) -> Seq<Seat>
    decreases s.len(),
{
    if s.len() == 0 {
        Seq::empty()
    } else {
        let rest = row_seats(s.drop_last(), row, available_only);
        let last = s.last();
        if last.row@ == row && (!available_only || last.state == SeatState::Available) {
            rest.push(last)
        } else {
            rest
        }
    }
}

/// Every seat of `row_seats` belongs to the row and, when asked, is available.
pub proof fn lemma_row_seats_members(s: Seq<Seat>, row: Seq<char>, available_only: bool)
    ensures
        forall|k: int|
            0 <= k < row_seats(s, row, available_only).len() ==> {
                &&& (#[trigger] row_seats(s, row, available_only)[k]).row@ == row
                &&& (available_only ==> row_seats(s, row, available_only)[k].state
                    == SeatState::Available)
            },
        row_seats(s, row, available_only).len() <= s.len(),
    decreases s.len(),
{
    if s.len() > 0 {
        lemma_row_seats_members(s.drop_last(), row, available_only);
    }
}

/// A row with no seat of its name (available, when asked) has no seats.
pub proof fn lemma_row_seats_empty(s: Seq<Seat>, row: Seq<char>, available_only: bool)
    requires
        forall|k: int|
            0 <= k < s.len() ==> !((#[trigger] s[k]).row@ == row && (!available_only || s[k].state
                == SeatState::Available)),
    ensures
        row_seats(s, row, available_only).len() == 0,
    decreases s.len(),
{
    if s.len() > 0 {
        assert(s.last() == s[s.len() - 1]);
        lemma_row_seats_empty(s.drop_last(), row, available_only);
    }
}

/// The seats of one row.
pub fn select_row(v: &[Seat], row: &str, available_only: bool) -> (r: Vec<Seat>)
    ensures
        r@ == row_seats(v@, row@, available_only),
{
    let mut out: Vec<Seat> = Vec::new();
    let mut i: usize = 0;
    while i < v.len()
        invariant
            i <= v.len(),
            out@ == row_seats(v@.take(i as int), row@, available_only),
        decreases v.len() - i,
    {
        proof {
            assert(v@.take(i + 1).drop_last() =~= v@.take(i as int));
            assert(v@.take(i + 1).last() == v@[i as int]);
        }
        let keep = compare_text(v[i].row.as_str(), row) == 0 && (!available_only || v[i].state
            == SeatState::Available);
        if keep {
            out.push(v[i].copied());
        }
        i += 1;
    }
    proof {
        assert(v@.take(v@.len() as int) =~= v@);
    }
    out
}

} // verus!
