//! Listings: the distinct texts of a pool, strictly increasing under a
//! strict total order. Such a listing is unique, so it is a function of the
//! pool and the order.
use vstd::prelude::*;

use crate::domain::{has_text, texts};
use crate::text::{
    compare_text, eq_ignore_ascii_case, owned, equals_ignoring_ascii_case, lemma_text_lt_irreflexive,
    lemma_text_lt_total, lemma_text_lt_transitive, text_lt,
};

verus! {

/// `r` is strictly increasing under `lt`.
pub open spec fn ordered_by(r: Seq<Seq<char>>, lt: spec_fn(Seq<char>, Seq<char>) -> bool) -> bool {
    forall|a: int, b: int| 0 <= a < b < r.len() ==> lt(r[a], r[b])
}

/// `lt` is irreflexive, transitive and total on distinct texts.
pub open spec fn strict_total_order(lt: spec_fn(Seq<char>, Seq<char>) -> bool) -> bool {
    &&& forall|a: Seq<char>| !#[trigger] lt(a, a)
    &&& forall|a: Seq<char>, b: Seq<char>, c: Seq<char>|
        #[trigger] lt(a, b) && #[trigger] lt(b, c) ==> lt(a, c)
    &&& forall|a: Seq<char>, b: Seq<char>| a != b ==> #[trigger] lt(a, b) || lt(b, a)
}

/// `r` lists the distinct texts of `pool` in increasing order.
pub open spec fn lists(r: Seq<Seq<char>>, pool: Seq<Seq<char>>, lt: spec_fn(Seq<char>, Seq<char>) -> bool) -> bool {
    &&& ordered_by(r, lt)
    &&& forall|t: Seq<char>| r.contains(t) <==> pool.contains(t)
}

/// The listing of a pool under an order.
pub open spec fn listing(pool: Seq<Seq<char>>, lt: spec_fn(Seq<char>, Seq<char>) -> bool) -> Seq<Seq<char>> {
    choose|r: Seq<Seq<char>>| lists(r, pool, lt)
}

/// Code-point order of texts, as a value.
pub open spec fn text_order() -> spec_fn(Seq<char>, Seq<char>) -> bool {
    |a: Seq<char>, b: Seq<char>| text_lt(a, b)
}

/// The city written `lima` in any ASCII case.
pub open spec fn is_lima(c: Seq<char>) -> bool {
    eq_ignore_ascii_case(c, "lima"@)
}

/// Lima (in any ASCII case) before every other city; otherwise code-point
/// order.
pub open spec fn city_before(a: Seq<char>, b: Seq<char>) -> bool {
    if is_lima(a) && !is_lima(b) {
        true
    } else if !is_lima(a) && is_lima(b) {
        false
    } else {
        text_lt(a, b)
    }
}

/// The city order, as a value.
pub open spec fn city_order() -> spec_fn(Seq<char>, Seq<char>) -> bool {
    |a: Seq<char>, b: Seq<char>| city_before(a, b)
}

/// Code-point order is a strict total order.
pub proof fn lemma_text_order()
    ensures
        strict_total_order(text_order()),
{
    assert forall|a: Seq<char>| !#[trigger] text_order()(a, a) by {
        lemma_text_lt_irreflexive(a);
    }
    assert forall|a: Seq<char>, b: Seq<char>, c: Seq<char>|
        #[trigger] text_order()(a, b) && #[trigger] text_order()(b, c) implies text_order()(a, c) by {
        lemma_text_lt_transitive(a, b, c);
    }
    assert forall|a: Seq<char>, b: Seq<char>| a != b implies #[trigger] text_order()(a, b)
        || text_order()(b, a) by {
        lemma_text_lt_total(a, b);
    }
}

/// The city order is a strict total order.
pub proof fn lemma_city_order()
    ensures
        strict_total_order(city_order()),
{
    assert forall|a: Seq<char>| !#[trigger] city_order()(a, a) by {
        lemma_text_lt_irreflexive(a);
    }
    assert forall|a: Seq<char>, b: Seq<char>, c: Seq<char>|
        #[trigger] city_order()(a, b) && #[trigger] city_order()(b, c) implies city_order()(a, c) by {
        if text_lt(a, b) && text_lt(b, c) {
            lemma_text_lt_transitive(a, b, c);
        }
    }
    assert forall|a: Seq<char>, b: Seq<char>| a != b implies #[trigger] city_order()(a, b)
        || city_order()(b, a) by {
        lemma_text_lt_total(a, b);
    }
}

proof fn lemma_ordered_distinct(r: Seq<Seq<char>>, lt: spec_fn(Seq<char>, Seq<char>) -> bool, k: int)
    requires
        strict_total_order(lt),
        ordered_by(r, lt),
        0 < k < r.len(),
    ensures
        r[k] != r[0],
{
    assert(lt(r[0], r[k]));
    if r[k] == r[0] {
        assert(lt(r[0], r[0]));
    }
}

/// Two strictly increasing sequences with the same elements are equal.
pub proof fn lemma_ordered_unique(a: Seq<Seq<char>>, b: Seq<Seq<char>>, lt: spec_fn(Seq<char>, Seq<char>) -> bool)
    requires
        strict_total_order(lt),
        ordered_by(a, lt),
        ordered_by(b, lt),
        forall|t: Seq<char>| a.contains(t) <==> b.contains(t),
    ensures
        a == b,
    decreases a.len(),
{
    if a.len() == 0 {
        if b.len() > 0 {
            assert(b.contains(b[0]));
        }
        assert(a =~= b);
    } else {
        assert(a.contains(a[0]));
        assert(b.len() > 0);
        assert(b.contains(b[0]));
        let j = choose|j: int| 0 <= j < b.len() && b[j] == a[0];
        let i = choose|i: int| 0 <= i < a.len() && a[i] == b[0];
        if a[0] != b[0] {
            assert(j > 0 && i > 0);
            assert(lt(b[0], b[j]));
            assert(lt(a[0], a[i]));
            assert(lt(a[0], a[0]));
        }
        let a1 = a.drop_first();
        let b1 = b.drop_first();
        assert(ordered_by(a1, lt)) by {
            assert forall|x: int, y: int| 0 <= x < y < a1.len() implies lt(a1[x], a1[y]) by {
                assert(a1[x] == a[x + 1] && a1[y] == a[y + 1]);
            }
        }
        assert(ordered_by(b1, lt)) by {
            assert forall|x: int, y: int| 0 <= x < y < b1.len() implies lt(b1[x], b1[y]) by {
                assert(b1[x] == b[x + 1] && b1[y] == b[y + 1]);
            }
        }
        assert forall|t: Seq<char>| a1.contains(t) <==> b1.contains(t) by {
            if a1.contains(t) {
                let x = choose|x: int| 0 <= x < a1.len() && a1[x] == t;
                lemma_ordered_distinct(a, lt, x + 1);
                assert(a.contains(t));
                let y = choose|y: int| 0 <= y < b.len() && b[y] == t;
                assert(y != 0);
                assert(b1[y - 1] == t);
            }
            if b1.contains(t) {
                let x = choose|x: int| 0 <= x < b1.len() && b1[x] == t;
                lemma_ordered_distinct(b, lt, x + 1);
                assert(b.contains(t));
                let y = choose|y: int| 0 <= y < a.len() && a[y] == t;
                assert(y != 0);
                assert(a1[y - 1] == t);
            }
        }
        lemma_ordered_unique(a1, b1, lt);
        assert(a =~= seq![a[0]] + a1);
        assert(b =~= seq![b[0]] + b1);
    }
}

/// A sequence that lists a pool is its listing.
pub proof fn lemma_listing(r: Seq<Seq<char>>, pool: Seq<Seq<char>>, lt: spec_fn(Seq<char>, Seq<char>) -> bool)
    requires
        strict_total_order(lt),
        lists(r, pool, lt),
    ensures
        listing(pool, lt) == r,
{
    let l = listing(pool, lt);
    assert(lists(l, pool, lt));
    lemma_ordered_unique(l, r, lt);
}

/// Whether city `a` comes before city `b`.
pub fn is_city_before(a: &str, b: &str) -> (r: bool)
    ensures
        r == city_before(a@, b@),
{
    let lima = "lima";
    let la = equals_ignoring_ascii_case(a, lima);
    let lb = equals_ignoring_ascii_case(b, lima);
    if la && !lb {
        true
    } else if !la && lb {
        false
    } else {
        compare_text(a, b) < 0
    }
}

/// The texts of a sequence of string slices.
pub open spec fn strs(v: Seq<&str>) -> Seq<Seq<char>> {
    v.map_values(|s: &str| s@)
}

/// Adds a city to a list kept strictly increasing in city order.
pub fn add_city<'a>(out: &mut Vec<&'a str>, c: &'a str)
    requires
        ordered_by(strs(old(out)@), city_order()),
    ensures
        ordered_by(strs(final(out)@), city_order()),
        forall|t: Seq<char>|
            #[trigger] strs(final(out)@).contains(t) <==> (strs(old(out)@).contains(t) || t == c@),
{
    let ghost before = strs(out@);
    proof {
        lemma_city_order();
    }
    let mut j: usize = 0;
    loop
        invariant_except_break
            j <= out.len(),
            strs(out@) == before,
            ordered_by(before, city_order()),
            forall|m: int| 0 <= m < j ==> city_order()(#[trigger] before[m], c@),
        ensures
            j <= out.len(),
            strs(out@) == before,
            ordered_by(before, city_order()),
            forall|m: int| 0 <= m < j ==> city_order()(#[trigger] before[m], c@),
            j < out.len() ==> city_order()(c@, before[j as int]),
        decreases out.len() - j,
    {
        if j >= out.len() {
            break;
        }
        proof {
            assert(before[j as int] == out@[j as int]@);
        }
        if compare_text(out[j], c) == 0 {
            proof {
                assert forall|t: Seq<char>| before.contains(t) <==> (before.contains(t) || t == c@) by {
                    if t == c@ {
                        assert(before[j as int] == t);
                    }
                }
            }
            return;
        }
        if !is_city_before(out[j], c) {
            proof {
                assert(city_order()(c@, before[j as int]) || city_order()(before[j as int], c@));
            }
            break;
        }
        j += 1;
    }
    out.insert(j, c);
    proof {
        let after = strs(out@);
        assert(after =~= before.take(j as int).push(c@) + before.skip(j as int));
        assert forall|a: int, b: int| 0 <= a < b < after.len() implies city_order()(after[a], after[b]) by {
            if b < j {
                assert(after[a] == before[a] && after[b] == before[b]);
            } else if b == j {
                assert(after[a] == before[a]);
            } else if a == j {
                assert(after[b] == before[b - 1]);
                if b - 1 > j {
                    assert(city_order()(before[j as int], before[b - 1]));
                }
            } else if a < j {
                assert(after[a] == before[a] && after[b] == before[b - 1]);
            } else {
                assert(after[a] == before[a - 1] && after[b] == before[b - 1]);
            }
        }
        assert forall|t: Seq<char>| after.contains(t) <==> (before.contains(t) || t == c@) by {
            if after.contains(t) {
                let m = choose|m: int| 0 <= m < after.len() && after[m] == t;
                if m < j {
                    assert(before[m] == t);
                } else if m > j {
                    assert(before[m - 1] == t);
                }
            }
            if before.contains(t) {
                let m = choose|m: int| 0 <= m < before.len() && before[m] == t;
                if m < j {
                    assert(after[m] == t);
                } else {
                    assert(after[m + 1] == t);
                }
            }
            if t == c@ {
                assert(after[j as int] == t);
            }
        }
    }
}

/// Strictly sorted strings are strictly increasing texts.
pub proof fn lemma_texts_ordered(v: Seq<String>)
    requires
        forall|a: int, b: int| 0 <= a < b < v.len() ==> text_lt(v[a]@, v[b]@),
    ensures
        ordered_by(texts(v), text_order()),
        texts(v).len() == v.len(),
{
    assert forall|a: int, b: int| 0 <= a < b < texts(v).len() implies text_order()(
        texts(v)[a],
        texts(v)[b],
    ) by {
        assert(texts(v)[a] == v[a]@ && texts(v)[b] == v[b]@);
    }
}

/// Some string of `v` reads `t` exactly when `t` is among the texts of `v`.
pub proof fn lemma_texts_contains(v: Seq<String>)
    ensures
        forall|t: Seq<char>| #[trigger] has_text(v, t) <==> texts(v).contains(t),
{
    assert forall|t: Seq<char>| #[trigger] has_text(v, t) <==> texts(v).contains(t) by {
        if has_text(v, t) {
            let k = choose|k: int| 0 <= k < v.len() && (#[trigger] v[k])@ == t;
            assert(texts(v)[k] == t);
        }
        if texts(v).contains(t) {
            let k = choose|k: int| 0 <= k < texts(v).len() && texts(v)[k] == t;
            assert(v[k]@ == t);
        }
    }
}

/// `r` holds `old` with `t` added when absent and removed when present.
pub open spec fn toggled(old: Seq<Seq<char>>, r: Seq<Seq<char>>, t: Seq<char>) -> bool {
    &&& ordered_by(r, text_order())
    &&& forall|u: Seq<char>| #[trigger] r.contains(u) <==> (old.contains(u) != (u == t))
}

/// Removes `t` from a strictly increasing list of texts when it is there, and
/// inserts it in order otherwise.
pub fn toggle_text(v: &mut Vec<String>, t: &str)
    requires
        ordered_by(texts(old(v)@), text_order()),
    ensures
        toggled(texts(old(v)@), texts(final(v)@), t@),
{
    let ghost before = texts(v@);
    proof {
        lemma_text_order();
    }
    let mut j: usize = 0;
    loop
        invariant_except_break
            j <= v.len(),
            v@.len() == before.len(),
            texts(v@) == before,
            ordered_by(before, text_order()),
            forall|m: int| 0 <= m < j ==> text_order()(#[trigger] before[m], t@),
        ensures
            j <= v.len(),
            texts(v@) == before,
            v@.len() == before.len(),
            ordered_by(before, text_order()),
            forall|m: int| 0 <= m < j ==> text_order()(#[trigger] before[m], t@),
            j < v.len() ==> text_order()(t@, before[j as int]) || before[j as int] == t@,
        decreases v.len() - j,
    {
        if j >= v.len() {
            break;
        }
        proof {
            assert(before[j as int] == v@[j as int]@);
        }
        if compare_text(v[j].as_str(), t) >= 0 {
            break;
        }
        j += 1;
    }
    if j < v.len() && compare_text(v[j].as_str(), t) == 0 {
        let ghost old_v = v@;
        v.remove(j);
        proof {
            let after = texts(v@);
            assert(v@ =~= old_v.take(j as int) + old_v.skip(j + 1));
            assert(after.len() == before.len() - 1);
            assert forall|q: int| 0 <= q < after.len() implies #[trigger] after[q] == if q < j {
                before[q]
            } else {
                before[q + 1]
            } by {
                if q < j {
                    assert(v@[q] == old_v[q]);
                } else {
                    assert(v@[q] == old_v[q + 1]);
                }
            }
            assert forall|a: int, b: int| 0 <= a < b < after.len() implies text_order()(after[a], after[b]) by {
                let aa = if a < j { a } else { a + 1 };
                let bb = if b < j { b } else { b + 1 };
                assert(after[a] == before[aa] && after[b] == before[bb]);
            }
            assert forall|u: Seq<char>| #[trigger] after.contains(u) <==> (before.contains(u) != (u == t@)) by {
                if after.contains(u) {
                    let m = choose|m: int| 0 <= m < after.len() && after[m] == u;
                    let mm = if m < j { m } else { m + 1 };
                    assert(before[mm] == u);
                    lemma_ordered_distinct_at(before, text_order(), j as int, mm);
                }
                if before.contains(u) && u != t@ {
                    let m = choose|m: int| 0 <= m < before.len() && before[m] == u;
                    assert(m != j);
                    if m < j {
                        assert(after[m] == u);
                    } else {
                        assert(after[m - 1] == u);
                    }
                }
            }
        }
    } else {
        let ghost old_v = v@;
        v.insert(j, owned(t));
        proof {
            let after = texts(v@);
            assert(v@ =~= old_v.take(j as int).push(v@[j as int]) + old_v.skip(j as int));
            assert(after[j as int] == t@);
            if j < before.len() {
                assert(before[j as int] != t@);
            }
            assert forall|q: int| 0 <= q < after.len() && q != j implies #[trigger] after[q] == if q < j {
                before[q]
            } else {
                before[q - 1]
            } by {
                if q < j {
                    assert(v@[q] == old_v[q]);
                } else {
                    assert(v@[q] == old_v[q - 1]);
                }
            }
            assert forall|a: int, b: int| 0 <= a < b < after.len() implies text_order()(after[a], after[b]) by {
                if b < j {
                    assert(after[a] == before[a] && after[b] == before[b]);
                } else if b == j {
                    assert(after[a] == before[a]);
                } else if a == j {
                    assert(after[b] == before[b - 1]);
                    if b - 1 > j {
                        assert(text_order()(before[j as int], before[b - 1]));
                    }
                } else if a < j {
                    assert(after[a] == before[a] && after[b] == before[b - 1]);
                } else {
                    assert(after[a] == before[a - 1] && after[b] == before[b - 1]);
                }
            }
            assert forall|u: Seq<char>| #[trigger] after.contains(u) <==> (before.contains(u) != (u == t@)) by {
                if before.contains(u) {
                    let m = choose|m: int| 0 <= m < before.len() && before[m] == u;
                    if m < j {
                        assert(after[m] == u);
                        assert(text_order()(u, t@));
                    } else {
                        assert(after[m + 1] == u);
                        if m > j {
                            assert(text_order()(before[j as int], before[m]));
                        }
                        assert(u != t@);
                    }
                }
                if after.contains(u) {
                    let m = choose|m: int| 0 <= m < after.len() && after[m] == u;
                    if m < j {
                        assert(before[m] == u);
                    } else if m > j {
                        assert(before[m - 1] == u);
                    }
                }
                if u == t@ {
                    assert(after[j as int] == u);
                }
            }
        }
    }
}

proof fn lemma_ordered_distinct_at(r: Seq<Seq<char>>, lt: spec_fn(Seq<char>, Seq<char>) -> bool, a: int, b: int)
    requires
        strict_total_order(lt),
        ordered_by(r, lt),
        0 <= a < r.len(),
        0 <= b < r.len(),
        a != b,
    ensures
        r[a] != r[b],
{
    if a < b {
        assert(lt(r[a], r[b]));
    } else {
        assert(lt(r[b], r[a]));
    }
    if r[a] == r[b] {
        assert(lt(r[a], r[a]));
    }
}

} // verus!
