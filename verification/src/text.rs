//! Character-level text utilities: ordering, ASCII case folding, trimming,
//! searching, and decimal conversion, each with an exact specification over
//! the `Seq<char>` view of a string.
use vstd::prelude::*;

verus! {

// ---------------------------------------------------------------------------
// Std functions that vstd leaves unspecified.
// ---------------------------------------------------------------------------
/// Whether `c` has the Unicode `White_Space` property, as `char::is_whitespace`
/// decides it: tab through carriage return, space, next line, no-break space,
/// ogham space mark, the spaces from en quad to hair space, the line and
/// paragraph separators, narrow no-break space, medium mathematical space and
/// ideographic space.
pub open spec fn unicode_whitespace(c: char) -> bool {
    let v = c as u32;
    ||| 0x9 <= v <= 0xD
    ||| v == 0x20
    ||| v == 0x85
    ||| v == 0xA0
    ||| v == 0x1680
    ||| 0x2000 <= v <= 0x200A
    ||| v == 0x2028
    ||| v == 0x2029
    ||| v == 0x202F
    ||| v == 0x205F
    ||| v == 0x3000
}

/// Whether `c` is alphabetic or numeric in Unicode, as `char::is_alphanumeric`
/// decides it.
pub uninterp spec fn unicode_alphanumeric(c: char) -> bool;

/// The characters that `char::to_lowercase` yields for `c`.
pub uninterp spec fn unicode_lowercase(c: char) -> Seq<char>;

/// The string that `str::to_lowercase` yields for a text.
pub uninterp spec fn unicode_lowercase_text(t: Seq<char>) -> Seq<char>;

/// The string that `str::to_uppercase` yields for a text.
pub uninterp spec fn unicode_uppercase_text(t: Seq<char>) -> Seq<char>;

/// Trusted: `String::push` appends exactly one character.
#[verifier::external_body]
pub(crate) fn push_char(s: &mut String, c: char)
    ensures
        final(s)@ == old(s)@.push(c),
{
    s.push(c);
}

/// Whether `c` has the `White_Space` property, as `char::is_whitespace`
/// decides it.
pub fn is_whitespace(c: char) -> (r: bool)
    ensures
        r == unicode_whitespace(c),
{
    let v = c as u32;
    (0x9 <= v && v <= 0xD) || v == 0x20 || v == 0x85 || v == 0xA0 || v == 0x1680 || (0x2000 <= v && v
        <= 0x200A) || v == 0x2028 || v == 0x2029 || v == 0x202F || v == 0x205F || v == 0x3000
}

/// Trusted: `char::is_alphanumeric`; its result is named `unicode_alphanumeric`.
#[verifier::external_body]
pub(crate) fn is_alphanumeric(c: char) -> (r: bool)
    ensures
        r == unicode_alphanumeric(c),
{
    c.is_alphanumeric()
}

/// Trusted: `char::to_lowercase`, collected; its result is named
/// `unicode_lowercase`.
#[verifier::external_body]
pub(crate) fn char_lowercase(c: char) -> (r: Vec<char>)
    ensures
        r@ == unicode_lowercase(c),
{
    c.to_lowercase().collect()
}

/// Trusted: `str::to_lowercase`; its result is named `unicode_lowercase_text`.
#[verifier::external_body]
pub(crate) fn text_lowercase(s: &str) -> (r: String)
    ensures
        r@ == unicode_lowercase_text(s@),
{
    s.to_lowercase()
}

/// Trusted: `str::to_uppercase`; its result is named `unicode_uppercase_text`.
#[verifier::external_body]
pub(crate) fn text_uppercase(s: &str) -> (r: String)
    ensures
        r@ == unicode_uppercase_text(s@),
{
    s.to_uppercase()
}

// ---------------------------------------------------------------------------
// Conversions between strings and character vectors.
// ---------------------------------------------------------------------------
/// The characters of a string, in order.
pub fn chars_of(s: &str) -> (r: Vec<char>)
    ensures
        r@ == s@,
{
    let mut out: Vec<char> = Vec::new();
    for c in it: s.chars()
        invariant
            out@ == it.seq().take(it.index() as int),
    {
        out.push(c);
    }
    out
}

/// A string holding exactly the given characters.
pub fn string_of(cs: &[char]) -> (r: String)
    ensures
        r@ == cs@,
{
    let mut out = String::new();
    let mut i: usize = 0;
    while i < cs.len()
        invariant
            i <= cs.len(),
            out@ == cs@.take(i as int),
        decreases cs.len() - i,
    {
        push_char(&mut out, cs[i]);
        proof {
            assert(cs@.take(i + 1) == cs@.take(i as int).push(cs@[i as int]));
        }
        i += 1;
    }
    proof {
        assert(cs@.take(cs@.len() as int) == cs@);
    }
    out
}

/// A fresh copy of a string slice.
pub fn owned(s: &str) -> (r: String)
    ensures
        r@ == s@,
{
    s.to_owned()
}

/// Concatenation of two texts into a fresh string.
pub fn concat(a: &str, b: &str) -> (r: String)
    ensures
        r@ == a@ + b@,
{
    let mut out = owned(a);
    out.append(b);
    out
}

// ---------------------------------------------------------------------------
// Lexicographic order by code point (the order of `str` in Rust).
// ---------------------------------------------------------------------------
/// `a` sorts strictly before `b`, comparing code points from the left; a
/// proper prefix sorts first.
pub open spec fn text_lt(a: Seq<char>, b: Seq<char>) -> bool
    decreases a.len(),
{
    if a.len() == 0 {
        b.len() > 0
    } else if b.len() == 0 {
        false
    } else if a[0] != b[0] {
        a[0] < b[0]
    } else {
        text_lt(a.drop_first(), b.drop_first())
    }
}

/// The order on texts is irreflexive.
pub proof fn lemma_text_lt_irreflexive(a: Seq<char>)
    ensures
        !text_lt(a, a),
    decreases a.len(),
{
    if a.len() > 0 {
        lemma_text_lt_irreflexive(a.drop_first());
    }
}

/// The order on texts is transitive.
pub proof fn lemma_text_lt_transitive(a: Seq<char>, b: Seq<char>, c: Seq<char>)
    requires
        text_lt(a, b),
        text_lt(b, c),
    ensures
        text_lt(a, c),
    decreases a.len(),
{
    if a.len() > 0 && b.len() > 0 && c.len() > 0 {
        if a[0] == b[0] && b[0] == c[0] {
            lemma_text_lt_transitive(a.drop_first(), b.drop_first(), c.drop_first());
        }
    }
}

/// Any two different texts are ordered one way or the other.
pub proof fn lemma_text_lt_total(a: Seq<char>, b: Seq<char>)
    ensures
        a == b || text_lt(a, b) || text_lt(b, a),
    decreases a.len(),
{
    if a.len() > 0 && b.len() > 0 {
        if a[0] == b[0] {
            lemma_text_lt_total(a.drop_first(), b.drop_first());
            if a.drop_first() == b.drop_first() {
                assert(a =~= seq![a[0]] + a.drop_first());
                assert(b =~= seq![b[0]] + b.drop_first());
            } else if text_lt(a.drop_first(), b.drop_first()) {
                assert(text_lt(a, b));
            } else {
                assert(text_lt(b, a));
            }
        } else {
            if a[0] < b[0] {
                assert(text_lt(a, b));
            } else {
                assert(text_lt(b, a));
            }
        }
    } else if a.len() == 0 && b.len() == 0 {
        assert(a =~= b);
    } else if a.len() == 0 {
        assert(text_lt(a, b));
    } else {
        assert(text_lt(b, a));
    }
}

/// The order on texts is asymmetric.
pub proof fn lemma_text_lt_asymmetric(a: Seq<char>, b: Seq<char>)
    requires
        text_lt(a, b),
    ensures
        !text_lt(b, a),
{
    if text_lt(b, a) {
        lemma_text_lt_transitive(a, b, a);
        lemma_text_lt_irreflexive(a);
    }
}

proof fn lemma_text_lt_skip(a: Seq<char>, b: Seq<char>, i: int)
    requires
        0 <= i <= a.len(),
        i <= b.len(),
        a.take(i) == b.take(i),
    ensures
        text_lt(a, b) == text_lt(a.skip(i), b.skip(i)),
    decreases i,
{
    if i > 0 {
        assert(a[0] == a.take(i)[0]);
        assert(b[0] == b.take(i)[0]);
        assert(a.drop_first().take(i - 1) =~= a.take(i).drop_first());
        assert(b.drop_first().take(i - 1) =~= b.take(i).drop_first());
        lemma_text_lt_skip(a.drop_first(), b.drop_first(), i - 1);
        assert(a.drop_first().skip(i - 1) =~= a.skip(i));
        assert(b.drop_first().skip(i - 1) =~= b.skip(i));
    } else {
        assert(a.skip(0) =~= a);
        assert(b.skip(0) =~= b);
    }
}

/// Three-way comparison of two texts by code point.
pub fn compare_text(a: &str, b: &str) -> (r: i8)
    ensures
        (r < 0) == text_lt(a@, b@),
        (r == 0) == (a@ == b@),
        (r > 0) == text_lt(b@, a@),
        -1 <= r <= 1,
{
    let av = chars_of(a);
    let bv = chars_of(b);
    let mut i: usize = 0;
    while i < av.len() && i < bv.len()
        invariant
            av@ == a@,
            bv@ == b@,
            i <= av.len(),
            i <= bv.len(),
            av@.take(i as int) == bv@.take(i as int),
        decreases av.len() - i,
    {
        if av[i] != bv[i] {
            proof {
                lemma_text_lt_skip(a@, b@, i as int);
                lemma_text_lt_skip(b@, a@, i as int);
                assert(a@.skip(i as int)[0] == a@[i as int]);
                assert(b@.skip(i as int)[0] == b@[i as int]);
                if a@ == b@ {
                    assert(a@[i as int] == b@[i as int]);
                }
            }
            if av[i] < bv[i] {
                return -1;
            } else {
                proof {
                    assert(text_lt(b@.skip(i as int), a@.skip(i as int)));
                }
                return 1;
            }
        }
        proof {
            assert(av@.take(i + 1) =~= av@.take(i as int).push(av@[i as int]));
            assert(bv@.take(i + 1) =~= bv@.take(i as int).push(bv@[i as int]));
        }
        i += 1;
    }
    proof {
        lemma_text_lt_skip(a@, b@, i as int);
        lemma_text_lt_skip(b@, a@, i as int);
        if av.len() == bv.len() {
            assert(a@ =~= a@.take(i as int));
            assert(b@ =~= b@.take(i as int));
        } else if a@ == b@ {
            assert(a@.len() == b@.len());
        }
    }
    if av.len() < bv.len() {
        -1
    } else if av.len() == bv.len() {
        0
    } else {
        1
    }
}

// ---------------------------------------------------------------------------
// ASCII case folding.
// ---------------------------------------------------------------------------
/// The code point of `c` after mapping ASCII capitals to lower case.
pub open spec fn ascii_fold(c: char) -> u32 {
    let v = c as u32;
    if 65 <= v && v <= 90 {
        (v + 32) as u32
    } else {
        v
    }
}

/// Equality up to ASCII case, as `str::eq_ignore_ascii_case` decides it.
pub open spec fn eq_ignore_ascii_case(a: Seq<char>, b: Seq<char>) -> bool {
    a.len() == b.len() && forall|i: int| 0 <= i < a.len() ==> ascii_fold(a[i]) == ascii_fold(b[i])
}

/// ASCII upper case of one character, as `char::to_ascii_uppercase`.
pub open spec fn ascii_upper(c: char) -> char {
    if 'a' <= c && c <= 'z' {
        ((c as u32) - 32) as char
    } else {
        c
    }
}

/// ASCII upper case of a text, as `str::to_ascii_uppercase`.
pub open spec fn ascii_upper_text(t: Seq<char>) -> Seq<char> {
    t.map_values(|c: char| ascii_upper(c))
}

fn fold_char(c: char) -> (r: u32)
    ensures
        r == ascii_fold(c),
{
    let v = c as u32;
    if 65 <= v && v <= 90 {
        v + 32
    } else {
        v
    }
}

/// Whether two texts are equal up to ASCII case.
pub fn equals_ignoring_ascii_case(a: &str, b: &str) -> (r: bool)
    ensures
        r == eq_ignore_ascii_case(a@, b@),
{
    let av = chars_of(a);
    let bv = chars_of(b);
    if av.len() != bv.len() {
        return false;
    }
    let mut i: usize = 0;
    while i < av.len()
        invariant
            av@ == a@,
            bv@ == b@,
            av.len() == bv.len(),
            i <= av.len(),
            forall|j: int| 0 <= j < i ==> ascii_fold(av@[j]) == ascii_fold(bv@[j]),
        decreases av.len() - i,
    {
        if fold_char(av[i]) != fold_char(bv[i]) {
            return false;
        }
        i += 1;
    }
    true
}

fn upper_char(c: char) -> (r: char)
    ensures
        r == ascii_upper(c),
{
    if 'a' <= c && c <= 'z' {
        let v: u8 = (c as u32 - 32) as u8;
        v as char
    } else {
        c
    }
}

/// The ASCII upper case of a text.
pub fn to_ascii_upper(s: &str) -> (r: String)
    ensures
        r@ == ascii_upper_text(s@),
{
    let cs = chars_of(s);
    let mut out: Vec<char> = Vec::new();
    let mut i: usize = 0;
    while i < cs.len()
        invariant
            cs@ == s@,
            i <= cs.len(),
            out@ == ascii_upper_text(cs@.take(i as int)),
        decreases cs.len() - i,
    {
        out.push(upper_char(cs[i]));
        proof {
            assert(ascii_upper_text(cs@.take(i + 1)) =~= ascii_upper_text(cs@.take(i as int)).push(
                ascii_upper(cs@[i as int]),
            ));
        }
        i += 1;
    }
    proof {
        assert(cs@.take(cs@.len() as int) =~= cs@);
    }
    string_of(&out)
}

// ---------------------------------------------------------------------------
// Trimming, searching, splitting.
// ---------------------------------------------------------------------------
/// Number of leading characters with the `White_Space` property.
pub open spec fn leading_space(t: Seq<char>) -> nat
    decreases t.len(),
{
    if t.len() > 0 && unicode_whitespace(t[0]) {
        1 + leading_space(t.drop_first())
    } else {
        0
    }
}

/// Number of trailing characters with the `White_Space` property.
pub open spec fn trailing_space(t: Seq<char>) -> nat
    decreases t.len(),
{
    if t.len() > 0 && unicode_whitespace(t.last()) {
        1 + trailing_space(t.drop_last())
    } else {
        0
    }
}

proof fn lemma_leading_space_bound(t: Seq<char>)
    ensures
        leading_space(t) <= t.len(),
        leading_space(t) < t.len() ==> !unicode_whitespace(t[leading_space(t) as int]),
        forall|k: int| 0 <= k < leading_space(t) ==> unicode_whitespace(#[trigger] t[k]),
    decreases t.len(),
{
    if t.len() > 0 && unicode_whitespace(t[0]) {
        lemma_leading_space_bound(t.drop_first());
        assert forall|k: int| 0 <= k < leading_space(t) implies unicode_whitespace(#[trigger] t[k]) by {
            if k > 0 {
                assert(t[k] == t.drop_first()[k - 1]);
            }
        }
    }
}

proof fn lemma_leading_space_all(t: Seq<char>, n: int)
    requires
        0 <= n <= t.len(),
        forall|k: int| 0 <= k < n ==> unicode_whitespace(#[trigger] t[k]),
        n < t.len() ==> !unicode_whitespace(t[n]),
    ensures
        leading_space(t) == n,
    decreases n,
{
    if n > 0 {
        assert(unicode_whitespace(t[0]));
        assert forall|k: int| 0 <= k < n - 1 implies unicode_whitespace(#[trigger] t.drop_first()[k]) by {
            assert(t.drop_first()[k] == t[k + 1]);
        }
        if n - 1 < t.drop_first().len() {
            assert(t.drop_first()[n - 1] == t[n]);
        }
        lemma_leading_space_all(t.drop_first(), n - 1);
    }
}

proof fn lemma_trailing_space_all(t: Seq<char>, n: int)
    requires
        0 <= n <= t.len(),
        forall|k: int| t.len() - n <= k < t.len() ==> unicode_whitespace(#[trigger] t[k]),
        n < t.len() ==> !unicode_whitespace(t[t.len() - n - 1]),
    ensures
        trailing_space(t) == n,
    decreases n,
{
    if n > 0 {
        assert(unicode_whitespace(t.last()));
        let d = t.drop_last();
        assert forall|k: int| d.len() - (n - 1) <= k < d.len() implies unicode_whitespace(#[trigger] d[k]) by {
            assert(d[k] == t[k]);
        }
        if n - 1 < d.len() {
            assert(d[d.len() - (n - 1) - 1] == t[t.len() - n - 1]);
        }
        lemma_trailing_space_all(d, n - 1);
    }
}

proof fn lemma_trailing_space_bound(t: Seq<char>)
    ensures
        trailing_space(t) <= t.len(),
        trailing_space(t) < t.len() ==> !unicode_whitespace(t[t.len() - trailing_space(t) - 1]),
        forall|k: int| t.len() - trailing_space(t) <= k < t.len() ==> unicode_whitespace(#[trigger] t[k]),
    decreases t.len(),
{
    if t.len() > 0 && unicode_whitespace(t.last()) {
        let d = t.drop_last();
        lemma_trailing_space_bound(d);
        assert forall|k: int| t.len() - trailing_space(t) <= k < t.len() implies unicode_whitespace(
            #[trigger] t[k],
        ) by {
            if k < t.len() - 1 {
                assert(t[k] == d[k]);
            }
        }
        if trailing_space(t) < t.len() {
            assert(t[t.len() - trailing_space(t) - 1] == d[d.len() - trailing_space(d) - 1]);
        }
    }
}

/// A text that starts and ends with a character other than white space is
/// its own trim.
pub proof fn lemma_trim_of_clean(t: Seq<char>)
    requires
        t.len() > 0,
        !unicode_whitespace(t[0]),
        !unicode_whitespace(t.last()),
    ensures
        trim_text(t) == t,
{
    lemma_leading_space_all(t, 0);
    lemma_trailing_space_all(t, 0);
    assert(t.subrange(0, t.len() as int) =~= t);
}

/// Trimming twice trims no more than trimming once.
pub proof fn lemma_trim_idempotent(t: Seq<char>)
    ensures
        trim_text(trim_text(t)) == trim_text(t),
{
    let u = trim_text(t);
    lemma_leading_space_bound(t);
    lemma_trailing_space_bound(t);
    let f = leading_space(t) as int;
    if f < t.len() {
        let e = t.len() - trailing_space(t);
        if e <= f {
            assert(unicode_whitespace(t[f]));
        }
        assert(u.len() > 0);
        assert(u[0] == t[f]);
        assert(u.last() == t[e - 1]);
        lemma_leading_space_all(u, 0);
        lemma_trailing_space_all(u, 0);
        assert(u.subrange(0, u.len() as int) =~= u);
    }
}

/// A text without its leading and trailing white space, as `str::trim`.
pub open spec fn trim_text(t: Seq<char>) -> Seq<char> {
    let front = leading_space(t) as int;
    if front == t.len() {
        Seq::empty()
    } else {
        t.subrange(front, t.len() - trailing_space(t) as int)
    }
}

/// The text without leading and trailing white space.
pub fn trim(s: &str) -> (r: String)
    ensures
        r@ == trim_text(s@),
{
    let cs = chars_of(s);
    let mut start: usize = 0;
    while start < cs.len() && is_whitespace(cs[start])
        invariant
            cs@ == s@,
            start <= cs.len(),
            forall|k: int| 0 <= k < start ==> unicode_whitespace(#[trigger] cs@[k]),
        decreases cs.len() - start,
    {
        start += 1;
    }
    proof {
        lemma_leading_space_all(s@, start as int);
    }
    if start == cs.len() {
        return String::new();
    }
    let mut end: usize = cs.len();
    while end > start && is_whitespace(cs[end - 1])
        invariant
            cs@ == s@,
            start < cs.len(),
            !unicode_whitespace(cs@[start as int]),
            start <= end <= cs.len(),
            forall|k: int| end <= k < cs.len() ==> unicode_whitespace(#[trigger] cs@[k]),
        decreases end,
    {
        end -= 1;
    }
    proof {
        lemma_trailing_space_all(s@, (cs.len() - end) as int);
    }
    let mut out: Vec<char> = Vec::new();
    let mut i: usize = start;
    while i < end
        invariant
            cs@ == s@,
            start <= i <= end <= cs.len(),
            out@ == cs@.subrange(start as int, i as int),
        decreases end - i,
    {
        out.push(cs[i]);
        proof {
            assert(cs@.subrange(start as int, i + 1) =~= cs@.subrange(start as int, i as int).push(
                cs@[i as int],
            ));
        }
        i += 1;
    }
    string_of(&out)
}

/// `needle` occurs in `hay` as a contiguous piece.
pub open spec fn contains_text(hay: Seq<char>, needle: Seq<char>) -> bool {
    exists|i: int| 0 <= i && i + needle.len() <= hay.len() && #[trigger] hay.subrange(i, i + needle.len()) == needle
}

fn matches_at(hay: &Vec<char>, needle: &Vec<char>, i: usize) -> (r: bool)
    requires
        i + needle.len() <= hay.len(),
    ensures
        r == (hay@.subrange(i as int, i + needle.len()) == needle@),
{
    let mut k: usize = 0;
    while k < needle.len()
        invariant
            i + needle.len() <= hay.len(),
            k <= needle.len(),
            forall|j: int| 0 <= j < k ==> hay@[i + j] == needle@[j],
        decreases needle.len() - k,
    {
        if hay[i + k] != needle[k] {
            proof {
                assert(hay@.subrange(i as int, i + needle.len())[k as int] == hay@[i + k]);
            }
            return false;
        }
        k += 1;
    }
    proof {
        assert(hay@.subrange(i as int, i + needle.len()) =~= needle@);
    }
    true
}

/// Whether `needle` occurs in `hay`, as `str::contains`.
pub fn contains(hay: &str, needle: &str) -> (r: bool)
    ensures
        r == contains_text(hay@, needle@),
{
    let h = chars_of(hay);
    let n = chars_of(needle);
    if n.len() > h.len() {
        return false;
    }
    let last = h.len() - n.len();
    let mut i: usize = 0;
    loop
        invariant
            h@ == hay@,
            n@ == needle@,
            last == h.len() - n.len(),
            i <= last,
            forall|j: int| 0 <= j < i ==> #[trigger] h@.subrange(j, j + n@.len()) != n@,
        decreases last - i,
    {
        if matches_at(&h, &n, i) {
            return true;
        }
        if i == last {
            return false;
        }
        i += 1;
    }
}

/// Index of the last occurrence of `c` in `t`, if any.
pub open spec fn last_index_of(t: Seq<char>, c: char) -> Option<int>
    decreases t.len(),
{
    if t.len() == 0 {
        None
    } else if t.last() == c {
        Some(t.len() - 1)
    } else {
        last_index_of(t.drop_last(), c)
    }
}

proof fn lemma_last_index_of(t: Seq<char>, c: char)
    ensures
        last_index_of(t, c) matches Some(i) ==> 0 <= i < t.len() && t[i] == c && forall|k: int|
            i < k < t.len() ==> #[trigger] t[k] != c,
        last_index_of(t, c) is None ==> forall|k: int| 0 <= k < t.len() ==> #[trigger] t[k] != c,
    decreases t.len(),
{
    if t.len() > 0 && t.last() != c {
        lemma_last_index_of(t.drop_last(), c);
        assert forall|k: int| 0 <= k < t.len() - 1 implies t.drop_last()[k] == #[trigger] t[k] by {}
    }
}

/// The part after the last `sep`, as `str::rsplit_once(sep)` gives it.
pub open spec fn after_last(t: Seq<char>, sep: char) -> Option<Seq<char>> {
    match last_index_of(t, sep) {
        Some(i) => Some(t.subrange(i + 1, t.len() as int)),
        None => None,
    }
}

/// The text after the last occurrence of `sep`, if `sep` occurs.
pub fn split_after_last(s: &str, sep: char) -> (r: Option<String>)
    ensures
        r matches Some(v) ==> after_last(s@, sep) == Some(v@),
        r is None ==> after_last(s@, sep) is None,
{
    let cs = chars_of(s);
    let mut i: usize = cs.len();
    proof {
        assert(cs@.take(cs@.len() as int) =~= cs@);
    }
    while i > 0 && cs[i - 1] != sep
        invariant
            cs@ == s@,
            i <= cs.len(),
            last_index_of(cs@, sep) == last_index_of(cs@.take(i as int), sep),
        decreases i,
    {
        proof {
            assert(cs@.take(i as int).drop_last() =~= cs@.take(i - 1));
        }
        i -= 1;
    }
    if i == 0 {
        proof {
            assert(cs@.take(0).len() == 0);
        }
        return None;
    }
    proof {
        assert(cs@.take(i as int).last() == sep);
    }
    let mut out: Vec<char> = Vec::new();
    let mut k: usize = i;
    while k < cs.len()
        invariant
            cs@ == s@,
            1 <= i <= k <= cs.len(),
            out@ == cs@.subrange(i as int, k as int),
        decreases cs.len() - k,
    {
        out.push(cs[k]);
        proof {
            assert(cs@.subrange(i as int, k + 1) =~= cs@.subrange(i as int, k as int).push(cs@[k as int]));
        }
        k += 1;
    }
    Some(string_of(&out))
}

// ---------------------------------------------------------------------------
// Decimal numbers.
// ---------------------------------------------------------------------------
pub open spec fn is_digit(c: char) -> bool {
    '0' <= c && c <= '9'
}

pub open spec fn digit_value(c: char) -> nat {
    ((c as u32) - ('0' as u32)) as nat
}

pub open spec fn digit_char(d: nat) -> char {
    (('0' as u32) + d) as char
}

/// The value of a run of decimal digits.
pub open spec fn digits_value(t: Seq<char>) -> nat
    decreases t.len(),
{
    if t.len() == 0 {
        0
    } else {
        digits_value(t.drop_last()) * 10 + digit_value(t.last())
    }
}

/// The digits that follow an optional leading `+`.
pub open spec fn unsigned_body(t: Seq<char>) -> Seq<char> {
    if t.len() > 0 && t[0] == '+' {
        t.drop_first()
    } else {
        t
    }
}

/// The value that `str::parse` reads from `t` as an unsigned integer of at
/// most `max`: an optional `+`, then one or more ASCII digits.
pub open spec fn parse_unsigned_spec(t: Seq<char>, max: nat) -> Option<nat> {
    let body = unsigned_body(t);
    if body.len() > 0 && (forall|i: int| 0 <= i < body.len() ==> is_digit(#[trigger] body[i]))
        && digits_value(body) <= max {
        Some(digits_value(body))
    } else {
        None
    }
}

proof fn lemma_digits_value_grows(t: Seq<char>, k: int)
    requires
        0 <= k <= t.len(),
        forall|i: int| 0 <= i < t.len() ==> is_digit(#[trigger] t[i]),
    ensures
        digits_value(t.take(k)) <= digits_value(t),
    decreases t.len() - k,
{
    if k < t.len() {
        assert(t.drop_last().take(k) =~= t.take(k)) by {
            if k == t.len() {
            }
        }
        if k == t.len() - 1 {
            assert(t.take(k) =~= t.drop_last());
        } else {
            lemma_digits_value_grows(t.drop_last(), k);
        }
    } else {
        assert(t.take(k) =~= t);
    }
}

/// Reads an unsigned decimal number of at most `max`.
pub fn parse_unsigned(s: &str, max: u64) -> (r: Option<u64>)
    ensures
        r matches Some(v) ==> parse_unsigned_spec(s@, max as nat) == Some(v as nat),
        r is None ==> parse_unsigned_spec(s@, max as nat) is None,
{
    let cs = chars_of(s);
    let mut i: usize = 0;
    if cs.len() > 0 && cs[0] == '+' {
        i = 1;
    }
    let start = i;
    let ghost body = unsigned_body(s@);
    proof {
        assert(body =~= cs@.skip(start as int));
    }
    if start == cs.len() {
        proof {
            assert(body.len() == 0);
        }
        return None;
    }
    let mut acc: u64 = 0;
    while i < cs.len()
        invariant
            cs@ == s@,
            body == cs@.skip(start as int),
            body == unsigned_body(s@),
            start <= i <= cs.len(),
            start < cs.len(),
            acc <= max,
            acc == digits_value(body.take(i - start)),
            forall|k: int| 0 <= k < i - start ==> is_digit(#[trigger] body[k]),
        decreases cs.len() - i,
    {
        let c = cs[i];
        if !('0' <= c && c <= '9') {
            proof {
                assert(body[i - start] == c);
                assert(!is_digit(body[i - start]));
            }
            return None;
        }
        let d: u64 = (c as u32 - '0' as u32) as u64;
        proof {
            assert(body.take(i - start + 1).drop_last() =~= body.take(i - start));
            assert(body.take(i - start + 1).last() == c);
            assert(body[i - start] == c);
            assert(digits_value(body.take(i - start + 1)) == acc * 10 + d);
        }
        if d > max || acc > (max - d) / 10 {
            proof {
                if d <= max {
                    assert(acc * 10 + d > max) by (nonlinear_arith)
                        requires acc > (max - d) / 10, d <= max;
                }
                if forall|k: int| 0 <= k < body.len() ==> is_digit(#[trigger] body[k]) {
                    lemma_digits_value_grows(body, i - start + 1);
                    assert(digits_value(body) > max);
                }
            }
            return None;
        }
        proof {
            assert(acc * 10 + d <= max) by (nonlinear_arith)
                requires acc <= (max - d) / 10, d <= max;
        }
        acc = acc * 10 + d;
        i += 1;
    }
    proof {
        assert(body.take(i - start) =~= body);
    }
    Some(acc)
}

/// The decimal digits of `v`, most significant first, without leading zeros.
pub open spec fn decimal_digits(v: nat) -> Seq<char>
    decreases v,
{
    if v < 10 {
        seq![digit_char(v)]
    } else {
        decimal_digits(v / 10).push(digit_char(v % 10))
    }
}

/// The decimal text of a signed integer: a minus sign for negatives, then
/// the digits of its magnitude.
pub open spec fn signed_decimal(v: int) -> Seq<char> {
    if v < 0 {
        seq!['-'] + decimal_digits((-v) as nat)
    } else {
        decimal_digits(v as nat)
    }
}

fn push_decimal(v: u64, out: &mut Vec<char>)
    ensures
        final(out)@ == old(out)@ + decimal_digits(v as nat),
    decreases v,
{
    if v >= 10 {
        push_decimal(v / 10, out);
    }
    let d: u8 = (v % 10) as u8;
    let c: char = (48u8 + d) as char;
    proof {
        assert(c == digit_char((v % 10) as nat));
    }
    out.push(c);
    proof {
        if v >= 10 {
            assert(decimal_digits(v as nat) == decimal_digits((v / 10) as nat).push(digit_char((v % 10) as nat)));
        }
    }
}

/// The decimal text of an unsigned number.
pub fn decimal_text(v: u64) -> (r: String)
    ensures
        r@ == decimal_digits(v as nat),
{
    let mut out: Vec<char> = Vec::new();
    push_decimal(v, &mut out);
    proof {
        assert(out@ =~= decimal_digits(v as nat));
    }
    string_of(&out)
}

/// The decimal text of a signed number.
pub fn signed_decimal_text(v: i64) -> (r: String)
    ensures
        r@ == signed_decimal(v as int),
{
    let mut out: Vec<char> = Vec::new();
    if v < 0 {
        out.push('-');
        let magnitude: u64 = if v == i64::MIN {
            9223372036854775808u64
        } else {
            (-v) as u64
        };
        push_decimal(magnitude, &mut out);
    } else {
        push_decimal(v as u64, &mut out);
    }
    proof {
        assert(out@ =~= signed_decimal(v as int));
    }
    string_of(&out)
}


/// Number of leading copies of `c` in `t`.
pub open spec fn leading_count(t: Seq<char>, c: char) -> nat
    decreases t.len(),
{
    if t.len() > 0 && t[0] == c {
        1 + leading_count(t.drop_first(), c)
    } else {
        0
    }
}

/// Number of trailing copies of `c` in `t`.
pub open spec fn trailing_count(t: Seq<char>, c: char) -> nat
    decreases t.len(),
{
    if t.len() > 0 && t.last() == c {
        1 + trailing_count(t.drop_last(), c)
    } else {
        0
    }
}

/// `t` without leading and trailing copies of `c`, as `str::trim_matches(c)`.
pub open spec fn trim_char_text(t: Seq<char>, c: char) -> Seq<char> {
    let front = leading_count(t, c) as int;
    if front == t.len() {
        Seq::empty()
    } else {
        t.subrange(front, t.len() - trailing_count(t, c) as int)
    }
}

proof fn lemma_leading_count_all(t: Seq<char>, c: char, n: int)
    requires
        0 <= n <= t.len(),
        forall|k: int| 0 <= k < n ==> #[trigger] t[k] == c,
        n < t.len() ==> t[n] != c,
    ensures
        leading_count(t, c) == n,
    decreases n,
{
    if n > 0 {
        assert forall|k: int| 0 <= k < n - 1 implies #[trigger] t.drop_first()[k] == c by {
            assert(t.drop_first()[k] == t[k + 1]);
        }
        if n - 1 < t.drop_first().len() {
            assert(t.drop_first()[n - 1] == t[n]);
        }
        lemma_leading_count_all(t.drop_first(), c, n - 1);
    }
}

proof fn lemma_trailing_count_all(t: Seq<char>, c: char, n: int)
    requires
        0 <= n <= t.len(),
        forall|k: int| t.len() - n <= k < t.len() ==> #[trigger] t[k] == c,
        n < t.len() ==> t[t.len() - n - 1] != c,
    ensures
        trailing_count(t, c) == n,
    decreases n,
{
    if n > 0 {
        let d = t.drop_last();
        assert forall|k: int| d.len() - (n - 1) <= k < d.len() implies #[trigger] d[k] == c by {
            assert(d[k] == t[k]);
        }
        if n - 1 < d.len() {
            assert(d[d.len() - (n - 1) - 1] == t[t.len() - n - 1]);
        }
        lemma_trailing_count_all(d, c, n - 1);
    }
}

/// The text without leading and trailing copies of `c`.
pub fn trim_matching(s: &str, c: char) -> (r: String)
    ensures
        r@ == trim_char_text(s@, c),
{
    let cs = chars_of(s);
    let mut start: usize = 0;
    while start < cs.len() && cs[start] == c
        invariant
            cs@ == s@,
            start <= cs.len(),
            forall|k: int| 0 <= k < start ==> #[trigger] cs@[k] == c,
        decreases cs.len() - start,
    {
        start += 1;
    }
    proof {
        lemma_leading_count_all(s@, c, start as int);
    }
    if start == cs.len() {
        return String::new();
    }
    let mut end: usize = cs.len();
    while end > start && cs[end - 1] == c
        invariant
            cs@ == s@,
            start < cs.len(),
            cs@[start as int] != c,
            start <= end <= cs.len(),
            forall|k: int| end <= k < cs.len() ==> #[trigger] cs@[k] == c,
        decreases end,
    {
        end -= 1;
    }
    proof {
        lemma_trailing_count_all(s@, c, (cs.len() - end) as int);
    }
    let mut out: Vec<char> = Vec::new();
    let mut i: usize = start;
    while i < end
        invariant
            cs@ == s@,
            start <= i <= end <= cs.len(),
            out@ == cs@.subrange(start as int, i as int),
        decreases end - i,
    {
        out.push(cs[i]);
        proof {
            assert(cs@.subrange(start as int, i + 1) =~= cs@.subrange(start as int, i as int).push(
                cs@[i as int],
            ));
        }
        i += 1;
    }
    string_of(&out)
}

} // verus!
