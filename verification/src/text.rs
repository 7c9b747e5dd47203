use vstd::prelude::*;

verus! {

// ---------------------------------------------------------------------------
// Specifications over character sequences
// ---------------------------------------------------------------------------

/// `needle` occurs in `hay` at position `i`.
pub open spec fn occurs_at(hay: Seq<char>, needle: Seq<char>, i: int) -> bool {
    &&& 0 <= i
    &&& i + needle.len() <= hay.len()
    &&& hay.subrange(i, i + needle.len()) == needle
}

/// `needle` occurs somewhere in `hay` (the empty sequence occurs everywhere).
pub open spec fn contains_seq(hay: Seq<char>, needle: Seq<char>) -> bool {
    exists|i: int| occurs_at(hay, needle, i)
}

/// `hay` begins with `prefix`.
pub open spec fn starts_with_seq(hay: Seq<char>, prefix: Seq<char>) -> bool {
    occurs_at(hay, prefix, 0)
}

/// The first position at or after `i` where `sep` occurs in `s`.
pub open spec fn find_from(s: Seq<char>, sep: Seq<char>, i: int) -> Option<int>
    decreases s.len() + 1 - i,
{
    if i + sep.len() > s.len() {
        None
    } else if occurs_at(s, sep, i) {
        Some(i)
    } else {
        find_from(s, sep, i + 1)
    }
}

/// The pieces of `s` between the non-overlapping occurrences of `sep`,
/// searched from left to right (what `str::split` yields for a string pattern).
pub open spec fn split_seq(s: Seq<char>, sep: Seq<char>) -> Seq<Seq<char>>
    decreases s.len(),
{
    if sep.len() == 0 {
        seq![s]
    } else {
        match find_from(s, sep, 0) {
            Some(i) => {
                proof {
                    lemma_find_from_bounds(s, sep, 0);
                }
                seq![s.subrange(0, i)] + split_seq(s.subrange(i + sep.len(), s.len() as int), sep)
            },
            None => seq![s],
        }
    }
}

/// Lexicographic order on characters compared by their code points; this is the
/// order of `String` (UTF-8 byte order and code point order agree).
pub open spec fn lex_lt(a: Seq<char>, b: Seq<char>) -> bool
    decreases a.len(),
{
    if a.len() == 0 {
        b.len() > 0
    } else if b.len() == 0 {
        false
    } else if a[0] == b[0] {
        lex_lt(a.drop_first(), b.drop_first())
    } else {
        (a[0] as int) < (b[0] as int)
    }
}

pub open spec fn lex_le(a: Seq<char>, b: Seq<char>) -> bool {
    lex_lt(a, b) || a == b
}

pub open spec fn is_digit(c: char) -> bool {
    '0' <= c && c <= '9'
}

pub open spec fn digit_value(c: char) -> int {
    (c as int) - ('0' as int)
}

pub open spec fn all_digits(s: Seq<char>) -> bool {
    forall|i: int| 0 <= i < s.len() ==> is_digit(#[trigger] s[i])
}

/// The number that a string of decimal digits denotes.
pub open spec fn decimal_value(s: Seq<char>) -> int
    decreases s.len(),
{
    if s.len() == 0 {
        0
    } else {
        decimal_value(s.drop_last()) * 10 + digit_value(s.last())
    }
}

/// The digits of an unsigned number: what follows an optional leading `+`.
pub open spec fn unsigned_digits(s: Seq<char>) -> Seq<char> {
    if s.len() > 0 && s[0] == '+' {
        s.drop_first()
    } else {
        s
    }
}

/// What `from_str` of an unsigned integer type whose largest value is `max`
/// returns for `s`: the value of a non-empty string of decimal digits after an
/// optional `+`, when it does not exceed `max`; `None` otherwise.
pub open spec fn parse_unsigned_spec(s: Seq<char>, max: int) -> Option<int> {
    let d = unsigned_digits(s);
    if d.len() > 0 && all_digits(d) && decimal_value(d) <= max {
        Some(decimal_value(d))
    } else {
        None
    }
}

/// The view of each string of a sequence.
pub open spec fn strs_view(v: Seq<String>) -> Seq<Seq<char>> {
    v.map_values(|s: String| s@)
}

/// What `str::to_lowercase` returns for a string: its Unicode lowercase mapping.
pub uninterp spec fn lowercase(s: Seq<char>) -> Seq<char>;

/// Every character is ASCII.
pub open spec fn is_ascii_text(s: Seq<char>) -> bool {
    forall|i: int| 0 <= i < s.len() ==> (#[trigger] s[i] as u32) < 128
}

/// An ASCII capital letter becomes its small letter; any other character stays.
pub open spec fn ascii_lower_char(c: char) -> char {
    if 'A' <= c && c <= 'Z' {
        ((c as u32) + 32) as char
    } else {
        c
    }
}

/// The ASCII lowercase mapping, character by character.
pub open spec fn ascii_lowercase(s: Seq<char>) -> Seq<char> {
    s.map_values(|c: char| ascii_lower_char(c))
}

/// The lowercase text of `s`: the ASCII mapping for ASCII text, the Unicode
/// mapping `lowercase` otherwise (the two agree on ASCII text).
pub open spec fn text_lower(s: Seq<char>) -> Seq<char> {
    if is_ascii_text(s) {
        ascii_lowercase(s)
    } else {
        lowercase(s)
    }
}

// ---------------------------------------------------------------------------
// Lemmas
// ---------------------------------------------------------------------------

pub proof fn lemma_find_from_bounds(s: Seq<char>, sep: Seq<char>, i: int)
    ensures
        match find_from(s, sep, i) {
            Some(j) => i <= j && occurs_at(s, sep, j) && (forall|k: int|
                i <= k < j ==> !occurs_at(s, sep, k)),
            None => forall|k: int| i <= k ==> !occurs_at(s, sep, k),
        },
    decreases s.len() + 1 - i,
{
    if i + sep.len() > s.len() {
    } else if occurs_at(s, sep, i) {
    } else {
        lemma_find_from_bounds(s, sep, i + 1);
    }
}

/// Searching in a suffix is searching in the whole sequence, shifted.
pub proof fn lemma_find_from_skip(s: Seq<char>, sep: Seq<char>, a: int, j: int)
    requires
        0 <= a <= s.len(),
        0 <= j,
    ensures
        find_from(s.subrange(a, s.len() as int), sep, j) == match find_from(s, sep, a + j) {
            Some(x) => Some(x - a),
            None => None::<int>,
        },
    decreases s.len() + 1 - (a + j),
{
    let t = s.subrange(a, s.len() as int);
    if j + sep.len() > t.len() {
    } else {
        assert(t.subrange(j, j + sep.len()) =~= s.subrange(a + j, a + j + sep.len()));
        if occurs_at(t, sep, j) {
        } else {
            lemma_find_from_skip(s, sep, a, j + 1);
        }
    }
}

pub proof fn lemma_lex_lt_irreflexive(a: Seq<char>)
    ensures
        !lex_lt(a, a),
    decreases a.len(),
{
    if a.len() > 0 {
        lemma_lex_lt_irreflexive(a.drop_first());
    }
}

pub proof fn lemma_lex_lt_transitive(a: Seq<char>, b: Seq<char>, c: Seq<char>)
    requires
        lex_lt(a, b),
        lex_lt(b, c),
    ensures
        lex_lt(a, c),
    decreases a.len(),
{
    if a.len() > 0 && b.len() > 0 && c.len() > 0 {
        if a[0] == b[0] && b[0] == c[0] {
            lemma_lex_lt_transitive(a.drop_first(), b.drop_first(), c.drop_first());
        }
    }
}

pub proof fn lemma_lex_lt_total(a: Seq<char>, b: Seq<char>)
    requires
        a != b,
    ensures
        lex_lt(a, b) || lex_lt(b, a),
    decreases a.len(),
{
    if a.len() > 0 && b.len() > 0 && a[0] == b[0] {
        if a.drop_first() == b.drop_first() {
            assert(a =~= seq![a[0]] + a.drop_first());
            assert(b =~= seq![b[0]] + b.drop_first());
        }
        lemma_lex_lt_total(a.drop_first(), b.drop_first());
    } else if a.len() == 0 && b.len() == 0 {
        assert(a =~= b);
    } else if a.len() > 0 && b.len() > 0 {
        let x = a[0] as int;
        let y = b[0] as int;
        assert(x != y) by {
            if x == y {
                assert(a[0] == b[0]);
            }
        }
    }
}

pub proof fn lemma_lex_lt_skip(a: Seq<char>, b: Seq<char>, i: int)
    requires
        0 <= i < a.len(),
        i < b.len(),
        a[i] == b[i],
    ensures
        lex_lt(a.subrange(i, a.len() as int), b.subrange(i, b.len() as int)) == lex_lt(
            a.subrange(i + 1, a.len() as int),
            b.subrange(i + 1, b.len() as int),
        ),
{
    assert(a.subrange(i, a.len() as int).drop_first() =~= a.subrange(i + 1, a.len() as int));
    assert(b.subrange(i, b.len() as int).drop_first() =~= b.subrange(i + 1, b.len() as int));
}

pub proof fn lemma_decimal_value_nonneg(s: Seq<char>)
    requires
        all_digits(s),
    ensures
        decimal_value(s) >= 0,
    decreases s.len(),
{
    if s.len() > 0 {
        lemma_decimal_value_nonneg(s.drop_last());
    }
}

/// A longer string of digits is worth at least as much as its prefix.
pub proof fn lemma_decimal_value_prefix(s: Seq<char>, k: int)
    requires
        all_digits(s),
        0 <= k <= s.len(),
    ensures
        decimal_value(s.take(k)) <= decimal_value(s),
    decreases s.len() - k,
{
    if k < s.len() {
        let t = s.take(k + 1);
        assert(t.drop_last() =~= s.take(k));
        assert(all_digits(t));
        lemma_decimal_value_nonneg(s.take(k));
        assert(decimal_value(t) >= decimal_value(s.take(k)));
        lemma_decimal_value_prefix(s, k + 1);
    } else {
        assert(s.take(k) =~= s);
    }
}

// ---------------------------------------------------------------------------
// Executable helpers
// ---------------------------------------------------------------------------

/// The characters of `s`, in order.
pub fn chars_of(s: &str) -> (v: Vec<char>)
    ensures
        v@ == s@,
{
    let mut v: Vec<char> = Vec::new();
    for c in it: s.chars()
        invariant
            v@ == it.seq().take(it.index() as int),
    {
        v.push(c);
    }
    v
}

/// Whether two character slices hold the same characters.
pub fn chars_eq(a: &[char], b: &[char]) -> (r: bool)
    ensures
        r == (a@ == b@),
{
    if a.len() != b.len() {
        return false;
    }
    let mut i: usize = 0;
    while i < a.len()
        invariant
            a@.len() == b@.len(),
            i <= a@.len(),
            forall|k: int| 0 <= k < i ==> a@[k] == b@[k],
        decreases a@.len() - i,
    {
        if a[i] != b[i] {
            return false;
        }
        i = i + 1;
    }
    assert(a@ =~= b@);
    true
}

/// Whether two strings hold the same characters.
pub fn str_eq(a: &str, b: &str) -> (r: bool)
    ensures
        r == (a@ == b@),
{
    let va = chars_of(a);
    let vb = chars_of(b);
    chars_eq(va.as_slice(), vb.as_slice())
}

/// Whether `needle` occurs in `hay` at position `i`.
pub fn occurs_at_exec(hay: &[char], needle: &[char], i: usize) -> (r: bool)
    ensures
        r == occurs_at(hay@, needle@, i as int),
{
    if i > hay.len() || needle.len() > hay.len() - i {
        return false;
    }
    let mut k: usize = 0;
    while k < needle.len()
        invariant
            i + needle@.len() <= hay@.len(),
            needle.len() == needle@.len(),
            hay.len() == hay@.len(),
            k <= needle@.len(),
            forall|j: int| 0 <= j < k ==> hay@[i + j] == needle@[j],
        decreases needle@.len() - k,
    {
        if hay[i + k] != needle[k] {
            assert(hay@.subrange(i as int, i + needle@.len())[k as int] == hay@[i + k]);
            assert(hay@.subrange(i as int, i + needle@.len())[k as int] != needle@[k as int]);
            return false;
        }
        k = k + 1;
    }
    assert(hay@.subrange(i as int, i + needle@.len()) =~= needle@);
    true
}

/// The first position at or after `from` where `sep` occurs in `s`.
pub fn find_from_exec(s: &[char], sep: &[char], from: usize) -> (r: Option<usize>)
    ensures
        match r {
            Some(j) => find_from(s@, sep@, from as int) == Some(j as int),
            None => find_from(s@, sep@, from as int) is None,
        },
{
    let mut i = from;
    if from > s.len() || sep.len() > s.len() {
        return None;
    }
    if sep.len() == 0 {
        assert(s@.subrange(from as int, from as int) =~= sep@);
        return Some(from);
    }
    while i <= s.len() - sep.len()
        invariant
            from <= i,
            0 < sep@.len() <= s@.len(),
            sep.len() == sep@.len(),
            s.len() == s@.len(),
            find_from(s@, sep@, from as int) == find_from(s@, sep@, i as int),
        decreases s@.len() + 1 - i,
    {
        if occurs_at_exec(s, sep, i) {
            return Some(i);
        }
        i = i + 1;
    }
    None
}

/// The pieces of `s` that the ranges `r` delimit.
pub open spec fn range_pieces(s: Seq<char>, r: Seq<(usize, usize)>) -> Seq<Seq<char>> {
    r.map_values(|p: (usize, usize)| s.subrange(p.0 as int, p.1 as int))
}

/// Ranges `r` lie within `s`.
pub open spec fn ranges_within(s: Seq<char>, r: Seq<(usize, usize)>) -> bool {
    forall|i: int| 0 <= i < r.len() ==> #[trigger] r[i].0 <= r[i].1 && r[i].1 <= s.len()
}

/// The positions of the pieces of `s` between the occurrences of `sep`.
pub fn split_ranges(s: &[char], sep: &[char]) -> (r: Vec<(usize, usize)>)
    requires
        sep@.len() > 0,
    ensures
        ranges_within(s@, r@),
        range_pieces(s@, r@) == split_seq(s@, sep@),
{
    let mut r: Vec<(usize, usize)> = Vec::new();
    let mut start: usize = 0;
    assert(s@.subrange(0, s@.len() as int) =~= s@);
    let n = s.len();
    loop
        invariant
            start <= s@.len(),
            n == s@.len(),
            sep.len() == sep@.len(),
            sep@.len() > 0,
            ranges_within(s@, r@),
            split_seq(s@, sep@) == range_pieces(s@, r@) + split_seq(
                s@.subrange(start as int, s@.len() as int),
                sep@,
            ),
        decreases s@.len() - start,
    {
        let ghost t = s@.subrange(start as int, s@.len() as int);
        proof {
            lemma_find_from_skip(s@, sep@, start as int, 0);
            lemma_find_from_bounds(s@, sep@, start as int);
        }
        match find_from_exec(s, sep, start) {
            Some(j) => {
                let next = j + sep.len();
                proof {
                    assert(t.subrange(0, j - start) =~= s@.subrange(start as int, j as int));
                    assert(t.subrange(j - start + sep@.len(), t.len() as int) =~= s@.subrange(
                        next as int,
                        s@.len() as int,
                    ));
                    assert(range_pieces(s@, r@.push((start, j))) =~= range_pieces(s@, r@).push(
                        s@.subrange(start as int, j as int),
                    ));
                }
                r.push((start, j));
                start = next;
            },
            None => {
                proof {
                    assert(range_pieces(s@, r@.push((start, n))) =~= range_pieces(
                        s@,
                        r@,
                    ).push(t));
                }
                r.push((start, n));
                return r;
            },
        }
    }
}

/// Whether `needle` occurs somewhere in `hay`.
pub fn contains_chars(hay: &[char], needle: &[char]) -> (r: bool)
    ensures
        r == contains_seq(hay@, needle@),
{
    let r = find_from_exec(hay, needle, 0);
    proof {
        lemma_find_from_bounds(hay@, needle@, 0);
    }
    r.is_some()
}

/// Whether `needle` occurs somewhere in `hay` (what `str::contains` answers).
pub fn str_contains(hay: &str, needle: &str) -> (r: bool)
    ensures
        r == contains_seq(hay@, needle@),
{
    let h = chars_of(hay);
    let n = chars_of(needle);
    contains_chars(h.as_slice(), n.as_slice())
}

/// Whether `s` begins with `prefix`.
pub fn str_starts_with(s: &str, prefix: &str) -> (r: bool)
    ensures
        r == starts_with_seq(s@, prefix@),
{
    let h = chars_of(s);
    let n = chars_of(prefix);
    occurs_at_exec(h.as_slice(), n.as_slice(), 0)
}

/// Calls `str::to_lowercase`. The contract claims that the result is
/// `lowercase` of the argument (the same characters give the same result), and
/// that on ASCII text it is the ASCII lowercase mapping, where Unicode's
/// lowercase of `A`..`Z` is `a`..`z` and every other ASCII character maps to
/// itself. What the mapping does to other characters is left unsaid.
#[verifier::external_body]
pub(crate) fn to_lowercase(s: &str) -> (r: String)
    ensures
        r@ == lowercase(s@),
        is_ascii_text(s@) ==> r@ == ascii_lowercase(s@),
        r@ == text_lower(s@),
{
    s.to_lowercase()
}

/// The three outcomes of comparing two strings.
pub enum TextOrder {
    Less,
    Equal,
    Greater,
}

/// Compares two character slices in the order of `lex_lt`.
pub fn compare_chars(a: &[char], b: &[char]) -> (r: TextOrder)
    ensures
        (r is Less) == lex_lt(a@, b@),
        (r is Equal) == (a@ == b@),
        (r is Greater) == lex_lt(b@, a@),
{
    let mut i: usize = 0;
    assert(a@.subrange(0, a@.len() as int) =~= a@);
    assert(b@.subrange(0, b@.len() as int) =~= b@);
    while i < a.len() && i < b.len() && a[i] == b[i]
        invariant
            i <= a@.len(),
            i <= b@.len(),
            forall|k: int| 0 <= k < i ==> a@[k] == b@[k],
            lex_lt(a@, b@) == lex_lt(a@.subrange(i as int, a@.len() as int), b@.subrange(i as int, b@.len() as int)),
            lex_lt(b@, a@) == lex_lt(b@.subrange(i as int, b@.len() as int), a@.subrange(i as int, a@.len() as int)),
        decreases a@.len() - i,
    {
        proof {
            lemma_lex_lt_skip(a@, b@, i as int);
            lemma_lex_lt_skip(b@, a@, i as int);
        }
        i = i + 1;
    }
    let ghost sa = a@.subrange(i as int, a@.len() as int);
    let ghost sb = b@.subrange(i as int, b@.len() as int);
    if i == a.len() && i == b.len() {
        assert(a@ =~= b@);
        proof {
            lemma_lex_lt_irreflexive(a@);
        }
        TextOrder::Equal
    } else if i == a.len() {
        assert(sa.len() == 0 && sb.len() > 0);
        assert(a@ != b@);
        TextOrder::Less
    } else if i == b.len() {
        assert(sb.len() == 0 && sa.len() > 0);
        assert(a@ != b@);
        TextOrder::Greater
    } else {
        assert(sa[0] == a@[i as int] && sb[0] == b@[i as int]);
        assert(a@[i as int] != b@[i as int]);
        if a[i] < b[i] {
            TextOrder::Less
        } else {
            TextOrder::Greater
        }
    }
}

/// Compares two strings in the order of `String`.
pub fn compare_str(a: &str, b: &str) -> (r: TextOrder)
    ensures
        (r is Less) == lex_lt(a@, b@),
        (r is Equal) == (a@ == b@),
        (r is Greater) == lex_lt(b@, a@),
{
    let va = chars_of(a);
    let vb = chars_of(b);
    compare_chars(va.as_slice(), vb.as_slice())
}

/// Parses an unsigned decimal number no larger than `max` (the rules of `from_str`).
pub fn parse_unsigned(s: &[char], max: u64) -> (r: Option<u64>)
    ensures
        match r {
            Some(v) => parse_unsigned_spec(s@, max as int) == Some(v as int),
            None => parse_unsigned_spec(s@, max as int) is None,
        },
{
    let mut i: usize = 0;
    if s.len() > 0 && s[0] == '+' {
        i = 1;
    }
    let ghost d = unsigned_digits(s@);
    assert(d =~= s@.subrange(i as int, s@.len() as int));
    if i == s.len() {
        return None;
    }
    let mut acc: u64 = 0;
    let mut k: usize = i;
    while k < s.len()
        invariant
            i <= k <= s@.len(),
            s.len() == s@.len(),
            i < s@.len(),
            d == s@.subrange(i as int, s@.len() as int),
            d == unsigned_digits(s@),
            all_digits(d.take(k - i)),
            acc as int == decimal_value(d.take(k - i)),
            acc <= max,
        decreases s@.len() - k,
    {
        let c = s[k];
        if !('0' <= c && c <= '9') {
            assert(d[k - i] == c);
            assert(!is_digit(d[k - i]));
            assert(!all_digits(d));
            return None;
        }
        let dv = (c as u32 - '0' as u32) as u128;
        let next = (acc as u128) * 10 + dv;
        let ghost t = d.take(k - i + 1);
        proof {
            assert(t.drop_last() =~= d.take(k - i));
            assert(t.last() == c);
            assert(all_digits(t));
        }
        assert(dv == digit_value(c));
        assert(next == decimal_value(t));
        if next > max as u128 {
            proof {
                assert(decimal_value(t) > max);
                if all_digits(d) {
                    lemma_decimal_value_prefix(d, k - i + 1);
                }
            }
            return None;
        }
        acc = next as u64;
        k = k + 1;
    }
    assert(d.take(d.len() as int) =~= d);
    Some(acc)
}

/// A copy of a list of strings.
pub fn clone_strings(v: &Vec<String>) -> (r: Vec<String>)
    ensures
        r@ == v@,
{
    let mut r: Vec<String> = Vec::new();
    let mut i: usize = 0;
    while i < v.len()
        invariant
            i <= v@.len(),
            r@ == v@.take(i as int),
        decreases v@.len() - i,
    {
        r.push(v[i].clone());
        assert(v@.take(i as int).push(v@[i as int]) =~= v@.take(i + 1));
        i = i + 1;
    }
    assert(v@.take(v@.len() as int) =~= v@);
    r
}

} // verus!
