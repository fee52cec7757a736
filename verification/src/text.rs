//! Character-level text helpers shared by the whole crate.
//!
//! Strings are handled as sequences of `char`; each helper states exactly what
//! it computes over those sequences.
use vstd::prelude::*;
use vstd::utf8::{encode_scalar, encode_utf8};

verus! {

// ---------------------------------------------------------------------------
// Specifications
// ---------------------------------------------------------------------------

/// Unicode `White_Space` property, the set that `char::is_whitespace` tests.
pub open spec fn is_ws(c: char) -> bool {
    let u = c as u32;
    (0x9 <= u <= 0xd) || u == 0x20 || u == 0x85 || u == 0xa0 || u == 0x1680 || (0x2000 <= u
        <= 0x200a) || u == 0x2028 || u == 0x2029 || u == 0x202f || u == 0x205f || u == 0x3000
}

/// `s` without its leading white space.
pub open spec fn trim_start(s: Seq<char>) -> Seq<char>
    decreases s.len(),
{
    if s.len() > 0 && is_ws(s[0]) {
        trim_start(s.drop_first())
    } else {
        s
    }
}

/// `s` without its trailing white space.
pub open spec fn trim_end(s: Seq<char>) -> Seq<char>
    decreases s.len(),
{
    if s.len() > 0 && is_ws(s.last()) {
        trim_end(s.drop_last())
    } else {
        s
    }
}

/// `s` without leading and trailing white space.
pub open spec fn trim(s: Seq<char>) -> Seq<char> {
    trim_end(trim_start(s))
}

/// Whether `p` is a prefix of `s`.
pub open spec fn starts_with(s: Seq<char>, p: Seq<char>) -> bool {
    p.len() <= s.len() && s.take(p.len() as int) == p
}

/// Whether `p` is a suffix of `s`.
pub open spec fn ends_with(s: Seq<char>, p: Seq<char>) -> bool {
    p.len() <= s.len() && s.skip(s.len() - p.len()) == p
}

/// Whether `p` occurs in `s` at position `i`.
pub open spec fn occurs_at(s: Seq<char>, p: Seq<char>, i: int) -> bool {
    0 <= i && i + p.len() <= s.len() && s.subrange(i, i + p.len()) == p
}

/// Whether `p` occurs somewhere in `s`.
pub open spec fn contains(s: Seq<char>, p: Seq<char>) -> bool {
    exists|i: int| occurs_at(s, p, i)
}

/// Position of the first occurrence of `p` in `s` at or after `from`.
pub open spec fn find_from(s: Seq<char>, p: Seq<char>, from: int) -> Option<int>
    decreases s.len() + 1 - from,
{
    if from < 0 || from + p.len() > s.len() {
        None
    } else if occurs_at(s, p, from) {
        Some(from)
    } else {
        find_from(s, p, from + 1)
    }
}

/// Position of the first occurrence of `p` in `s`.
pub open spec fn find(s: Seq<char>, p: Seq<char>) -> Option<int> {
    find_from(s, p, 0)
}

/// Position of the first `c` in `s` at or after `from`.
pub open spec fn find_char_from(s: Seq<char>, c: char, from: int) -> Option<int>
    decreases s.len() - from,
{
    if from < 0 || from >= s.len() {
        None
    } else if s[from] == c {
        Some(from)
    } else {
        find_char_from(s, c, from + 1)
    }
}

/// `line` without one trailing carriage return.
pub open spec fn strip_cr(line: Seq<char>) -> Seq<char> {
    if line.len() > 0 && line.last() == '\r' {
        line.drop_last()
    } else {
        line
    }
}

/// The lines of `s` as `str::lines` yields them: split at `\n`, a `\r`
/// before the `\n` removed, and no empty line after a final `\n`.
pub open spec fn lines(s: Seq<char>) -> Seq<Seq<char>>
    decreases s.len(),
{
    if s.len() == 0 {
        Seq::empty()
    } else {
        proof {
            lemma_find_char_bound(s, '\n', 0);
        }
        match find_char_from(s, '\n', 0) {
            None => seq![s],
            Some(i) => seq![strip_cr(s.take(i))] + lines(s.skip(i + 1)),
        }
    }
}

/// The pieces of `parts` separated by `sep`.
pub open spec fn join(parts: Seq<Seq<char>>, sep: Seq<char>) -> Seq<char>
    decreases parts.len(),
{
    if parts.len() == 0 {
        Seq::empty()
    } else if parts.len() == 1 {
        parts[0]
    } else {
        join(parts.drop_last(), sep) + sep + parts.last()
    }
}

/// The decimal digit for `d`.
pub open spec fn digit(d: nat) -> char {
    if d == 0 {
        '0'
    } else if d == 1 {
        '1'
    } else if d == 2 {
        '2'
    } else if d == 3 {
        '3'
    } else if d == 4 {
        '4'
    } else if d == 5 {
        '5'
    } else if d == 6 {
        '6'
    } else if d == 7 {
        '7'
    } else if d == 8 {
        '8'
    } else {
        '9'
    }
}

/// Decimal notation of `n`, as `Display` writes an unsigned integer.
pub open spec fn decimal(n: nat) -> Seq<char>
    decreases n,
{
    if n < 10 {
        seq![digit(n)]
    } else {
        decimal(n / 10).push(digit(n % 10))
    }
}

/// The value of a non-empty run of decimal digits, if `s` is one.
pub open spec fn is_digit(c: char) -> bool {
    '0' <= c <= '9'
}

/// Whether `s` is a non-empty run of ASCII digits.
pub open spec fn all_digits(s: Seq<char>) -> bool {
    s.len() > 0 && forall|i: int| 0 <= i < s.len() ==> is_digit(#[trigger] s[i])
}

/// The number written by the digits `s`.
pub open spec fn digits_value(s: Seq<char>) -> nat
    decreases s.len(),
{
    if s.len() == 0 {
        0
    } else {
        digits_value(s.drop_last()) * 10 + ((s.last() as u32) - ('0' as u32)) as nat
    }
}

// ---------------------------------------------------------------------------
// Executable helpers
// ---------------------------------------------------------------------------

/// The characters of `s`, in order.
pub fn chars_of(s: &str) -> (v: Vec<char>)
    ensures
        v@ == s@,
{
    let mut v: Vec<char> = Vec::new();
    for c in it: s.chars()
        invariant
            v@ == it.seq().take(it.index() as int),
    {
        v.push(c);
    }
    v
}

/// The string made of the characters `v`.
///
/// Calls `Iterator::collect` into a `String`, which yields exactly the
/// collected characters, in order.
#[verifier::external_body]
pub fn string_of(v: &Vec<char>) -> (s: String)
    ensures
        s@ == v@,
{
    v.iter().collect()
}

/// Appends the characters of `s` to `out`.
pub fn push_str(out: &mut Vec<char>, s: &str)
    ensures
        final(out)@ == old(out)@ + s@,
{
    let v = chars_of(s);
    extend(out, &v);
}

/// Appends `v` to `out`.
pub fn extend(out: &mut Vec<char>, v: &Vec<char>)
    ensures
        final(out)@ == old(out)@ + v@,
{
    let ghost start = out@;
    let mut i: usize = 0;
    while i < v.len()
        invariant
            i <= v.len(),
            out@ == start + v@.take(i as int),
        decreases v.len() - i,
    {
        out.push(v[i]);
        i = i + 1;
        assert(v@.take(i as int) == v@.take((i - 1) as int).push(v@[i - 1]));
    }
    assert(v@.take(v.len() as int) == v@);
}

/// Copy of the characters `v[from..to]`.
pub fn slice(v: &Vec<char>, from: usize, to: usize) -> (r: Vec<char>)
    requires
        from <= to <= v.len(),
    ensures
        r@ == v@.subrange(from as int, to as int),
{
    let mut r: Vec<char> = Vec::new();
    let mut i: usize = from;
    while i < to
        invariant
            from <= i <= to <= v.len(),
            r@ == v@.subrange(from as int, i as int),
        decreases to - i,
    {
        r.push(v[i]);
        i = i + 1;
    }
    r
}

/// Whether `c` has the Unicode `White_Space` property.
pub fn is_whitespace(c: char) -> (b: bool)
    ensures
        b == is_ws(c),
{
    let u = c as u32;
    (0x9 <= u && u <= 0xd) || u == 0x20 || u == 0x85 || u == 0xa0 || u == 0x1680 || (0x2000 <= u
        && u <= 0x200a) || u == 0x2028 || u == 0x2029 || u == 0x202f || u == 0x205f || u == 0x3000
}

/// Every suffix reached by dropping white space is still trimmed the same way.
pub proof fn lemma_trim_start_skip(s: Seq<char>, i: int)
    requires
        0 <= i <= s.len(),
        forall|j: int| 0 <= j < i ==> is_ws(#[trigger] s[j]),
    ensures
        trim_start(s) == trim_start(s.skip(i)),
    decreases i,
{
    if i > 0 {
        assert(s.skip(1) == s.drop_first());
        lemma_trim_start_skip(s.drop_first(), i - 1);
        assert(s.drop_first().skip(i - 1) == s.skip(i));
    } else {
        assert(s.skip(0) == s);
    }
}

/// Dropping trailing white space does not change what remains after trimming.
pub proof fn lemma_trim_end_take(s: Seq<char>, i: int)
    requires
        0 <= i <= s.len(),
        forall|j: int| i <= j < s.len() ==> is_ws(#[trigger] s[j]),
    ensures
        trim_end(s) == trim_end(s.take(i)),
    decreases s.len() - i,
{
    if i < s.len() {
        assert(s.drop_last() == s.take(s.len() - 1));
        lemma_trim_end_take(s.drop_last(), i);
        assert(s.drop_last().take(i) == s.take(i));
    } else {
        assert(s.take(i) == s);
    }
}

/// Bounds `(from, to)` of `trim(v)` inside `v`.
pub fn trim_bounds(v: &Vec<char>) -> (r: (usize, usize))
    ensures
        r.0 <= r.1 <= v.len(),
        v@.subrange(r.0 as int, r.1 as int) == trim(v@),
        trim_start(v@) == v@.skip(r.0 as int),
{
    let mut a: usize = 0;
    while a < v.len() && is_whitespace(v[a])
        invariant
            a <= v.len(),
            forall|j: int| 0 <= j < a ==> is_ws(#[trigger] v@[j]),
        decreases v.len() - a,
    {
        a = a + 1;
    }
    proof {
        lemma_trim_start_skip(v@, a as int);
        let t = v@.skip(a as int);
        if t.len() > 0 {
            assert(t[0] == v@[a as int]);
        }
    }
    let mut b: usize = v.len();
    while b > a && is_whitespace(v[b - 1])
        invariant
            a <= b <= v.len(),
            forall|j: int| b <= j < v.len() ==> is_ws(#[trigger] v@[j]),
        decreases b - a,
    {
        b = b - 1;
    }
    proof {
        let t = v@.skip(a as int);
        assert forall|j: int| (b - a) <= j < t.len() implies is_ws(#[trigger] t[j]) by {
            assert(t[j] == v@[j + a]);
        }
        lemma_trim_end_take(t, (b - a) as int);
        let u = t.take((b - a) as int);
        if u.len() > 0 {
            assert(u.last() == v@[b - 1]);
        }
        assert(u == v@.subrange(a as int, b as int));
    }
    (a, b)
}

/// `trim_end(v)` as a new vector.
pub fn trimmed_end(v: &Vec<char>) -> (r: Vec<char>)
    ensures
        r@ == trim_end(v@),
{
    let mut b: usize = v.len();
    while b > 0 && is_whitespace(v[b - 1])
        invariant
            b <= v.len(),
            forall|j: int| b <= j < v.len() ==> is_ws(#[trigger] v@[j]),
        decreases b,
    {
        b = b - 1;
    }
    proof {
        lemma_trim_end_take(v@, b as int);
        let u = v@.take(b as int);
        if u.len() > 0 {
            assert(u.last() == v@[b - 1]);
        }
    }
    let r = slice(v, 0, b);
    assert(r@ =~= v@.take(b as int));
    r
}

/// `trim(v)` as a new vector.
pub fn trimmed(v: &Vec<char>) -> (r: Vec<char>)
    ensures
        r@ == trim(v@),
{
    let (a, b) = trim_bounds(v);
    slice(v, a, b)
}

/// Whether `v` starts with `p`.
pub fn has_prefix(v: &Vec<char>, p: &Vec<char>) -> (b: bool)
    ensures
        b == starts_with(v@, p@),
{
    if p.len() > v.len() {
        return false;
    }
    let mut i: usize = 0;
    while i < p.len()
        invariant
            i <= p.len() <= v.len(),
            forall|j: int| 0 <= j < i ==> v@[j] == p@[j],
        decreases p.len() - i,
    {
        if v[i] != p[i] {
            assert(v@.take(p.len() as int)[i as int] != p@[i as int]);
            return false;
        }
        i = i + 1;
    }
    assert(v@.take(p.len() as int) =~= p@);
    true
}

/// Whether `v` ends with `p`.
pub fn has_suffix(v: &Vec<char>, p: &Vec<char>) -> (b: bool)
    ensures
        b == ends_with(v@, p@),
{
    if p.len() > v.len() {
        return false;
    }
    let off = v.len() - p.len();
    let mut i: usize = 0;
    while i < p.len()
        invariant
            i <= p.len() <= v.len(),
            off == v.len() - p.len(),
            forall|j: int| 0 <= j < i ==> v@[off + j] == p@[j],
        decreases p.len() - i,
    {
        if v[off + i] != p[i] {
            assert(v@.skip(off as int)[i as int] != p@[i as int]);
            return false;
        }
        i = i + 1;
    }
    assert(v@.skip(off as int) =~= p@);
    true
}

/// Whether `p` occurs in `v` at `i`.
pub fn matches_at(v: &Vec<char>, p: &Vec<char>, i: usize) -> (b: bool)
    ensures
        b == occurs_at(v@, p@, i as int),
{
    if i > v.len() || p.len() > v.len() - i {
        return false;
    }
    let mut k: usize = 0;
    while k < p.len()
        invariant
            k <= p.len(),
            i + p.len() <= v.len(),
            forall|j: int| 0 <= j < k ==> v@[i + j] == p@[j],
        decreases p.len() - k,
    {
        if v[i + k] != p[k] {
            assert(v@.subrange(i as int, i + p.len())[k as int] != p@[k as int]);
            return false;
        }
        k = k + 1;
    }
    assert(v@.subrange(i as int, i + p.len()) =~= p@);
    true
}

/// The first occurrence of `p` in `v` at or after `from`.
pub fn find_at(v: &Vec<char>, p: &Vec<char>, from: usize) -> (r: Option<usize>)
    ensures
        r matches Some(i) ==> find_from(v@, p@, from as int) == Some(i as int),
        r is None ==> find_from(v@, p@, from as int) is None,
{
    if p.len() == 0 {
        if from <= v.len() {
            assert(v@.subrange(from as int, from as int) =~= p@);
            assert(occurs_at(v@, p@, from as int));
            return Some(from);
        }
        return None;
    }
    let mut i = from;
    while i < v.len() && p.len() <= v.len() - i
        invariant
            from <= i,
            p.len() > 0,
            find_from(v@, p@, from as int) == find_from(v@, p@, i as int),
        decreases v.len() + 1 - i,
    {
        if matches_at(v, p, i) {
            return Some(i);
        }
        i = i + 1;
    }
    None
}

/// An occurrence found by `find_from` is at or after `from` and fits in `s`.
pub proof fn lemma_find_from_bound(s: Seq<char>, p: Seq<char>, from: int)
    ensures
        find_from(s, p, from) matches Some(i) ==> from <= i && occurs_at(s, p, i),
    decreases s.len() + 1 - from,
{
    if !(from < 0 || from + p.len() > s.len()) && !occurs_at(s, p, from) {
        lemma_find_from_bound(s, p, from + 1);
    }
}

/// When `find_from` finds nothing, `p` occurs nowhere at or after `from`.
pub proof fn lemma_find_from_none(s: Seq<char>, p: Seq<char>, from: int)
    requires
        0 <= from,
        find_from(s, p, from) is None,
    ensures
        forall|i: int| from <= i ==> !#[trigger] occurs_at(s, p, i),
    decreases s.len() + 1 - from,
{
    if from + p.len() <= s.len() {
        lemma_find_from_none(s, p, from + 1);
    }
}

/// Whether `p` occurs in `v`.
pub fn mentions(v: &Vec<char>, p: &str) -> (b: bool)
    ensures
        b == contains(v@, p@),
{
    let pv = chars_of(p);
    match find_at(v, &pv, 0) {
        Some(i) => {
            proof {
                lemma_find_from_bound(v@, p@, 0);
            }
            true
        },
        None => {
            proof {
                lemma_find_from_none(v@, p@, 0);
            }
            false
        },
    }
}

/// The first `c` in `v` at or after `from`.
pub fn find_char_at(v: &Vec<char>, c: char, from: usize) -> (r: Option<usize>)
    ensures
        r matches Some(i) ==> find_char_from(v@, c, from as int) == Some(i as int) && from <= i
            < v.len(),
        r is None ==> find_char_from(v@, c, from as int) is None,
{
    let mut i = from;
    while i < v.len()
        invariant
            from <= i,
            find_char_from(v@, c, from as int) == find_char_from(v@, c, i as int),
        decreases v.len() - i,
    {
        if v[i] == c {
            return Some(i);
        }
        i = i + 1;
    }
    None
}

/// The lines of `v`, as `str::lines` yields them.
pub fn split_lines(v: &Vec<char>) -> (r: Vec<Vec<char>>)
    ensures
        r@.len() == lines(v@).len(),
        forall|k: int| 0 <= k < r@.len() ==> #[trigger] r@[k]@ == lines(v@)[k],
{
    let mut r: Vec<Vec<char>> = Vec::new();
    let mut pos: usize = 0;
    assert(v@.skip(0) == v@);
    while pos < v.len()
        invariant
            pos <= v.len(),
            r@.len() + lines(v@.skip(pos as int)).len() == lines(v@).len(),
            forall|k: int| 0 <= k < r@.len() ==> #[trigger] r@[k]@ == lines(v@)[k],
            forall|k: int|
                0 <= k < lines(v@.skip(pos as int)).len() ==> lines(v@)[r@.len() + k]
                    == #[trigger] lines(v@.skip(pos as int))[k],
        decreases v.len() - pos,
    {
        let ghost rest = v@.skip(pos as int);
        proof {
            lemma_find_char_shift(v@, '\n', pos as int, 0);
        }
        match find_char_at(v, '\n', pos) {
            None => {
                proof {
                    assert(find_char_from(rest, '\n', 0) is None);
                    assert(lines(rest) == seq![rest]);
                }
                let line = slice(v, pos, v.len());
                assert(line@ == rest);
                assert(lines(v@)[r@.len() as int] == lines(rest)[0]);
                r.push(line);
                pos = v.len();
                proof {
                    assert(v@.skip(pos as int).len() == 0);
                    assert(lines(v@.skip(pos as int)).len() == 0);
                }
            },
            Some(i) => {
                let mut end = i;
                if end > pos && v[end - 1] == '\r' {
                    end = end - 1;
                }
                let line = slice(v, pos, end);
                proof {
                    assert(find_char_from(rest, '\n', 0) == Some(i - pos));
                    let taken = rest.take(i - pos);
                    assert(taken == v@.subrange(pos as int, i as int));
                    if i > pos && v@[i - 1] == '\r' {
                        assert(taken.last() == '\r');
                        assert(strip_cr(taken) == taken.drop_last());
                    }
                    assert(line@ == strip_cr(taken));
                    assert(rest.skip(i - pos + 1) == v@.skip(i + 1));
                    assert(lines(rest) == seq![strip_cr(taken)] + lines(v@.skip(i + 1)));
                    assert(lines(v@)[r@.len() as int] == lines(rest)[0]);
                    assert forall|k: int| 0 <= k < lines(v@.skip(i + 1)).len() implies lines(v@)[(
                    r@.len() + 1) + k] == #[trigger] lines(v@.skip(i + 1))[k] by {
                        assert(lines(v@.skip(i + 1))[k] == lines(rest)[k + 1]);
                    }
                }
                r.push(line);
                pos = i + 1;
            },
        }
    }
    proof {
        assert(v@.skip(pos as int).len() == 0);
        assert(lines(v@.skip(pos as int)).len() == 0);
    }
    r
}

/// A found position lies at or after the start of the search, inside `s`,
/// and holds `c`.
pub proof fn lemma_find_char_bound(s: Seq<char>, c: char, from: int)
    ensures
        find_char_from(s, c, from) matches Some(i) ==> from <= i < s.len() && s[i] == c,
    decreases s.len() - from,
{
    if 0 <= from < s.len() && s[from] != c {
        lemma_find_char_bound(s, c, from + 1);
    }
}

/// Searching a suffix finds the same positions, shifted.
pub proof fn lemma_find_char_shift(s: Seq<char>, c: char, off: int, from: int)
    requires
        0 <= off <= s.len(),
        0 <= from,
    ensures
        find_char_from(s.skip(off), c, from) == (match find_char_from(s, c, from + off) {
            Some(i) => Some(i - off),
            None => None,
        }),
    decreases s.len() - off - from,
{
    if from + off < s.len() {
        if s[from + off] != c {
            lemma_find_char_shift(s, c, off, from + 1);
        }
    }
}

/// Decimal notation of `n`.
pub fn decimal_of(n: u64) -> (r: Vec<char>)
    ensures
        r@ == decimal(n as nat),
    decreases n,
{
    let d = n % 10;
    let c = if d == 0 {
        '0'
    } else if d == 1 {
        '1'
    } else if d == 2 {
        '2'
    } else if d == 3 {
        '3'
    } else if d == 4 {
        '4'
    } else if d == 5 {
        '5'
    } else if d == 6 {
        '6'
    } else if d == 7 {
        '7'
    } else if d == 8 {
        '8'
    } else {
        '9'
    };
    if n < 10 {
        let mut r: Vec<char> = Vec::new();
        r.push(c);
        r
    } else {
        let mut r = decimal_of(n / 10);
        r.push(c);
        r
    }
}

/// Appends the decimal notation of `n` to `out`.
pub fn push_decimal(out: &mut Vec<char>, n: u64)
    ensures
        final(out)@ == old(out)@ + decimal(n as nat),
{
    let d = decimal_of(n);
    extend(out, &d);
}

/// The pieces of `parts` separated by `sep`.
pub fn join_chars(parts: &Vec<Vec<char>>, sep: &str) -> (r: Vec<char>)
    ensures
        r@ == join(parts@.map_values(|p: Vec<char>| p@), sep@),
{
    let ghost views = parts@.map_values(|p: Vec<char>| p@);
    let mut r: Vec<char> = Vec::new();
    let mut i: usize = 0;
    while i < parts.len()
        invariant
            i <= parts.len(),
            views == parts@.map_values(|p: Vec<char>| p@),
            r@ == join(views.take(i as int), sep@),
        decreases parts.len() - i,
    {
        if i > 0 {
            push_str(&mut r, sep);
        }
        extend(&mut r, &parts[i]);
        proof {
            let t = views.take(i + 1);
            assert(t.drop_last() == views.take(i as int));
            assert(t.last() == parts@[i as int]@);
        }
        i = i + 1;
    }
    assert(views.take(parts.len() as int) == views);
    r
}

/// Whether `a` and `b` hold the same characters.
pub fn same_chars(a: &Vec<char>, b: &Vec<char>) -> (r: bool)
    ensures
        r == (a@ == b@),
{
    if a.len() != b.len() {
        return false;
    }
    let mut i: usize = 0;
    while i < a.len()
        invariant
            i <= a.len() == b.len(),
            forall|j: int| 0 <= j < i ==> a@[j] == b@[j],
        decreases a.len() - i,
    {
        if a[i] != b[i] {
            return false;
        }
        i = i + 1;
    }
    assert(a@ =~= b@);
    true
}

/// Whether the characters `a` spell the string `s`.
pub fn spells(a: &Vec<char>, s: &str) -> (r: bool)
    ensures
        r == (a@ == s@),
{
    let b = chars_of(s);
    same_chars(a, &b)
}

/// `c` with ASCII upper case letters mapped to lower case.
pub open spec fn lower_char(c: char) -> char {
    if 'A' <= c <= 'Z' {
        ((c as u32) + 32) as char
    } else {
        c
    }
}

/// `s` with ASCII upper case letters mapped to lower case.
pub open spec fn ascii_lower(s: Seq<char>) -> Seq<char> {
    s.map_values(|c: char| lower_char(c))
}

/// `v` with ASCII upper case letters mapped to lower case.
pub fn to_ascii_lower(v: &Vec<char>) -> (r: Vec<char>)
    ensures
        r@ == ascii_lower(v@),
{
    let mut r: Vec<char> = Vec::new();
    let mut i: usize = 0;
    while i < v.len()
        invariant
            i <= v.len(),
            r@ == ascii_lower(v@.take(i as int)),
        decreases v.len() - i,
    {
        let c = v[i];
        let l = if 'A' <= c && c <= 'Z' {
            let u = (c as u32) + 32;
            assert(u <= 0x7f);
            (u as u8) as char
        } else {
            c
        };
        r.push(l);
        i = i + 1;
        assert(ascii_lower(v@.take(i as int)) =~= ascii_lower(v@.take((i - 1) as int)).push(
            lower_char(v@[i - 1]),
        ));
    }
    assert(v@.take(v.len() as int) == v@);
    r
}

/// Strict lexicographic order of character sequences, by code point; it is
/// the order of `str`, whose UTF-8 bytes sort as their code points do.
pub open spec fn seq_lt(a: Seq<char>, b: Seq<char>) -> bool
    decreases a.len(),
{
    if a.len() == 0 {
        b.len() > 0
    } else if b.len() == 0 {
        false
    } else if (a[0] as u32) < (b[0] as u32) {
        true
    } else if (a[0] as u32) > (b[0] as u32) {
        false
    } else {
        seq_lt(a.drop_first(), b.drop_first())
    }
}

/// Whether `a` sorts strictly before `b`.
pub fn chars_lt(a: &Vec<char>, b: &Vec<char>) -> (r: bool)
    ensures
        r == seq_lt(a@, b@),
{
    let mut i: usize = 0;
    assert(a@.skip(0) == a@);
    assert(b@.skip(0) == b@);
    while i < a.len() && i < b.len()
        invariant
            i <= a.len(),
            i <= b.len(),
            seq_lt(a@, b@) == seq_lt(a@.skip(i as int), b@.skip(i as int)),
        decreases a.len() - i,
    {
        let x = a[i] as u32;
        let y = b[i] as u32;
        proof {
            let sa = a@.skip(i as int);
            let sb = b@.skip(i as int);
            assert(sa[0] == a@[i as int]);
            assert(sb[0] == b@[i as int]);
            assert(sa.drop_first() == a@.skip(i + 1));
            assert(sb.drop_first() == b@.skip(i + 1));
        }
        if x < y {
            return true;
        }
        if x > y {
            return false;
        }
        i = i + 1;
    }
    proof {
        let sa = a@.skip(i as int);
        let sb = b@.skip(i as int);
        assert(sa.len() == a.len() - i);
        assert(sb.len() == b.len() - i);
    }
    i == a.len() && i < b.len()
}

/// Name for the result of `str::to_lowercase`: the Unicode lower-case
/// mapping of every character.
pub uninterp spec fn unicode_lowercase(s: Seq<char>) -> Seq<char>;

/// `s` in lower case, as `str::to_lowercase` maps it.
#[verifier::external_body]
pub fn to_lowercase(s: &str) -> (r: String)
    ensures
        r@ == unicode_lowercase(s@),
{
    s.to_lowercase()
}

/// Name for the result of `char::is_alphanumeric`: whether the character
/// has the Unicode `Alphabetic` or `Numeric` property.
pub uninterp spec fn unicode_alphanumeric(c: char) -> bool;

/// Whether `c` is alphabetic or numeric, as `char::is_alphanumeric` tells.
#[verifier::external_body]
pub fn is_alphanumeric(c: char) -> (b: bool)
    ensures
        b == unicode_alphanumeric(c),
{
    c.is_alphanumeric()
}

// ---------------------------------------------------------------------------
// UTF-8 offsets
// ---------------------------------------------------------------------------

/// Encoding a concatenation concatenates the encodings.
pub proof fn lemma_encode_concat(a: Seq<char>, b: Seq<char>)
    ensures
        encode_utf8(a + b) == encode_utf8(a) + encode_utf8(b),
    decreases a.len(),
{
    if a.len() == 0 {
        assert(a + b == b);
    } else {
        assert((a + b).drop_first() == a.drop_first() + b);
        assert((a + b)[0] == a[0]);
        lemma_encode_concat(a.drop_first(), b);
    }
}

/// Byte length of the UTF-8 encoding of `s`.
pub open spec fn enc_len(s: Seq<char>) -> nat {
    encode_utf8(s).len()
}

/// A byte offset that falls between two characters of `s` (or at its ends).
pub open spec fn is_boundary(s: Seq<char>, b: int) -> bool {
    exists|k: int| 0 <= k <= s.len() && enc_len(s.take(k)) == b
}

/// The character index at byte offset `b`, for a boundary.
pub open spec fn char_index(s: Seq<char>, b: int) -> int {
    choose|k: int| 0 <= k <= s.len() && enc_len(s.take(k)) == b
}

/// Every character takes at least one byte.
pub proof fn lemma_enc_len_step(s: Seq<char>, k: int)
    requires
        0 <= k < s.len(),
    ensures
        enc_len(s.take(k + 1)) == enc_len(s.take(k)) + encode_scalar(s[k] as u32).len(),
        enc_len(s.take(k + 1)) > enc_len(s.take(k)),
{
    assert(s.take(k + 1) == s.take(k) + seq![s[k]]);
    lemma_encode_concat(s.take(k), seq![s[k]]);
    assert(seq![s[k]].drop_first() == Seq::<char>::empty());
    assert(encode_utf8(seq![s[k]]) == encode_scalar(s[k] as u32) + encode_utf8(
        Seq::<char>::empty(),
    ));
    assert(encode_scalar(s[k] as u32).len() >= 1);
}

/// Byte offsets grow strictly with character indices.
pub proof fn lemma_enc_len_mono(s: Seq<char>, i: int, j: int)
    requires
        0 <= i < j <= s.len(),
    ensures
        enc_len(s.take(i)) < enc_len(s.take(j)),
    decreases j - i,
{
    lemma_enc_len_step(s, j - 1);
    if i < j - 1 {
        lemma_enc_len_mono(s, i, j - 1);
    }
}

/// The character index of a boundary is the unique one with that offset.
pub proof fn lemma_char_index(s: Seq<char>, k: int)
    requires
        0 <= k <= s.len(),
    ensures
        is_boundary(s, enc_len(s.take(k)) as int),
        char_index(s, enc_len(s.take(k)) as int) == k,
{
    let b = enc_len(s.take(k)) as int;
    assert(0 <= k <= s.len() && enc_len(s.take(k)) == b);
    let c = char_index(s, b);
    if c < k {
        lemma_enc_len_mono(s, c, k);
    } else if c > k {
        lemma_enc_len_mono(s, k, c);
    }
}

/// The whole encoding is as long as the string's bytes.
pub proof fn lemma_enc_len_prefix(s: Seq<char>, k: int)
    requires
        0 <= k <= s.len(),
    ensures
        enc_len(s.take(k)) <= enc_len(s),
{
    if k < s.len() {
        lemma_enc_len_mono(s, k, s.len() as int);
    }
    assert(s.take(s.len() as int) == s);
}

/// Number of bytes of the UTF-8 encoding of `c`.
pub fn utf8_width(c: char) -> (w: usize)
    ensures
        w == encode_scalar(c as u32).len(),
{
    proof {
        vstd::utf8::char_is_scalar(c);
    }
    let u = c as u32;
    if u <= 0x7f {
        1
    } else if u <= 0x7ff {
        2
    } else if u <= 0xffff {
        3
    } else {
        4
    }
}

/// Byte offset of every character index of `s`, the length included.
pub fn byte_offsets(s: &str) -> (r: (Vec<char>, Vec<usize>))
    ensures
        r.0@ == s@,
        r.1@.len() == s@.len() + 1,
        forall|k: int| 0 <= k <= s@.len() ==> #[trigger] r.1@[k] == enc_len(s@.take(k)),
{
    let cs = chars_of(s);
    let bytes = s.as_bytes();
    let total = bytes.len();
    assert(bytes@ == encode_utf8(s@));
    let mut off: Vec<usize> = Vec::new();
    off.push(0);
    assert(s@.take(0) =~= Seq::<char>::empty());
    let mut k: usize = 0;
    while k < cs.len()
        invariant
            k <= cs.len(),
            cs@ == s@,
            total == enc_len(s@),
            off@.len() == k + 1,
            forall|j: int| 0 <= j <= k ==> #[trigger] off@[j] == enc_len(s@.take(j)),
        decreases cs.len() - k,
    {
        let w = utf8_width(cs[k]);
        proof {
            lemma_enc_len_step(s@, k as int);
            lemma_enc_len_prefix(s@, k + 1);
        }
        let next = off[k] + w;
        off.push(next);
        k = k + 1;
    }
    (cs, off)
}

/// Index of the character that begins at byte `b`, if one does.
pub fn char_at_byte(off: &Vec<usize>, b: usize) -> (r: Option<usize>)
    ensures
        r matches Some(k) ==> k < off@.len() && off@[k as int] == b,
        r is None ==> forall|k: int| 0 <= k < off@.len() ==> off@[k] != b,
{
    let mut k: usize = 0;
    while k < off.len()
        invariant
            k <= off@.len(),
            forall|j: int| 0 <= j < k ==> off@[j] != b,
        decreases off.len() - k,
    {
        if off[k] == b {
            return Some(k);
        }
        k = k + 1;
    }
    None
}

/// The characters between the byte offsets `a` and `b` of `s`, as
/// `str::get(a..b)` gives them: none unless `a <= b` and both fall between
/// characters.
pub open spec fn byte_substring(s: Seq<char>, a: int, b: int) -> Option<Seq<char>> {
    if a <= b && is_boundary(s, a) && is_boundary(s, b) {
        Some(s.subrange(char_index(s, a), char_index(s, b)))
    } else {
        None
    }
}

/// The characters between the byte offsets `a` and `b` of `s`, if both
/// fall between characters and `a <= b`.
pub fn get_bytes(s: &str, a: usize, b: usize) -> (r: Option<Vec<char>>)
    ensures
        match byte_substring(s@, a as int, b as int) {
            Some(t) => r matches Some(v) && v@ == t,
            None => r is None,
        },
{
    let (cs, off) = byte_offsets(s);
    if a > b {
        return None;
    }
    let ka = match char_at_byte(&off, a) {
        Some(k) => k,
        None => {
            proof {
                if is_boundary(s@, a as int) {
                    let k = choose|k: int| 0 <= k <= s@.len() && enc_len(s@.take(k)) == a;
                    assert(off@[k] == a);
                }
            }
            return None;
        },
    };
    let kb = match char_at_byte(&off, b) {
        Some(k) => k,
        None => {
            proof {
                if is_boundary(s@, b as int) {
                    let k = choose|k: int| 0 <= k <= s@.len() && enc_len(s@.take(k)) == b;
                    assert(off@[k] == b);
                }
            }
            return None;
        },
    };
    proof {
        lemma_char_index(s@, ka as int);
        lemma_char_index(s@, kb as int);
        if kb < ka {
            lemma_enc_len_mono(s@, kb as int, ka as int);
        }
    }
    Some(slice(&cs, ka, kb))
}


} // verus!
