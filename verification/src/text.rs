//! Shared text primitives: hexadecimal digits and numerals, Latin-1
//! representability, whitespace trimming, and the bridges between `String`
//! values and their character/byte sequences.

use vstd::prelude::*;

verus! {

// ---------------------------------------------------------------------------
// Hexadecimal digits
// ---------------------------------------------------------------------------

/// Is `c` a hexadecimal digit (either case)?
pub open spec fn is_hex_digit(c: char) -> bool {
    ('0' <= c && c <= '9') || ('a' <= c && c <= 'f') || ('A' <= c && c <= 'F')
}

/// Numeric value of a hexadecimal digit.
pub open spec fn hex_digit_value(c: char) -> u8
    recommends
        is_hex_digit(c),
{
    if '0' <= c && c <= '9' {
        ((c as int) - ('0' as int)) as u8
    } else if 'a' <= c && c <= 'f' {
        ((c as int) - ('a' as int) + 10) as u8
    } else if 'A' <= c && c <= 'F' {
        ((c as int) - ('A' as int) + 10) as u8
    } else {
        0
    }
}

/// The lowercase hexadecimal digit for a value below 16.
pub open spec fn hex_char(v: u8) -> char
    recommends
        v < 16,
{
    if v < 10 {
        ((('0' as int) + v) as u8) as char
    } else {
        ((('a' as int) + v - 10) as u8) as char
    }
}

/// If `c` is a hexadecimal digit, its value; `None` otherwise.
pub fn hex_digit(c: char) -> (r: Option<u8>)
    ensures
        r is Some <==> is_hex_digit(c),
        r is Some ==> r->0 == hex_digit_value(c) && r->0 < 16,
{
    if '0' <= c && c <= '9' {
        Some((c as u8) - ('0' as u8))
    } else if 'a' <= c && c <= 'f' {
        Some((c as u8) - ('a' as u8) + 10)
    } else if 'A' <= c && c <= 'F' {
        Some((c as u8) - ('A' as u8) + 10)
    } else {
        None
    }
}

/// The lowercase hexadecimal digit for `v < 16`.
pub fn hex_digit_char(v: u8) -> (r: char)
    requires
        v < 16,
    ensures
        r == hex_char(v),
        is_hex_digit(r),
        hex_digit_value(r) == v,
{
    if v < 10 {
        (('0' as u8) + v) as char
    } else {
        (('a' as u8) + v - 10) as char
    }
}

// ---------------------------------------------------------------------------
// Hexadecimal numerals
// ---------------------------------------------------------------------------

/// Every character of `s` is a hexadecimal digit.
pub open spec fn all_hex_digits(s: Seq<char>) -> bool {
    forall|i: int| 0 <= i < s.len() ==> is_hex_digit(#[trigger] s[i])
}

/// The number denoted by a sequence of hexadecimal digits, most significant
/// first.
pub open spec fn hex_value(s: Seq<char>) -> nat
    decreases s.len(),
{
    if s.len() == 0 {
        0
    } else {
        (hex_value(s.drop_last()) * 16 + hex_digit_value(s.last())) as nat
    }
}

/// Is `s` a hexadecimal numeral whose value fits in a `u32`?
pub open spec fn is_hex_numeral_u32(s: Seq<char>) -> bool {
    s.len() > 0 && all_hex_digits(s) && hex_value(s) <= u32::MAX
}

/// Extending a digit string multiplies its value and adds the new digit.
proof fn lemma_hex_value_step(s: Seq<char>, i: int)
    requires
        0 <= i < s.len(),
    ensures
        hex_value(s.take(i + 1)) == hex_value(s.take(i)) * 16 + hex_digit_value(s[i]),
{
    assert(s.take(i + 1).drop_last() =~= s.take(i));
    assert(s.take(i + 1).last() == s[i]);
}

/// A digit string's value never falls below the value of any prefix.
proof fn lemma_hex_value_prefix_le(s: Seq<char>, i: int)
    requires
        0 <= i <= s.len(),
    ensures
        hex_value(s.take(i)) <= hex_value(s),
    decreases s.len() - i,
{
    if i == s.len() {
        assert(s.take(i) =~= s);
    } else {
        lemma_hex_value_step(s, i);
        lemma_hex_value_prefix_le(s, i + 1);
    }
}

/// Parses the characters `s[start..end]` as a hexadecimal numeral.
///
/// Returns `None` exactly when the range is empty, holds a non-digit, or
/// denotes a value above `u32::MAX`.
pub fn parse_hex_u32(s: &Vec<char>, start: usize, end: usize) -> (r: Option<u32>)
    requires
        start <= end <= s@.len(),
    ensures
        r is Some <==> is_hex_numeral_u32(s@.subrange(start as int, end as int)),
        r is Some ==> r->0 == hex_value(s@.subrange(start as int, end as int)),
{
    let ghost digits = s@.subrange(start as int, end as int);
    if start == end {
        return None;
    }
    let mut acc: u32 = 0;
    let mut i: usize = start;
    while i < end
        invariant
            start <= i <= end <= s@.len(),
            digits == s@.subrange(start as int, end as int),
            all_hex_digits(digits.take(i - start)),
            acc == hex_value(digits.take(i - start)),
        decreases end - i,
    {
        let c = s[i];
        proof {
            assert(digits[i - start] == s@[i as int]);
        }
        match hex_digit(c) {
            None => {
                proof {
                    assert(!is_hex_digit(digits[i - start]));
                }
                return None;
            },
            Some(d) => {
                if acc > (u32::MAX - (d as u32)) / 16 {
                    proof {
                        lemma_hex_value_step(digits, i - start);
                        lemma_hex_value_prefix_le(digits, i - start + 1);
                        assert(hex_value(digits) > u32::MAX);
                    }
                    return None;
                }
                proof {
                    lemma_hex_value_step(digits, i - start);
                }
                acc = acc * 16 + (d as u32);
                i = i + 1;
            },
        }
    }
    proof {
        assert(digits.take(end - start) =~= digits);
    }
    Some(acc)
}

// ---------------------------------------------------------------------------
// Hexadecimal formatting
// ---------------------------------------------------------------------------

/// The lowercase hexadecimal digits of `v`, most significant first, with no
/// leading zero (a single `0` for zero itself).
pub open spec fn hex_digits_of(v: nat) -> Seq<char>
    decreases v,
{
    if v < 16 {
        seq![hex_char(v as u8)]
    } else {
        hex_digits_of(v / 16).push(hex_char((v % 16) as u8))
    }
}

/// `s` padded on the left with `'0'` up to width `w`.
pub open spec fn zero_pad(s: Seq<char>, w: int) -> Seq<char> {
    if s.len() >= w {
        s
    } else {
        Seq::new((w - s.len()) as nat, |i: int| '0') + s
    }
}

/// The version numeral both codecs write: lowercase hexadecimal, zero-padded
/// to at least six digits.
pub open spec fn u32_hex_min6(v: u32) -> Seq<char> {
    zero_pad(hex_digits_of(v as nat), 6)
}

/// Appends the bare hexadecimal digits of `v` to `out`.
fn push_hex_digits(out: &mut Vec<char>, v: u32)
    ensures
        final(out)@ == old(out)@ + hex_digits_of(v as nat),
    decreases v,
{
    if v < 16 {
        out.push(hex_digit_char(v as u8));
    } else {
        push_hex_digits(out, v / 16);
        out.push(hex_digit_char((v % 16) as u8));
        proof {
            assert(out@ =~= old(out)@ + hex_digits_of(v as nat));
        }
    }
}

/// Appends the six-or-more digit version numeral of `v` to `out`.
pub fn push_hex_u32_min6(out: &mut Vec<char>, v: u32)
    ensures
        final(out)@ == old(out)@ + u32_hex_min6(v),
{
    let mut digits: Vec<char> = Vec::new();
    push_hex_digits(&mut digits, v);
    let ghost ds = digits@;
    let mut pad: usize = 0;
    if digits.len() < 6 {
        pad = 6 - digits.len();
    }
    let ghost p = pad as int;
    let mut k: usize = 0;
    while k < pad
        invariant
            p == pad,
            0 <= k <= p,
            out@ == old(out)@ + Seq::new(k as nat, |i: int| '0'),
        decreases pad - k,
    {
        out.push('0');
        proof {
            assert(out@ =~= old(out)@ + Seq::new((k + 1) as nat, |i: int| '0'));
        }
        k = k + 1;
    }
    let mut j: usize = 0;
    while j < digits.len()
        invariant
            0 <= j <= ds.len(),
            digits@ == ds,
            out@ == old(out)@ + Seq::new(p as nat, |i: int| '0') + ds.take(j as int),
        decreases digits.len() - j,
    {
        out.push(digits[j]);
        proof {
            assert(out@ =~= old(out)@ + Seq::new(p as nat, |i: int| '0') + ds.take(j + 1));
        }
        j = j + 1;
    }
    proof {
        assert(ds.take(ds.len() as int) =~= ds);
        if ds.len() >= 6 {
            assert(Seq::new(0, |i: int| '0') =~= Seq::<char>::empty());
            assert(out@ =~= old(out)@ + u32_hex_min6(v));
        } else {
            assert(out@ =~= old(out)@ + u32_hex_min6(v));
        }
    }
}

// ---------------------------------------------------------------------------
// Latin-1
// ---------------------------------------------------------------------------

/// Can `c` be stored as a single Latin-1 byte?
pub open spec fn is_latin1_char(c: char) -> bool {
    (c as int) < 256
}

/// Is every character of `s` Latin-1-representable?
pub open spec fn is_latin1(s: Seq<char>) -> bool {
    forall|i: int| 0 <= i < s.len() ==> is_latin1_char(#[trigger] s[i])
}

/// The Latin-1 byte of a Latin-1 character.
pub open spec fn latin1_byte(c: char) -> u8
    recommends
        is_latin1_char(c),
{
    (c as int) as u8
}

/// The Latin-1 bytes of a Latin-1 string.
pub open spec fn latin1_bytes(s: Seq<char>) -> Seq<u8> {
    s.map_values(|c: char| latin1_byte(c))
}

/// The characters a Latin-1 byte sequence denotes.
pub open spec fn latin1_chars(bs: Seq<u8>) -> Seq<char> {
    bs.map_values(|b: u8| b as char)
}

/// Interpreting Latin-1 bytes as characters inverts taking the bytes.
pub proof fn lemma_latin1_roundtrip(s: Seq<char>)
    requires
        is_latin1(s),
    ensures
        latin1_chars(latin1_bytes(s)) == s,
{
    assert forall|i: int| 0 <= i < s.len() implies latin1_chars(latin1_bytes(s))[i] == s[i] by {
        assert(is_latin1_char(s[i]));
        vstd::utf8::char_u32_cast(s[i], s[i] as u32);
        assert((latin1_byte(s[i]) as char) == s[i]);
    }
    assert(latin1_chars(latin1_bytes(s)) =~= s);
}

// ---------------------------------------------------------------------------
// Whitespace and trimming
// ---------------------------------------------------------------------------

/// Is `c` one of the characters with the Unicode `White_Space` property,
/// the set `str::trim` removes?
pub open spec fn is_space_char(c: char) -> bool {
    c == ' ' || c == '\t' || c == '\n' || c == '\r' || c == '\u{b}' || c == '\u{c}' || c
        == '\u{85}' || c == '\u{a0}' || c == '\u{1680}' || ('\u{2000}' <= c && c <= '\u{200a}') || c
        == '\u{2028}' || c == '\u{2029}' || c == '\u{202f}' || c == '\u{205f}' || c == '\u{3000}'
}

/// Does `c` have the Unicode `White_Space` property?
pub fn is_space(c: char) -> (r: bool)
    ensures
        r == is_space_char(c),
{
    c == ' ' || c == '\t' || c == '\n' || c == '\r' || c == '\u{b}' || c == '\u{c}' || c
        == '\u{85}' || c == '\u{a0}' || c == '\u{1680}' || ('\u{2000}' <= c && c <= '\u{200a}') || c
        == '\u{2028}' || c == '\u{2029}' || c == '\u{202f}' || c == '\u{205f}' || c == '\u{3000}'
}

/// `s` with every leading and trailing whitespace character removed.
pub open spec fn trimmed(s: Seq<char>) -> Seq<char>
    decreases s.len(),
{
    if s.len() == 0 {
        s
    } else if is_space_char(s[0]) {
        trimmed(s.drop_first())
    } else if is_space_char(s.last()) {
        trimmed(s.drop_last())
    } else {
        s
    }
}

/// Trimming never lengthens a string.
pub proof fn lemma_trimmed_len(s: Seq<char>)
    ensures
        trimmed(s).len() <= s.len(),
    decreases s.len(),
{
    if s.len() == 0 {
    } else if is_space_char(s[0]) {
        lemma_trimmed_len(s.drop_first());
    } else if is_space_char(s.last()) {
        lemma_trimmed_len(s.drop_last());
    }
}

/// The trimmed string is the subrange between the outermost non-space
/// characters.
proof fn lemma_trimmed_subrange(s: Seq<char>, a: int, b: int)
    requires
        0 <= a <= b <= s.len(),
        forall|i: int| 0 <= i < a ==> is_space_char(#[trigger] s[i]),
        forall|i: int| b <= i < s.len() ==> is_space_char(#[trigger] s[i]),
        a < b ==> !is_space_char(s[a]) && !is_space_char(s[b - 1]),
        a == b ==> a == s.len(),
    ensures
        trimmed(s) == s.subrange(a, b),
    decreases s.len(),
{
    if s.len() == 0 {
        assert(trimmed(s) =~= s.subrange(a, b));
    } else if a == b {
        // every character is whitespace
        assert(is_space_char(s[0]));
        lemma_trimmed_subrange(s.drop_first(), a - 1, b - 1);
        assert(trimmed(s) == s.drop_first().subrange(a - 1, b - 1));
        assert(trimmed(s) =~= s.subrange(a, b));
    } else if a > 0 {
        assert(is_space_char(s[0]));
        assert(forall|i: int| 0 <= i < a - 1 ==> is_space_char(#[trigger] s.drop_first()[i]));
        assert(forall|i: int|
            b - 1 <= i < s.drop_first().len() ==> is_space_char(#[trigger] s.drop_first()[i]));
        lemma_trimmed_subrange(s.drop_first(), a - 1, b - 1);
        assert(trimmed(s) =~= s.subrange(a, b));
    } else if b < s.len() {
        assert(is_space_char(s.last()));
        assert(!is_space_char(s[0]));
        assert(forall|i: int|
            b <= i < s.drop_last().len() ==> is_space_char(#[trigger] s.drop_last()[i]));
        lemma_trimmed_subrange(s.drop_last(), a, b);
        assert(trimmed(s) =~= s.subrange(a, b));
    } else {
        assert(!is_space_char(s[0]) && !is_space_char(s.last()));
        assert(trimmed(s) =~= s.subrange(a, b));
    }
}

/// A string that is its own trim neither starts nor ends with whitespace.
pub proof fn lemma_trimmed_fixed(s: Seq<char>)
    requires
        trimmed(s) == s,
        s.len() > 0,
    ensures
        !is_space_char(s[0]),
        !is_space_char(s.last()),
{
    if is_space_char(s[0]) {
        lemma_trimmed_len(s.drop_first());
        assert(false);
    }
    if is_space_char(s.last()) {
        lemma_trimmed_len(s.drop_last());
        assert(false);
    }
}

/// A trim-fixed string padded with trailing spaces trims back to itself.
pub proof fn lemma_trimmed_pad(s: Seq<char>, n: nat)
    requires
        trimmed(s) == s,
    ensures
        trimmed(s + Seq::new(n, |i: int| ' ')) == s,
{
    let t = s + Seq::new(n, |i: int| ' ');
    if s.len() == 0 {
        lemma_trimmed_subrange(t, n as int, n as int);
        assert(trimmed(t) =~= s);
    } else {
        lemma_trimmed_fixed(s);
        lemma_trimmed_subrange(t, 0, s.len() as int);
        assert(trimmed(t) =~= s);
    }
}

/// The characters of `s[start..end]` with surrounding whitespace removed.
pub fn trim_range(s: &Vec<char>, start: usize, end: usize) -> (r: Vec<char>)
    requires
        start <= end <= s@.len(),
    ensures
        r@ == trimmed(s@.subrange(start as int, end as int)),
{
    let ghost sub = s@.subrange(start as int, end as int);
    let mut a: usize = start;
    while a < end && is_space(s[a])
        invariant
            start <= a <= end <= s@.len(),
            forall|i: int| start <= i < a ==> is_space_char(#[trigger] s@[i]),
        decreases end - a,
    {
        a = a + 1;
    }
    let mut b: usize = end;
    while b > a && is_space(s[b - 1])
        invariant
            start <= a <= b <= end <= s@.len(),
            forall|i: int| b <= i < end ==> is_space_char(#[trigger] s@[i]),
        decreases b,
    {
        b = b - 1;
    }
    let mut r: Vec<char> = Vec::new();
    let mut i: usize = a;
    while i < b
        invariant
            a <= i <= b <= s@.len(),
            r@ == s@.subrange(a as int, i as int),
        decreases b - i,
    {
        r.push(s[i]);
        proof {
            assert(r@ =~= s@.subrange(a as int, i + 1));
        }
        i = i + 1;
    }
    proof {
        assert(forall|i: int| 0 <= i < a - start ==> is_space_char(#[trigger] sub[i]));
        assert(forall|i: int| b - start <= i < sub.len() ==> is_space_char(#[trigger] sub[i]));
        lemma_trimmed_subrange(sub, a - start, b - start);
        assert(r@ =~= sub.subrange(a - start, b - start));
    }
    r
}

// ---------------------------------------------------------------------------
// Line splitting
// ---------------------------------------------------------------------------

/// Index of the first `'\n'` in `s`, or `s.len()` if there is none.
pub open spec fn newline_idx(s: Seq<char>) -> int
    decreases s.len(),
{
    if s.len() == 0 {
        0
    } else if s[0] == '\n' {
        0
    } else {
        1 + newline_idx(s.drop_first())
    }
}

/// `l` without one trailing carriage return, if it has one.
pub open spec fn strip_cr(l: Seq<char>) -> Seq<char> {
    if l.len() > 0 && l.last() == '\r' {
        l.drop_last()
    } else {
        l
    }
}

/// `newline_idx` stays within the string.
pub proof fn lemma_newline_idx_bounds(s: Seq<char>)
    ensures
        0 <= newline_idx(s) <= s.len(),
    decreases s.len(),
{
    if s.len() > 0 && s[0] != '\n' {
        lemma_newline_idx_bounds(s.drop_first());
    }
}

/// The lines of `s`, as `str::lines` splits them: terminated by `'\n'` or
/// `"\r\n"`, the final line ending optional.
pub open spec fn str_lines(s: Seq<char>) -> Seq<Seq<char>>
    decreases s.len(),
    via str_lines_decreases
{
    if s.len() == 0 {
        Seq::empty()
    } else {
        let j = newline_idx(s);
        if j == s.len() {
            seq![s]
        } else {
            seq![strip_cr(s.take(j))] + str_lines(s.skip(j + 1))
        }
    }
}

#[via_fn]
proof fn str_lines_decreases(s: Seq<char>) {
    lemma_newline_idx_bounds(s);
}

/// `newline_idx` is characterized by a left-to-right scan.
pub proof fn lemma_newline_idx_at(s: Seq<char>, m: int)
    requires
        0 <= m <= s.len(),
        forall|k: int| 0 <= k < m ==> s[k] != '\n',
        m < s.len() ==> s[m] == '\n',
    ensures
        newline_idx(s) == m,
    decreases s.len(),
{
    if s.len() == 0 {
    } else if s[0] == '\n' {
    } else {
        lemma_newline_idx_at(s.drop_first(), m - 1);
    }
}

/// Splits `s[..]` into its lines.
pub fn split_lines(s: &Vec<char>) -> (r: Vec<Vec<char>>)
    ensures
        r@.len() == str_lines(s@).len(),
        forall|i: int| 0 <= i < r@.len() ==> #[trigger] r@[i]@ == str_lines(s@)[i],
{
    let n = s.len();
    let mut r: Vec<Vec<char>> = Vec::new();
    let ghost mut seen: Seq<Seq<char>> = Seq::empty();
    proof {
        assert(s@.skip(0) =~= s@);
        assert(seen + str_lines(s@) =~= str_lines(s@));
    }
    let mut i: usize = 0;
    while i < n
        invariant
            0 <= i <= n == s@.len(),
            seen + str_lines(s@.skip(i as int)) == str_lines(s@),
            r@.len() == seen.len(),
            forall|k: int| 0 <= k < r@.len() ==> #[trigger] r@[k]@ == seen[k],
        decreases n - i,
    {
        let ghost rest = s@.skip(i as int);
        let mut j: usize = i;
        while j < n && s[j] != '\n'
            invariant
                i <= j <= n == s@.len(),
                forall|k: int| i <= k < j ==> s@[k] != '\n',
            decreases n - j,
        {
            j = j + 1;
        }
        proof {
            assert forall|k: int| 0 <= k < j - i implies rest[k] != '\n' by {
                assert(rest[k] == s@[i + k]);
            }
            if j < n {
                assert(rest[j - i] == s@[j as int]);
            }
            lemma_newline_idx_at(rest, j - i);
        }
        let mut line: Vec<char> = Vec::new();
        let mut k: usize = i;
        while k < j
            invariant
                i <= k <= j <= s@.len(),
                line@ == s@.subrange(i as int, k as int),
            decreases j - k,
        {
            line.push(s[k]);
            proof {
                assert(line@ =~= s@.subrange(i as int, k + 1));
            }
            k = k + 1;
        }
        proof {
            assert(line@ =~= rest.take(j - i));
        }
        if j < n {
            // a line ending was found: strip one optional carriage return
            if line.len() > 0 && line[line.len() - 1] == '\r' {
                line.pop();
            }
            proof {
                assert(line@ =~= strip_cr(rest.take(j - i)));
                assert(rest.skip(j - i + 1) =~= s@.skip(j + 1));
                assert(str_lines(rest) == seq![line@] + str_lines(s@.skip(j + 1)));
                seen = seen.push(line@);
                assert(seen + str_lines(s@.skip(j + 1)) =~= str_lines(s@));
            }
            r.push(line);
            i = j + 1;
        } else {
            proof {
                assert(line@ =~= rest);
                assert(str_lines(rest) == seq![line@]);
                seen = seen.push(line@);
                assert(s@.skip(n as int) =~= Seq::<char>::empty());
                assert(seen + str_lines(s@.skip(n as int)) =~= str_lines(s@));
            }
            r.push(line);
            i = n;
        }
    }
    proof {
        assert(s@.skip(n as int) =~= Seq::<char>::empty());
        assert(seen =~= str_lines(s@));
    }
    r
}

// ---------------------------------------------------------------------------
// Bridges between strings, characters and bytes
// ---------------------------------------------------------------------------

/// The characters of `s`, one by one.
pub fn str_chars(s: &str) -> (r: Vec<char>)
    ensures
        r@ == s@,
{
    let n = s.unicode_len();
    let mut r: Vec<char> = Vec::new();
    let mut i: usize = 0;
    while i < n
        invariant
            0 <= i <= n == s@.len(),
            r@ == s@.take(i as int),
        decreases n - i,
    {
        r.push(s.get_char(i));
        proof {
            assert(r@ =~= s@.take(i + 1));
        }
        i = i + 1;
    }
    proof {
        assert(s@.take(n as int) =~= s@);
    }
    r
}

/// Character-by-character string equality.
pub fn str_eq(a: &str, b: &str) -> (r: bool)
    ensures
        r == (a@ == b@),
{
    let n = a.unicode_len();
    let m = b.unicode_len();
    if n != m {
        return false;
    }
    let mut i: usize = 0;
    while i < n
        invariant
            0 <= i <= n == a@.len() == b@.len(),
            forall|j: int| 0 <= j < i ==> a@[j] == b@[j],
        decreases n - i,
    {
        if a.get_char(i) != b.get_char(i) {
            return false;
        }
        i = i + 1;
    }
    proof {
        assert(a@ =~= b@);
    }
    true
}

/// Relies on `String`'s `FromIterator<char>` implementation: collecting
/// characters yields the string of exactly those characters.
#[verifier::external_body]
pub fn chars_to_string(v: &Vec<char>) -> (r: String)
    ensures
        r@ == v@,
{
    v.iter().collect()
}

#[verifier::external_type_specification]
#[verifier::external_body]
pub struct ExFromUtf8Error(std::string::FromUtf8Error);

/// Relies on `String::from_utf8`: it succeeds exactly on valid UTF-8 input
/// and returns the string of the decoded characters.
#[verifier::external_body]
pub fn string_from_utf8(v: Vec<u8>) -> (r: Result<String, std::string::FromUtf8Error>)
    ensures
        r is Ok <==> vstd::utf8::valid_utf8(v@),
        r is Ok ==> (r->Ok_0)@ == vstd::utf8::decode_utf8(v@),
{
    String::from_utf8(v)
}

} // verus!
