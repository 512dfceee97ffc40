//! Character-level text helpers shared by every parser and formatter in the
//! crate. Text is modelled as its sequence of Unicode scalar values (`Seq<char>`).

use vstd::prelude::*;
use vstd::string::*;

verus! {

// ---------------------------------------------------------------------------
// Characters
// ---------------------------------------------------------------------------

/// An ASCII decimal digit.
pub open spec fn is_digit(c: char) -> bool {
    48 <= (c as u32) && (c as u32) <= 57
}

/// An ASCII upper-case letter.
pub open spec fn is_upper(c: char) -> bool {
    65 <= (c as u32) && (c as u32) <= 90
}

/// An ASCII lower-case letter.
pub open spec fn is_lower(c: char) -> bool {
    97 <= (c as u32) && (c as u32) <= 122
}

/// ASCII letters and digits.
pub open spec fn is_alnum(c: char) -> bool {
    is_digit(c) || is_upper(c) || is_lower(c)
}

/// What `char::to_ascii_lowercase` gives: A-Z mapped to a-z, all else kept.
pub open spec fn lower(c: char) -> char {
    if is_upper(c) {
        ((c as u32) + 32) as char
    } else {
        c
    }
}

/// `lower` applied to every character.
pub open spec fn lower_seq(s: Seq<char>) -> Seq<char> {
    Seq::new(s.len(), |i: int| lower(s[i]))
}

/// Equal once ASCII case is set aside (`str::eq_ignore_ascii_case`).
pub open spec fn eq_ic(a: Seq<char>, b: Seq<char>) -> bool {
    lower_seq(a) == lower_seq(b)
}

pub fn is_ascii_digit(c: char) -> (b: bool)
    ensures
        b == is_digit(c),
{
    let n = c as u32;
    48 <= n && n <= 57
}

pub fn is_ascii_alnum(c: char) -> (b: bool)
    ensures
        b == is_alnum(c),
{
    let n = c as u32;
    (48 <= n && n <= 57) || (65 <= n && n <= 90) || (97 <= n && n <= 122)
}

pub fn ascii_lower(c: char) -> (r: char)
    ensures
        r == lower(c),
{
    let n = c as u32;
    if 65 <= n && n <= 90 {
        let b: u8 = (n + 32) as u8;
        assert(b == n + 32);
        b as char
    } else {
        c
    }
}

// ---------------------------------------------------------------------------
// Between `str` and characters
// ---------------------------------------------------------------------------

/// The characters of `s`, in order.
pub fn chars_of(s: &str) -> (v: Vec<char>)
    ensures
        v@ == s@,
{
    let mut v: Vec<char> = Vec::new();
    for c in it: s.chars()
        invariant
            v@ == it.seq().take(it.index() as int),
            it.seq() == s@,
    {
        v.push(c);
    }
    v
}

/// `String::push`: appends one character.
#[verifier::external_body]
fn push_char(s: &mut String, c: char)
    ensures
        final(s)@ == old(s)@.push(c),
{
    s.push(c);
}

/// A string holding exactly the characters of `v`.
pub fn string_of(v: &[char]) -> (s: String)
    ensures
        s@ == v@,
{
    let mut s = String::new();
    let mut i: usize = 0;
    while i < v.len()
        invariant
            i <= v.len(),
            s@ == v@.take(i as int),
        decreases v.len() - i,
    {
        push_char(&mut s, v[i]);
        assert(v@.take(i as int).push(v@[i as int]) =~= v@.take(i + 1));
        i += 1;
    }
    assert(v@.take(v.len() as int) =~= v@);
    s
}

/// Appends every character of `tail` to `v`.
pub fn extend_chars(v: &mut Vec<char>, tail: &[char])
    ensures
        final(v)@ == old(v)@ + tail@,
{
    let mut i: usize = 0;
    while i < tail.len()
        invariant
            i <= tail.len(),
            v@ == old(v)@ + tail@.take(i as int),
        decreases tail.len() - i,
    {
        v.push(tail[i]);
        assert(old(v)@ + tail@.take(i + 1) =~= (old(v)@ + tail@.take(i as int)).push(tail@[i as int]));
        i += 1;
    }
    assert(tail@.take(tail.len() as int) =~= tail@);
}

/// The characters `v[from..to]` as a new vector.
pub fn slice_chars(v: &[char], from: usize, to: usize) -> (r: Vec<char>)
    requires
        from <= to <= v@.len(),
    ensures
        r@ == v@.subrange(from as int, to as int),
{
    let mut r: Vec<char> = Vec::new();
    let mut i: usize = from;
    while i < to
        invariant
            from <= i <= to <= v@.len(),
            r@ == v@.subrange(from as int, i as int),
        decreases to - i,
    {
        r.push(v[i]);
        assert(v@.subrange(from as int, i + 1) =~= v@.subrange(from as int, i as int).push(v@[i as int]));
        i += 1;
    }
    r
}

// ---------------------------------------------------------------------------
// Comparisons
// ---------------------------------------------------------------------------

/// `str::eq_ignore_ascii_case`, on characters.
pub fn eq_ignore_case(a: &[char], b: &[char]) -> (r: bool)
    ensures
        r == eq_ic(a@, b@),
{
    if a.len() != b.len() {
        assert(lower_seq(a@).len() != lower_seq(b@).len());
        return false;
    }
    let mut i: usize = 0;
    while i < a.len()
        invariant
            a@.len() == b@.len(),
            i <= a@.len(),
            forall|j: int| 0 <= j < i ==> lower(a@[j]) == lower(b@[j]),
        decreases a.len() - i,
    {
        if ascii_lower(a[i]) != ascii_lower(b[i]) {
            assert(lower_seq(a@)[i as int] != lower_seq(b@)[i as int]);
            return false;
        }
        i += 1;
    }
    assert(lower_seq(a@) =~= lower_seq(b@));
    true
}

/// `str::eq_ignore_ascii_case`.
pub fn str_eq_ignore_case(a: &str, b: &str) -> (r: bool)
    ensures
        r == eq_ic(a@, b@),
{
    let av = chars_of(a);
    let bv = chars_of(b);
    eq_ignore_case(av.as_slice(), bv.as_slice())
}

/// `s` begins with `p`.
pub open spec fn starts(s: Seq<char>, p: Seq<char>) -> bool {
    p.len() <= s.len() && s.subrange(0, p.len() as int) == p
}

/// `s` ends with `p`.
pub open spec fn ends(s: Seq<char>, p: Seq<char>) -> bool {
    p.len() <= s.len() && s.subrange(s.len() - p.len(), s.len() as int) == p
}

/// `p` occurs in `s` starting at `i`.
pub open spec fn occurs_at(s: Seq<char>, p: Seq<char>, i: int) -> bool {
    0 <= i && i + p.len() <= s.len() && s.subrange(i, i + p.len()) == p
}

/// `p` occurs somewhere in `s`.
pub open spec fn has_sub(s: Seq<char>, p: Seq<char>) -> bool {
    exists|i: int| occurs_at(s, p, i)
}

/// Does `s` hold `p` at position `i`?
pub fn matches_at(s: &[char], p: &[char], i: usize) -> (r: bool)
    ensures
        r == occurs_at(s@, p@, i as int),
{
    if i > s.len() || p.len() > s.len() - i {
        return false;
    }
    let n = s.len();
    let mut k: usize = 0;
    while k < p.len()
        invariant
            n == s@.len(),
            i + p@.len() <= n,
            k <= p@.len(),
            forall|j: int| 0 <= j < k ==> s@[i + j] == p@[j],
        decreases p.len() - k,
    {
        assert(i + k < n);
        if s[i + k] != p[k] {
            assert(s@.subrange(i as int, i + p@.len())[k as int] != p@[k as int]);
            return false;
        }
        k += 1;
    }
    assert(s@.subrange(i as int, i + p@.len()) =~= p@);
    true
}

pub fn starts_with(s: &[char], p: &[char]) -> (r: bool)
    ensures
        r == starts(s@, p@),
{
    matches_at(s, p, 0)
}

pub fn ends_with(s: &[char], p: &[char]) -> (r: bool)
    ensures
        r == ends(s@, p@),
{
    if p.len() > s.len() {
        return false;
    }
    matches_at(s, p, s.len() - p.len())
}

pub fn contains(s: &[char], p: &[char]) -> (r: bool)
    ensures
        r == has_sub(s@, p@),
{
    if p.len() > s.len() {
        assert forall|i: int| !occurs_at(s@, p@, i) by {}
        return false;
    }
    if p.len() == 0 {
        assert(s@.subrange(0, 0) =~= p@);
        assert(occurs_at(s@, p@, 0));
        return true;
    }
    let n = s.len();
    let last = n - p.len();
    let mut i: usize = 0;
    while i <= last
        invariant
            n == s@.len(),
            p@.len() > 0,
            last == n - p@.len(),
            i <= last + 1,
            forall|j: int| 0 <= j < i ==> !occurs_at(s@, p@, j),
        decreases last + 1 - i,
    {
        if matches_at(s, p, i) {
            return true;
        }
        i += 1;
    }
    assert forall|j: int| !occurs_at(s@, p@, j) by {
        if 0 <= j && j + p@.len() <= s@.len() {
            assert(j < i);
        }
    }
    false
}

// ---------------------------------------------------------------------------
// Decimal numbers
// ---------------------------------------------------------------------------

/// The digit character for `d < 10`.
pub open spec fn digit_char(d: nat) -> char {
    (48 + d) as char
}

/// The decimal rendering of `n`, as `u64`'s `Display` writes it: no sign, no
/// leading zeros, "0" for zero.
pub open spec fn dec(n: nat) -> Seq<char>
    decreases n,
{
    if n < 10 {
        seq![digit_char(n)]
    } else {
        dec(n / 10).push(digit_char(n % 10))
    }
}

/// The value of a run of decimal digits.
pub open spec fn digits_value(d: Seq<char>) -> nat
    decreases d.len(),
{
    if d.len() == 0 {
        0
    } else {
        digits_value(d.drop_last()) * 10 + ((d.last() as u32) - 48) as nat
    }
}

pub open spec fn all_digits(d: Seq<char>) -> bool {
    forall|i: int| 0 <= i < d.len() ==> is_digit(#[trigger] d[i])
}

/// What `u64::from_str` accepts: an optional `+`, then at least one digit,
/// with a value that fits.
pub open spec fn parse_u64_spec(s: Seq<char>) -> Option<u64> {
    let d = if s.len() > 0 && s[0] == '+' { s.drop_first() } else { s };
    if d.len() > 0 && all_digits(d) && digits_value(d) <= u64::MAX {
        Some(digits_value(d) as u64)
    } else {
        None
    }
}

/// What `u32::from_str` accepts: an optional `+`, then at least one digit,
/// with a value that fits.
pub open spec fn parse_u32_spec(s: Seq<char>) -> Option<u32> {
    let d = if s.len() > 0 && s[0] == '+' { s.drop_first() } else { s };
    if d.len() > 0 && all_digits(d) && digits_value(d) <= u32::MAX {
        Some(digits_value(d) as u32)
    } else {
        None
    }
}

fn digit_of(d: u64) -> (c: char)
    requires
        d < 10,
    ensures
        c == digit_char(d as nat),
{
    let b: u8 = (48 + d) as u8;
    assert(b == 48 + d);
    b as char
}

/// `n.to_string()`, as characters.
pub fn decimal(n: u64) -> (v: Vec<char>)
    ensures
        v@ == dec(n as nat),
    decreases n,
{
    if n < 10 {
        let mut v = Vec::new();
        v.push(digit_of(n));
        assert(v@ =~= seq![digit_char(n as nat)]);
        v
    } else {
        let mut v = decimal(n / 10);
        v.push(digit_of(n % 10));
        v
    }
}

pub proof fn lemma_dec_digits(n: nat)
    ensures
        all_digits(dec(n)),
        dec(n).len() > 0,
        digits_value(dec(n)) == n,
        dec(n)[0] != '+',
    decreases n,
{
    if n < 10 {
        assert(dec(n).drop_last() =~= Seq::<char>::empty());
        assert(digits_value(Seq::<char>::empty()) == 0);
        assert((digit_char(n) as u32) == 48 + n);
    } else {
        lemma_dec_digits(n / 10);
        let d = dec(n);
        assert(d.drop_last() =~= dec(n / 10));
        assert((digit_char(n % 10) as u32) == 48 + n % 10);
        assert forall|i: int| 0 <= i < d.len() implies is_digit(#[trigger] d[i]) by {
            if i < d.len() - 1 {
                assert(d[i] == dec(n / 10)[i]);
            }
        }
        assert(d[0] == dec(n / 10)[0]);
    }
}

/// Reading back what `decimal` wrote gives the number.
pub proof fn lemma_parse_dec(n: u32)
    ensures
        parse_u32_spec(dec(n as nat)) == Some(n),
{
    lemma_dec_digits(n as nat);
}

/// `u32::from_str`, on characters.
pub fn parse_u32(s: &[char]) -> (r: Option<u32>)
    ensures
        r == parse_u32_spec(s@),
{
    let start: usize = if s.len() > 0 && s[0] == '+' { 1 } else { 0 };
    let ghost d = if s@.len() > 0 && s@[0] == '+' { s@.drop_first() } else { s@ };
    assert(d =~= s@.subrange(start as int, s@.len() as int));
    if start >= s.len() {
        return None;
    }
    let mut value: u64 = 0;
    let mut i: usize = start;
    while i < s.len()
        invariant
            start <= i <= s@.len(),
            d == s@.subrange(start as int, s@.len() as int),
            d == (if s@.len() > 0 && s@[0] == '+' { s@.drop_first() } else { s@ }),
            all_digits(s@.subrange(start as int, i as int)),
            value == digits_value(s@.subrange(start as int, i as int)),
            value <= u32::MAX,
        decreases s.len() - i,
    {
        let c = s[i];
        let ghost pre = s@.subrange(start as int, i as int);
        let ghost next = s@.subrange(start as int, i + 1);
        assert(next.drop_last() =~= pre);
        if !is_ascii_digit(c) {
            assert(d[i - start] == c);
            assert(!all_digits(d));
            return None;
        }
        assert forall|j: int| 0 <= j < next.len() implies is_digit(#[trigger] next[j]) by {
            if j < pre.len() {
                assert(next[j] == pre[j]);
            }
        }
        let digit = (c as u32 - 48) as u64;
        let v = value * 10 + digit;
        assert(digits_value(next) == digits_value(pre) * 10 + ((c as u32) - 48) as nat);
        if v > 0xffff_ffff {
            // Every further digit only grows the value.
            proof {
                assert(d.subrange(0, i + 1 - start) =~= next);
                lemma_digits_grow(d, (i + 1 - start) as int);
            }
            return None;
        }
        value = v;
        i += 1;
    }
    assert(s@.subrange(start as int, s@.len() as int) =~= d);
    Some(value as u32)
}

/// `u64::from_str`, on characters.
pub fn parse_u64(s: &[char]) -> (r: Option<u64>)
    ensures
        r == parse_u64_spec(s@),
{
    let start: usize = if s.len() > 0 && s[0] == '+' { 1 } else { 0 };
    let ghost d = if s@.len() > 0 && s@[0] == '+' { s@.drop_first() } else { s@ };
    assert(d =~= s@.subrange(start as int, s@.len() as int));
    if start >= s.len() {
        return None;
    }
    let mut value: u128 = 0;
    let mut i: usize = start;
    while i < s.len()
        invariant
            start <= i <= s@.len(),
            d == s@.subrange(start as int, s@.len() as int),
            d == (if s@.len() > 0 && s@[0] == '+' { s@.drop_first() } else { s@ }),
            all_digits(s@.subrange(start as int, i as int)),
            value == digits_value(s@.subrange(start as int, i as int)),
            value <= u64::MAX,
        decreases s.len() - i,
    {
        let c = s[i];
        let ghost pre = s@.subrange(start as int, i as int);
        let ghost next = s@.subrange(start as int, i + 1);
        assert(next.drop_last() =~= pre);
        if !is_ascii_digit(c) {
            assert(d[i - start] == c);
            assert(!all_digits(d));
            return None;
        }
        assert forall|j: int| 0 <= j < next.len() implies is_digit(#[trigger] next[j]) by {
            if j < pre.len() {
                assert(next[j] == pre[j]);
            }
        }
        let digit = (c as u32 - 48) as u128;
        let v = value * 10 + digit;
        assert(digits_value(next) == digits_value(pre) * 10 + ((c as u32) - 48) as nat);
        if v > 0xffff_ffff_ffff_ffff {
            // Every further digit only grows the value.
            proof {
                assert(d.subrange(0, i + 1 - start) =~= next);
                lemma_digits_grow(d, (i + 1 - start) as int);
            }
            return None;
        }
        value = v;
        i += 1;
    }
    assert(s@.subrange(start as int, s@.len() as int) =~= d);
    Some(value as u64)
}

/// A longer run of digits is worth at least as much as any prefix of it.
proof fn lemma_digits_grow(d: Seq<char>, k: int)
    requires
        0 <= k <= d.len(),
        all_digits(d.subrange(0, k)),
    ensures
        all_digits(d) ==> digits_value(d) >= digits_value(d.subrange(0, k)),
    decreases d.len() - k,
{
    if k < d.len() && all_digits(d) {
        let p = d.subrange(0, k);
        let q = d.subrange(0, k + 1);
        assert(q.drop_last() =~= p);
        assert(is_digit(d[k]));
        assert forall|j: int| 0 <= j < q.len() implies is_digit(#[trigger] q[j]) by {
            assert(q[j] == d[j]);
        }
        lemma_digits_grow(d, k + 1);
    } else if k == d.len() {
        assert(d.subrange(0, k) =~= d);
    }
}

} // verus!

verus! {

/// Same characters.
pub fn chars_eq(a: &[char], b: &[char]) -> (r: bool)
    ensures
        r == (a@ == b@),
{
    if a.len() != b.len() {
        return false;
    }
    let r = matches_at(a, b, 0);
    assert(r ==> a@.subrange(0, b@.len() as int) == b@);
    assert(a@.subrange(0, a@.len() as int) =~= a@);
    r
}

/// `a == b` for two strings.
pub fn str_eq(a: &str, b: &str) -> (r: bool)
    ensures
        r == (a@ == b@),
{
    let av = chars_of(a);
    let bv = chars_of(b);
    chars_eq(av.as_slice(), bv.as_slice())
}

/// `n` written with at least two digits, as `{:02}` does for `n < 100`.
pub open spec fn pad2(n: nat) -> Seq<char> {
    seq![digit_char(n / 10), digit_char(n % 10)]
}

/// `n` written with at least three digits, as `{:03}` does for `n < 1000`.
pub open spec fn pad3(n: nat) -> Seq<char> {
    seq![digit_char(n / 100), digit_char((n / 10) % 10), digit_char(n % 10)]
}

pub fn push_pad2(v: &mut Vec<char>, n: u64)
    requires
        n < 100,
    ensures
        final(v)@ == old(v)@ + pad2(n as nat),
{
    v.push(digit_char_of(n / 10));
    v.push(digit_char_of(n % 10));
    assert(v@ =~= old(v)@ + pad2(n as nat));
}

pub fn push_pad3(v: &mut Vec<char>, n: u64)
    requires
        n < 1000,
    ensures
        final(v)@ == old(v)@ + pad3(n as nat),
{
    v.push(digit_char_of(n / 100));
    v.push(digit_char_of((n / 10) % 10));
    v.push(digit_char_of(n % 10));
    assert(v@ =~= old(v)@ + pad3(n as nat));
}

/// The digit character of `d < 10`.
pub fn digit_char_of(d: u64) -> (c: char)
    requires
        d < 10,
    ensures
        c == digit_char(d as nat),
{
    digit_of(d)
}

/// `parts` joined by `sep` (`[T]::join`).
pub open spec fn join(parts: Seq<Seq<char>>, sep: Seq<char>) -> Seq<char>
    decreases parts.len(),
{
    if parts.len() == 0 {
        Seq::empty()
    } else if parts.len() == 1 {
        parts[0]
    } else {
        join(parts.drop_last(), sep) + sep + parts.last()
    }
}

/// Joins the character runs of `parts` with `sep` between each pair.
pub fn join_chars(parts: &Vec<Vec<char>>, sep: &[char]) -> (r: Vec<char>)
    ensures
        r@ == join(parts@.map_values(|p: Vec<char>| p@), sep@),
{
    let ghost ps = parts@.map_values(|p: Vec<char>| p@);
    let mut out: Vec<char> = Vec::new();
    let mut i: usize = 0;
    while i < parts.len()
        invariant
            i <= parts@.len(),
            ps == parts@.map_values(|p: Vec<char>| p@),
            out@ == join(ps.take(i as int), sep@),
        decreases parts.len() - i,
    {
        let ghost before = ps.take(i as int);
        let ghost after = ps.take(i + 1);
        assert(after.drop_last() =~= before);
        assert(after.last() == parts@[i as int]@);
        if i > 0 {
            extend_chars(&mut out, sep);
        } else {
            assert(before =~= Seq::<Seq<char>>::empty());
        }
        extend_chars(&mut out, parts[i].as_slice());
        proof {
            if i == 0 {
                assert(out@ =~= after[0]);
            }
        }
        i += 1;
    }
    assert(ps.take(parts@.len() as int) =~= ps);
    out
}

/// The characters of a literal.
pub fn lit(s: &'static str) -> (v: Vec<char>)
    ensures
        v@ == s@,
{
    chars_of(s)
}

} // verus!

verus! {

/// `char::is_whitespace`: the Unicode `White_Space` property, which is this
/// fixed list of code points.
pub open spec fn is_ws(c: char) -> bool {
    let n = c as u32;
    (9 <= n && n <= 13) || n == 32 || n == 0x85 || n == 0xA0 || n == 0x1680
        || (0x2000 <= n && n <= 0x200A) || n == 0x2028 || n == 0x2029 || n == 0x202F
        || n == 0x205F || n == 0x3000
}

pub fn is_whitespace(c: char) -> (b: bool)
    ensures
        b == is_ws(c),
{
    let n = c as u32;
    (9 <= n && n <= 13) || n == 32 || n == 0x85 || n == 0xA0 || n == 0x1680
        || (0x2000 <= n && n <= 0x200A) || n == 0x2028 || n == 0x2029 || n == 0x202F
        || n == 0x205F || n == 0x3000
}

/// Nothing but whitespace (what `s.trim().is_empty()` asks).
pub open spec fn all_ws(s: Seq<char>) -> bool {
    forall|i: int| 0 <= i < s.len() ==> is_ws(#[trigger] s[i])
}

pub fn blank(s: &[char]) -> (b: bool)
    ensures
        b == all_ws(s@),
{
    let mut i: usize = 0;
    while i < s.len()
        invariant
            i <= s@.len(),
            forall|j: int| 0 <= j < i ==> is_ws(#[trigger] s@[j]),
        decreases s.len() - i,
    {
        if !is_whitespace(s[i]) {
            return false;
        }
        i += 1;
    }
    true
}

// ---------------------------------------------------------------------------
// Lines
// ---------------------------------------------------------------------------

/// Index of the first `\n` at or after `k`, or the length when there is none.
pub open spec fn next_newline(s: Seq<char>, k: int) -> int
    decreases s.len() - k,
{
    if k >= s.len() {
        s.len() as int
    } else if s[k] == '\n' {
        k
    } else {
        next_newline(s, k + 1)
    }
}

/// One line as `str::lines` yields it: the text up to the `\n`, with a `\r`
/// just before that `\n` taken off too.
pub open spec fn line_at(s: Seq<char>, start: int, nl: int) -> Seq<char> {
    if nl < s.len() && nl > start && s[nl - 1] == '\r' {
        s.subrange(start, nl - 1)
    } else {
        s.subrange(start, nl)
    }
}

/// The lines of `s` from `start` on (`str::lines`): split at `\n`, `\r\n`
/// counted as one ending, and a final line ending is optional -- it does not
/// open an empty last line.
pub open spec fn lines_from(s: Seq<char>, start: int) -> Seq<Seq<char>>
    decreases s.len() + 1 - start,
{
    if start < 0 || start >= s.len() {
        Seq::empty()
    } else {
        let nl = next_newline(s, start);
        if nl < start || nl > s.len() {
            // Never: the next newline lies between where the search began
            // and the end of the text.
            Seq::empty()
        } else {
            seq![line_at(s, start, nl)] + lines_from(s, nl + 1)
        }
    }
}

pub open spec fn lines(s: Seq<char>) -> Seq<Seq<char>> {
    lines_from(s, 0)
}

pub proof fn lemma_next_newline(s: Seq<char>, k: int)
    requires
        0 <= k,
    ensures
        k <= s.len() ==> k <= next_newline(s, k) <= s.len(),
        next_newline(s, k) < s.len() ==> s[next_newline(s, k)] == '\n',
        forall|j: int| k <= j < next_newline(s, k) ==> s[j] != '\n',
    decreases s.len() - k,
{
    if k < s.len() && s[k] != '\n' {
        lemma_next_newline(s, k + 1);
    }
}

/// The lines of `s`, as `str::lines` splits them.
pub fn lines_of(s: &[char]) -> (r: Vec<Vec<char>>)
    ensures
        r@.map_values(|l: Vec<char>| l@) == lines(s@),
{
    let mut out: Vec<Vec<char>> = Vec::new();
    let mut start: usize = 0;
    while start < s.len()
        invariant
            start <= s@.len(),
            out@.map_values(|l: Vec<char>| l@) + lines_from(s@, start as int) == lines(s@),
        decreases s.len() - start,
    {
        let mut nl = start;
        while nl < s.len() && s[nl] != '\n'
            invariant
                start <= nl <= s@.len(),
                next_newline(s@, start as int) == next_newline(s@, nl as int),
            decreases s.len() - nl,
        {
            nl += 1;
        }
        proof {
            lemma_next_newline(s@, start as int);
        }
        let end = if nl < s.len() && nl > start && s[nl - 1] == '\r' { nl - 1 } else { nl };
        let line = slice_chars(s, start, end);
        let ghost before = out@.map_values(|l: Vec<char>| l@);
        out.push(line);
        assert(out@.map_values(|l: Vec<char>| l@) =~= before.push(line@));
        assert(lines_from(s@, start as int) == seq![line@] + lines_from(s@, nl + 1));
        assert(before + lines_from(s@, start as int) =~= before.push(line@) + lines_from(s@, nl + 1));
        if nl < s.len() {
            start = nl + 1;
        } else {
            assert(lines_from(s@, nl + 1) =~= Seq::<Seq<char>>::empty());
            start = nl;
        }
    }
    assert(lines_from(s@, start as int) =~= Seq::<Seq<char>>::empty());
    assert(out@.map_values(|l: Vec<char>| l@) + Seq::<Seq<char>>::empty() =~= out@.map_values(|l: Vec<char>| l@));
    out
}

} // verus!

verus! {

/// Unicode `Alphabetic` or `Numeric`: what `char::is_alphanumeric` answers.
pub uninterp spec fn alphanumeric(c: char) -> bool;

/// `char::is_alphanumeric`. The result is named by `alphanumeric`; for an
/// ASCII character it is exactly the ASCII letters and digits.
#[verifier::external_body]
pub(crate) fn is_alphanumeric(c: char) -> (b: bool)
    ensures
        b == alphanumeric(c),
        (c as u32) < 128 ==> b == is_alnum(c),
{
    c.is_alphanumeric()
}

} // verus!

verus! {

// ---------------------------------------------------------------------------
// Float literals
// ---------------------------------------------------------------------------

/// First index at or after `k` holding `c` (ASCII case ignored), or the length.
pub open spec fn find_ic(s: Seq<char>, c: char, k: int) -> int
    decreases s.len() - k,
{
    if k < 0 || k >= s.len() {
        s.len() as int
    } else if lower(s[k]) == c {
        k
    } else {
        find_ic(s, c, k + 1)
    }
}

proof fn lemma_find_ic(s: Seq<char>, c: char, k: int)
    requires
        0 <= k <= s.len(),
    ensures
        k <= find_ic(s, c, k) <= s.len(),
        find_ic(s, c, k) < s.len() ==> lower(s[find_ic(s, c, k)]) == c,
        forall|j: int| k <= j < find_ic(s, c, k) ==> lower(s[j]) != c,
    decreases s.len() - k,
{
    if k < s.len() && lower(s[k]) != c {
        lemma_find_ic(s, c, k + 1);
    }
}

/// A sign is optional; strip it.
pub open spec fn unsigned(s: Seq<char>) -> Seq<char> {
    if s.len() > 0 && (s[0] == '+' || s[0] == '-') {
        s.drop_first()
    } else {
        s
    }
}

/// `Digit+ | Digit+ '.' Digit* | Digit* '.' Digit+`
pub open spec fn mantissa_ok(m: Seq<char>) -> bool {
    let d = find_ic(m, '.', 0);
    if d == m.len() {
        m.len() > 0 && all_digits(m)
    } else {
        all_digits(m.subrange(0, d)) && all_digits(m.subrange(d + 1, m.len() as int)) && m.len() > 1
    }
}

/// `'e' Sign? Digit+`, without its `e`.
pub open spec fn exponent_ok(x: Seq<char>) -> bool {
    unsigned(x).len() > 0 && all_digits(unsigned(x))
}

/// What `f64::from_str` accepts, per its documented grammar, once lowercased:
/// `Sign? ( 'inf' | 'infinity' | 'nan' | Number )` with
/// `Number ::= Mantissa Exp?`.
pub open spec fn float_literal(s: Seq<char>) -> bool {
    let t = unsigned(s);
    let p = find_ic(t, 'e', 0);
    ||| eq_ic(t, "inf"@)
    ||| eq_ic(t, "infinity"@)
    ||| eq_ic(t, "nan"@)
    ||| (mantissa_ok(t.subrange(0, p)) && (p == t.len() || exponent_ok(t.subrange(p + 1, t.len() as int))))
}

fn find_lower(s: &[char], c: char, k: usize) -> (r: usize)
    requires
        k <= s@.len(),
    ensures
        r == find_ic(s@, c, k as int),
{
    let mut j = k;
    while j < s.len() && ascii_lower(s[j]) != c
        invariant
            k <= j <= s@.len(),
            find_ic(s@, c, j as int) == find_ic(s@, c, k as int),
        decreases s.len() - j,
    {
        j += 1;
    }
    j
}

fn digits_only(s: &[char], from: usize, to: usize) -> (r: bool)
    requires
        from <= to <= s@.len(),
    ensures
        r == all_digits(s@.subrange(from as int, to as int)),
{
    let mut j = from;
    while j < to
        invariant
            from <= j <= to <= s@.len(),
            all_digits(s@.subrange(from as int, j as int)),
        decreases to - j,
    {
        if !is_ascii_digit(s[j]) {
            assert(s@.subrange(from as int, to as int)[j - from] == s@[j as int]);
            return false;
        }
        assert forall|m: int| 0 <= m < j + 1 - from implies is_digit(#[trigger] s@.subrange(from as int, j + 1)[m]) by {
            if m < j - from {
                assert(s@.subrange(from as int, j + 1)[m] == s@.subrange(from as int, j as int)[m]);
            }
        }
        j += 1;
    }
    true
}

/// Does `f64::from_str` accept this text?
pub fn parses_as_float(s: &[char]) -> (r: bool)
    ensures
        r == float_literal(s@),
{
    let t: Vec<char> = if s.len() > 0 && (s[0] == '+' || s[0] == '-') {
        slice_chars(s, 1, s.len())
    } else {
        slice_chars(s, 0, s.len())
    };
    assert(t@ == unsigned(s@)) by {
        if s@.len() > 0 && (s@[0] == '+' || s@[0] == '-') {
            assert(s@.subrange(1, s@.len() as int) =~= s@.drop_first());
        } else {
            assert(s@.subrange(0, s@.len() as int) =~= s@);
        }
    }
    let inf = lit("inf");
    let infinity = lit("infinity");
    let nan = lit("nan");
    if eq_ignore_case(t.as_slice(), inf.as_slice()) || eq_ignore_case(t.as_slice(), infinity.as_slice())
        || eq_ignore_case(t.as_slice(), nan.as_slice()) {
        return true;
    }
    let p = find_lower(t.as_slice(), 'e', 0);
    proof {
        lemma_find_ic(t@, 'e', 0);
    }
    let m = slice_chars(t.as_slice(), 0, p);
    let d = find_lower(m.as_slice(), '.', 0);
    proof {
        lemma_find_ic(m@, '.', 0);
    }
    let mantissa = if d == m.len() {
        m.len() > 0 && digits_only(m.as_slice(), 0, m.len())
    } else {
        digits_only(m.as_slice(), 0, d) && digits_only(m.as_slice(), d + 1, m.len()) && m.len() > 1
    };
    proof {
        assert(m@.subrange(0, m@.len() as int) =~= m@);
    }
    if !mantissa {
        return false;
    }
    if p == t.len() {
        return true;
    }
    let x = slice_chars(t.as_slice(), p + 1, t.len());
    let y: Vec<char> = if x.len() > 0 && (x[0] == '+' || x[0] == '-') {
        slice_chars(x.as_slice(), 1, x.len())
    } else {
        slice_chars(x.as_slice(), 0, x.len())
    };
    assert(y@ == unsigned(x@)) by {
        if x@.len() > 0 && (x@[0] == '+' || x@[0] == '-') {
            assert(x@.subrange(1, x@.len() as int) =~= x@.drop_first());
        } else {
            assert(x@.subrange(0, x@.len() as int) =~= x@);
        }
    }
    let r = y.len() > 0 && digits_only(y.as_slice(), 0, y.len());
    assert(y@.subrange(0, y@.len() as int) =~= y@);
    r
}

} // verus!

verus! {

/// `str::to_ascii_lowercase`, as characters.
pub fn lower_chars(s: &str) -> (r: Vec<char>)
    ensures
        r@ == lower_seq(s@),
{
    let cs = chars_of(s);
    let mut c: Vec<char> = Vec::new();
    let mut i: usize = 0;
    while i < cs.len()
        invariant
            i <= cs@.len(),
            cs@ == s@,
            c@ == lower_seq(cs@).take(i as int),
        decreases cs.len() - i,
    {
        c.push(ascii_lower(cs[i]));
        assert(c@ =~= lower_seq(cs@).take(i + 1));
        i += 1;
    }
    assert(c@ =~= lower_seq(s@));
    c
}


} // verus!

verus! {

/// What `str::to_lowercase` gives for a string: the Unicode lowercase mapping.
pub uninterp spec fn lowercase(s: Seq<char>) -> Seq<char>;

/// `str::to_lowercase`. Its result is named by `lowercase`; on ASCII text it
/// is the ASCII mapping, one character for one.
#[verifier::external_body]
pub(crate) fn to_lowercase(s: &str) -> (r: String)
    ensures
        r@ == lowercase(s@),
        (forall|i: int| 0 <= i < s@.len() ==> (#[trigger] s@[i] as u32) < 128) ==> r@ == lower_seq(s@),
{
    s.to_lowercase()
}

/// Does `s`, lowercased the Unicode way, contain `needle`?
pub fn lower_contains(s: &str, needle: &[char]) -> (r: bool)
    ensures
        r == has_sub(lowercase(s@), needle@),
{
    let l = to_lowercase(s);
    let cs = chars_of(l.as_str());
    contains(cs.as_slice(), needle)
}

/// The first index at or after `k` that is not whitespace, or the length.
pub open spec fn skip_ws(s: Seq<char>, k: int) -> int
    decreases s.len() - k,
{
    if k >= s.len() || !is_ws(s[k]) {
        k
    } else {
        skip_ws(s, k + 1)
    }
}

/// One past the last index before `k` that is not whitespace, or 0.
pub open spec fn trim_end_at(s: Seq<char>, k: int) -> int
    decreases k,
{
    if k <= 0 || !is_ws(s[k - 1]) {
        if k <= 0 { 0 } else { k }
    } else {
        trim_end_at(s, k - 1)
    }
}

/// `str::trim`: the text without its leading and trailing whitespace.
pub open spec fn trimmed(s: Seq<char>) -> Seq<char> {
    let a = skip_ws(s, 0);
    let b = trim_end_at(s, s.len() as int);
    if a >= b { Seq::empty() } else { s.subrange(a, b) }
}

pub proof fn lemma_skip_ws(s: Seq<char>, k: int)
    requires
        0 <= k <= s.len(),
    ensures
        k <= skip_ws(s, k) <= s.len(),
    decreases s.len() - k,
{
    if k < s.len() && is_ws(s[k]) {
        lemma_skip_ws(s, k + 1);
    }
}

pub proof fn lemma_trim_end(s: Seq<char>, k: int)
    requires
        0 <= k <= s.len(),
    ensures
        0 <= trim_end_at(s, k) <= k,
    decreases k,
{
    if k > 0 && is_ws(s[k - 1]) {
        lemma_trim_end(s, k - 1);
    }
}

/// `str::trim`, as characters.
pub fn trim_chars(s: &[char]) -> (r: Vec<char>)
    ensures
        r@ == trimmed(s@),
{
    let mut a: usize = 0;
    while a < s.len() && is_whitespace(s[a])
        invariant
            a <= s@.len(),
            skip_ws(s@, a as int) == skip_ws(s@, 0),
        decreases s.len() - a,
    {
        a += 1;
    }
    let mut b: usize = s.len();
    while b > 0 && is_whitespace(s[b - 1])
        invariant
            b <= s@.len(),
            trim_end_at(s@, b as int) == trim_end_at(s@, s@.len() as int),
        decreases b,
    {
        b -= 1;
    }
    if a >= b {
        Vec::new()
    } else {
        slice_chars(s, a, b)
    }
}

} // verus!
