//! Character-level text primitives: literal matching, replacement, search,
//! whitespace trimming, line splitting and decimal numbers.
use vstd::prelude::*;

verus! {

/// `String::push` appends one character to the end of the string.
pub assume_specification[ String::push ](s: &mut String, ch: char)
    ensures
        final(s)@ == old(s)@.push(ch),
;

/// `String::push_str` appends the characters of `other` to the end of the string.
pub assume_specification[ String::push_str ](s: &mut String, other: &str)
    ensures
        final(s)@ == old(s)@ + other@,
;

/// The characters of a string slice, collected into a vector.
pub fn chars_of(s: &str) -> (v: Vec<char>)
    ensures
        v@ == s@,
{
    let mut v: Vec<char> = Vec::new();
    for c in it: s.chars()
        invariant
            v@ == it.seq().take(it.index() as int),
            it.seq() == s@,
    {
        v.push(c);
    }
    v
}

/// A string holding exactly the given characters.
pub fn string_of(v: &[char]) -> (s: String)
    ensures
        s@ == v@,
{
    let mut s = String::new();
    let mut i: usize = 0;
    while i < v.len()
        invariant
            i <= v@.len(),
            s@ == v@.take(i as int),
        decreases v@.len() - i,
    {
        s.push(v[i]);
        i += 1;
        assert(v@.take(i as int) =~= v@.take((i - 1) as int).push(v@[i - 1]));
    }
    assert(v@.take(v@.len() as int) =~= v@);
    s
}

/// Appends the characters `v[from..to]` to `out`.
pub fn push_range(out: &mut String, v: &Vec<char>, from: usize, to: usize)
    requires
        from <= to <= v@.len(),
    ensures
        final(out)@ == old(out)@ + v@.subrange(from as int, to as int),
{
    let mut i = from;
    while i < to
        invariant
            from <= i <= to <= v@.len(),
            out@ == old(out)@ + v@.subrange(from as int, i as int),
        decreases to - i,
    {
        out.push(v[i]);
        i += 1;
        assert(v@.subrange(from as int, i as int) =~= v@.subrange(from as int, (i - 1) as int).push(
            v@[i - 1],
        ));
    }
}

/// `p` occurs in `s` starting at index `i`.
pub open spec fn matches_at(s: Seq<char>, p: Seq<char>, i: int) -> bool {
    0 <= i && i + p.len() <= s.len() && s.subrange(i, i + p.len()) == p
}

/// `s` contains `p` somewhere.
pub open spec fn contains(s: Seq<char>, p: Seq<char>) -> bool {
    exists|i: int| matches_at(s, p, i)
}

/// `x`'s place in `a + x + b` is right after `a`.
pub proof fn lemma_matches_after(a: Seq<char>, x: Seq<char>, b: Seq<char>)
    ensures
        matches_at(a + x + b, x, a.len() as int),
{
    assert((a + x + b).subrange(a.len() as int, (a.len() + x.len()) as int) =~= x);
}

/// A match in `b` is a match in `a + b`, `a.len()` further on.
pub proof fn lemma_matches_shift(a: Seq<char>, b: Seq<char>, p: Seq<char>, i: int)
    requires
        matches_at(b, p, i),
    ensures
        matches_at(a + b, p, a.len() + i),
{
    assert((a + b).subrange(a.len() + i, a.len() + i + p.len()) =~= b.subrange(i, i + p.len()));
}

/// `s` begins with `p`.
pub open spec fn starts_with(s: Seq<char>, p: Seq<char>) -> bool {
    matches_at(s, p, 0)
}

/// Every occurrence of `p` in `s`, taken left to right without overlap, replaced by `r`
/// (with an empty `p`, `r` goes before every character and at the end).
pub open spec fn replace_all(s: Seq<char>, p: Seq<char>, r: Seq<char>) -> Seq<char>
    decreases s.len(),
{
    if p.len() == 0 {
        if s.len() == 0 {
            r
        } else {
            r + seq![s[0]] + replace_all(s.drop_first(), p, r)
        }
    } else if s.len() == 0 {
        s
    } else if matches_at(s, p, 0) {
        r + replace_all(s.skip(p.len() as int), p, r)
    } else {
        seq![s[0]] + replace_all(s.drop_first(), p, r)
    }
}

/// The number of occurrences of `p` in `s`, counted left to right without overlap
/// (with an empty `p`, one more than the number of characters).
pub open spec fn count_matches(s: Seq<char>, p: Seq<char>) -> nat
    decreases s.len(),
{
    if p.len() == 0 {
        s.len() + 1
    } else if s.len() == 0 {
        0
    } else if matches_at(s, p, 0) {
        1 + count_matches(s.skip(p.len() as int), p)
    } else {
        count_matches(s.drop_first(), p)
    }
}

/// The least index `j >= from` at which `p` occurs in `s`.
pub open spec fn find_from(s: Seq<char>, p: Seq<char>, from: int) -> Option<int>
    decreases s.len() - from,
{
    if from < 0 || from + p.len() > s.len() {
        None
    } else if matches_at(s, p, from) {
        Some(from)
    } else if from >= s.len() {
        None
    } else {
        find_from(s, p, from + 1)
    }
}

pub proof fn lemma_skip_shift(s: Seq<char>, i: int, k: int)
    requires
        0 <= i <= s.len(),
        0 <= k <= s.len() - i,
    ensures
        s.skip(i).skip(k) == s.skip(i + k),
        i < s.len() ==> s.skip(i).drop_first() == s.skip(i + 1),
        i < s.len() ==> s.skip(i)[0] == s[i],
        forall|p: Seq<char>| matches_at(s.skip(i), p, k) <==> #[trigger] matches_at(s, p, i + k),
{
    assert(s.skip(i).skip(k) =~= s.skip(i + k));
    if i < s.len() {
        assert(s.skip(i).drop_first() =~= s.skip(i + 1));
    }
    assert forall|p: Seq<char>| matches_at(s.skip(i), p, k) <==> #[trigger] matches_at(s, p, i + k) by {
        if k + p.len() <= s.len() - i {
            assert(s.skip(i).subrange(k, k + p.len()) =~= s.subrange(i + k, i + k + p.len()));
        }
    }
}

/// Whether `p` occurs in `v` at index `i`.
pub fn matches_at_exec(v: &Vec<char>, p: &Vec<char>, i: usize) -> (b: bool)
    ensures
        b == matches_at(v@, p@, i as int),
{
    if i > v.len() || p.len() > v.len() - i {
        return false;
    }
    let mut k: usize = 0;
    while k < p.len()
        invariant
            i + p@.len() <= v@.len(),
            k <= p@.len(),
            forall|j: int| 0 <= j < k ==> v@[i + j] == p@[j],
        decreases p@.len() - k,
    {
        assert(i + k < v.len());
        if v[i + k] != p[k] {
            assert(v@.subrange(i as int, i + p@.len())[k as int] != p@[k as int]);
            return false;
        }
        k += 1;
    }
    assert(v@.subrange(i as int, i + p@.len()) =~= p@);
    true
}

/// The least index `j >= from` at which `p` occurs in `v`.
pub fn find_from_exec(v: &Vec<char>, p: &Vec<char>, from: usize) -> (r: Option<usize>)
    ensures
        r matches Some(j) ==> find_from(v@, p@, from as int) == Some(j as int),
        r is None ==> find_from(v@, p@, from as int) is None,
{
    let mut j = from;
    while j <= v.len() && p.len() <= v.len() - j
        invariant
            from <= j,
            find_from(v@, p@, from as int) == find_from(v@, p@, j as int),
        decreases v@.len() + 1 - j,
    {
        if matches_at_exec(v, p, j) {
            return Some(j);
        }
        if j == v.len() {
            return None;
        }
        j += 1;
    }
    None
}

/// Whether `p` occurs anywhere in `v`.
pub fn contains_exec(v: &Vec<char>, p: &Vec<char>) -> (b: bool)
    ensures
        b == contains(v@, p@),
{
    let r = find_from_exec(v, p, 0);
    proof {
        lemma_find_from_contains(v@, p@, 0);
    }
    r.is_some()
}

pub proof fn lemma_find_from_contains(s: Seq<char>, p: Seq<char>, from: int)
    requires
        0 <= from,
    ensures
        find_from(s, p, from) is Some <==> exists|i: int| from <= i && matches_at(s, p, i),
        find_from(s, p, from) matches Some(j) ==> from <= j && matches_at(s, p, j) && forall|
            k: int,
        | from <= k < j ==> !matches_at(s, p, k),
    decreases s.len() - from,
{
    if from + p.len() > s.len() {
    } else if matches_at(s, p, from) {
    } else if from >= s.len() {
    } else {
        lemma_find_from_contains(s, p, from + 1);
        if exists|i: int| from <= i && matches_at(s, p, i) {
            let i = choose|i: int| from <= i && matches_at(s, p, i);
            assert(from + 1 <= i);
        }
    }
}

/// `s` with every non-overlapping occurrence of `p` (scanned left to right) replaced by `r`.
pub fn replace_all_exec(s: &Vec<char>, p: &Vec<char>, r: &str) -> (out: String)
    ensures
        out@ == replace_all(s@, p@, r@),
{
    let mut out = String::new();
    let mut i: usize = 0;
    assert(s@.skip(0) =~= s@);
    if p.len() == 0 {
        while i < s.len()
            invariant
                p@.len() == 0,
                i <= s@.len(),
                out@ + replace_all(s@.skip(i as int), p@, r@) == replace_all(s@, p@, r@),
            decreases s@.len() - i,
        {
            proof {
                lemma_skip_shift(s@, i as int, 0);
            }
            out.push_str(r);
            out.push(s[i]);
            assert(out@ + replace_all(s@.skip(i + 1), p@, r@) =~= replace_all(s@, p@, r@));
            i += 1;
        }
        out.push_str(r);
        assert(out@ =~= replace_all(s@, p@, r@));
        return out;
    }
    assert(s@.skip(0) =~= s@);
    while i < s.len()
        invariant
            p@.len() > 0,
            i <= s@.len(),
            out@ + replace_all(s@.skip(i as int), p@, r@) == replace_all(s@, p@, r@),
        decreases s@.len() - i,
    {
        proof {
            lemma_skip_shift(s@, i as int, 0);
        }
        if matches_at_exec(s, p, i) {
            proof {
                lemma_skip_shift(s@, i as int, p@.len() as int);
            }
            out.push_str(r);
            assert(out@ + replace_all(s@.skip(i + p@.len()), p@, r@) =~= replace_all(s@, p@, r@));
            i += p.len();
        } else {
            out.push(s[i]);
            assert(out@ + replace_all(s@.skip(i + 1), p@, r@) =~= replace_all(s@, p@, r@));
            i += 1;
        }
    }
    assert(out@ =~= replace_all(s@, p@, r@));
    out
}

/// The number of non-overlapping occurrences of `p` in `s`, scanned left to right.
pub fn count_matches_exec(s: &Vec<char>, p: &Vec<char>) -> (n: usize)
    requires
        s@.len() < usize::MAX,
    ensures
        n == count_matches(s@, p@),
{
    if p.len() == 0 {
        return s.len() + 1;
    }
    let mut n: usize = 0;
    let mut i: usize = 0;
    assert(s@.skip(0) =~= s@);
    while i < s.len()
        invariant
            p@.len() > 0,
            i <= s@.len(),
            n <= i,
            n + count_matches(s@.skip(i as int), p@) == count_matches(s@, p@),
        decreases s@.len() - i,
    {
        proof {
            lemma_skip_shift(s@, i as int, 0);
        }
        if matches_at_exec(s, p, i) {
            proof {
                lemma_skip_shift(s@, i as int, p@.len() as int);
            }
            n += 1;
            i += p.len();
        } else {
            i += 1;
        }
    }
    n
}


/// Unicode `White_Space` characters, the set `char::is_whitespace` accepts.
pub open spec fn is_whitespace(c: char) -> bool {
    let v = c as u32;
    ||| 0x09 <= v <= 0x0D
    ||| v == 0x20
    ||| v == 0x85
    ||| v == 0xA0
    ||| v == 0x1680
    ||| 0x2000 <= v <= 0x200A
    ||| v == 0x2028
    ||| v == 0x2029
    ||| v == 0x202F
    ||| v == 0x205F
    ||| v == 0x3000
}

pub fn is_whitespace_exec(c: char) -> (b: bool)
    ensures
        b == is_whitespace(c),
{
    let v = c as u32;
    (0x09 <= v && v <= 0x0D) || v == 0x20 || v == 0x85 || v == 0xA0 || v == 0x1680 || (0x2000
        <= v && v <= 0x200A) || v == 0x2028 || v == 0x2029 || v == 0x202F || v == 0x205F || v
        == 0x3000
}

/// Every character of `t` is whitespace (so `t.trim()` is empty).
pub open spec fn all_whitespace(t: Seq<char>) -> bool {
    forall|k: int| 0 <= k < t.len() ==> is_whitespace(#[trigger] t[k])
}

/// Whether `v[from..to]` consists of whitespace only.
pub fn all_whitespace_exec(v: &Vec<char>, from: usize, to: usize) -> (b: bool)
    requires
        from <= to <= v@.len(),
    ensures
        b == all_whitespace(v@.subrange(from as int, to as int)),
{
    let mut k = from;
    while k < to
        invariant
            from <= k <= to <= v@.len(),
            forall|j: int| from <= j < k ==> is_whitespace(#[trigger] v@[j]),
        decreases to - k,
    {
        if !is_whitespace_exec(v[k]) {
            assert(v@.subrange(from as int, to as int)[k - from] == v@[k as int]);
            return false;
        }
        k += 1;
    }
    assert forall|j: int| 0 <= j < to - from implies is_whitespace(
        #[trigger] v@.subrange(from as int, to as int)[j],
    ) by {
        assert(v@.subrange(from as int, to as int)[j] == v@[from + j]);
    }
    true
}

/// The number of bytes of the UTF-8 encoding of `c`.
pub open spec fn char_width(c: char) -> nat {
    let v = c as u32;
    if v < 0x80 {
        1
    } else if v < 0x800 {
        2
    } else if v < 0x10000 {
        3
    } else {
        4
    }
}

pub fn char_width_exec(c: char) -> (w: usize)
    ensures
        w == char_width(c),
{
    let v = c as u32;
    if v < 0x80 {
        1
    } else if v < 0x800 {
        2
    } else if v < 0x10000 {
        3
    } else {
        4
    }
}

/// The number of bytes of the UTF-8 encoding of `s`.
pub open spec fn utf8_len(s: Seq<char>) -> nat
    decreases s.len(),
{
    if s.len() == 0 {
        0
    } else {
        utf8_len(s.drop_last()) + char_width(s.last())
    }
}

pub proof fn lemma_utf8_len_take_step(s: Seq<char>, i: int)
    requires
        0 <= i < s.len(),
    ensures
        utf8_len(s.take(i + 1)) == utf8_len(s.take(i)) + char_width(s[i]),
{
    assert(s.take(i + 1).drop_last() =~= s.take(i));
}

pub proof fn lemma_utf8_len_concat(a: Seq<char>, b: Seq<char>)
    ensures
        utf8_len(a + b) == utf8_len(a) + utf8_len(b),
    decreases b.len(),
{
    if b.len() == 0 {
        assert(a + b =~= a);
    } else {
        lemma_utf8_len_concat(a, b.drop_last());
        assert((a + b).drop_last() =~= a + b.drop_last());
    }
}

pub proof fn lemma_utf8_len_monotone(s: Seq<char>, i: int, j: int)
    requires
        0 <= i <= j <= s.len(),
    ensures
        utf8_len(s.take(i)) + utf8_len(s.subrange(i, j)) == utf8_len(s.take(j)),
        utf8_len(s.take(i)) <= utf8_len(s.take(j)),
        j - i <= utf8_len(s.subrange(i, j)),
    decreases j - i,
{
    lemma_utf8_len_concat(s.take(i), s.subrange(i, j));
    assert(s.take(i) + s.subrange(i, j) =~= s.take(j));
    lemma_utf8_len_at_least_len(s.subrange(i, j));
}

pub proof fn lemma_utf8_len_at_least_len(s: Seq<char>)
    ensures
        s.len() <= utf8_len(s),
    decreases s.len(),
{
    if s.len() > 0 {
        lemma_utf8_len_at_least_len(s.drop_last());
    }
}

/// `utf8_len` is the length of vstd's UTF-8 encoding.
pub proof fn lemma_utf8_len_encode(s: Seq<char>)
    ensures
        vstd::utf8::encode_utf8(s).len() == utf8_len(s),
    decreases s.len(),
{
    if s.len() > 0 {
        lemma_utf8_len_encode(s.drop_first());
        lemma_utf8_len_concat(seq![s[0]], s.drop_first());
        assert(seq![s[0]] + s.drop_first() =~= s);
        assert(seq![s[0]].drop_last() =~= Seq::<char>::empty());
        let one = seq![s[0]];
        assert(one.last() == s[0]);
        assert(one.drop_last() =~= Seq::<char>::empty());
        assert(utf8_len(Seq::<char>::empty()) == 0);
        assert(utf8_len(one) == char_width(s[0]));
        vstd::utf8::char_is_scalar(s[0]);
        assert(vstd::utf8::encode_scalar(s[0] as u32).len() == char_width(s[0]));
        assert(vstd::utf8::encode_utf8(s) == vstd::utf8::encode_scalar(s[0] as u32)
            + vstd::utf8::encode_utf8(s.drop_first()));
    }
}

/// The number of bytes of `s` fits in `usize`.
pub fn utf8_len_bound(s: &str)
    ensures
        utf8_len(s@) <= usize::MAX,
{
    let b = s.as_bytes();
    let _n = b.len();
    proof {
        lemma_utf8_len_encode(s@);
    }
}

/// The number of bytes of `s`.
pub fn byte_len(s: &str) -> (n: usize)
    ensures
        n == utf8_len(s@),
{
    let b = s.as_bytes();
    proof {
        lemma_utf8_len_encode(s@);
    }
    b.len()
}

/// The character `'0' + d` for a digit value `d`.
pub open spec fn digit_char(d: nat) -> char {
    (48 + d) as char
}

/// The decimal notation of `n`, without sign or leading zeros.
pub open spec fn decimal(n: nat) -> Seq<char>
    decreases n,
{
    if n < 10 {
        seq![digit_char(n)]
    } else {
        decimal(n / 10).push(digit_char(n % 10))
    }
}

/// Appends the decimal notation of `n` to `out`.
pub fn push_decimal(out: &mut String, n: usize)
    ensures
        final(out)@ == old(out)@ + decimal(n as nat),
    decreases n,
{
    if n >= 10 {
        push_decimal(out, n / 10);
    }
    let d = (n % 10) as u8;
    let c = (48u8 + d) as char;
    assert(c == digit_char((n % 10) as nat));
    out.push(c);
    proof {
        if n >= 10 {
            assert(old(out)@ + decimal(n as nat) =~= old(out)@ + decimal((n / 10) as nat) + seq![c]);
        } else {
            assert(old(out)@ + decimal(n as nat) =~= old(out)@.push(c));
        }
    }
}

/// Appends the decimal notation of `n` to `out`.
pub fn push_decimal_u64(out: &mut String, n: u64)
    ensures
        final(out)@ == old(out)@ + decimal(n as nat),
    decreases n,
{
    if n >= 10 {
        push_decimal_u64(out, n / 10);
    }
    let d = (n % 10) as u8;
    let c = (48u8 + d) as char;
    assert(c == digit_char((n % 10) as nat));
    out.push(c);
    proof {
        if n >= 10 {
            assert(old(out)@ + decimal(n as nat) =~= old(out)@ + decimal((n / 10) as nat) + seq![c]);
        } else {
            assert(old(out)@ + decimal(n as nat) =~= old(out)@.push(c));
        }
    }
}

/// The character is an ASCII digit.
pub open spec fn is_ascii_digit(c: char) -> bool {
    '0' <= c <= '9'
}

/// The value of a string of ASCII digits.
pub open spec fn digits_value(d: Seq<char>) -> nat
    decreases d.len(),
{
    if d.len() == 0 {
        0
    } else {
        digits_value(d.drop_last()) * 10 + ((d.last() as u32) - 48) as nat
    }
}

/// `t` without one leading `+`.
pub open spec fn unsigned_digits(t: Seq<char>) -> Seq<char> {
    if t.len() > 0 && t[0] == '+' {
        t.drop_first()
    } else {
        t
    }
}

/// Every character of `d` is an ASCII digit.
pub open spec fn all_digits(d: Seq<char>) -> bool {
    forall|k: int| 0 <= k < d.len() ==> is_ascii_digit(#[trigger] d[k])
}

/// What `usize::from_str` gives: an optional `+`, then one or more ASCII digits whose
/// value fits in `usize`.
pub open spec fn parse_usize(t: Seq<char>) -> Option<nat> {
    let d = unsigned_digits(t);
    if d.len() > 0 && all_digits(d) && digits_value(d) <= usize::MAX {
        Some(digits_value(d))
    } else {
        None
    }
}

proof fn lemma_digits_value_prefix(d: Seq<char>, i: int)
    requires
        0 <= i <= d.len(),
        forall|k: int| 0 <= k < d.len() ==> is_ascii_digit(#[trigger] d[k]),
    ensures
        digits_value(d.take(i)) <= digits_value(d),
    decreases d.len() - i,
{
    if i < d.len() {
        lemma_digits_value_prefix(d, i + 1);
        assert(d.take(i + 1).drop_last() =~= d.take(i));
        assert(d.take(i + 1).last() == d[i]);
        assert(is_ascii_digit(d[i]));
    } else {
        assert(d.take(i) =~= d);
    }
}

/// `usize::from_str` on `v[from..to]`.
pub fn parse_usize_exec(v: &Vec<char>, from: usize, to: usize) -> (r: Option<usize>)
    requires
        from <= to <= v@.len(),
    ensures
        r matches Some(n) ==> parse_usize(v@.subrange(from as int, to as int)) == Some(n as nat),
        r is None ==> parse_usize(v@.subrange(from as int, to as int)) is None,
{
    let ghost t = v@.subrange(from as int, to as int);
    let mut start = from;
    if from < to && v[from] == '+' {
        start = from + 1;
    }
    let ghost d = v@.subrange(start as int, to as int);
    assert(d =~= unsigned_digits(t));
    if start == to {
        return None;
    }
    let mut acc: usize = 0;
    let mut k = start;
    while k < to
        invariant
            from <= start <= k <= to <= v@.len(),
            d == v@.subrange(start as int, to as int),
            t == v@.subrange(from as int, to as int),
            d == unsigned_digits(t),
            forall|j: int| 0 <= j < k - start ==> is_ascii_digit(#[trigger] d[j]),
            acc == digits_value(d.take(k - start)),
        decreases to - k,
    {
        let c = v[k];
        assert(c == d[k - start]);
        if !('0' <= c && c <= '9') {
            assert(!is_ascii_digit(d[k - start]));
            assert(!all_digits(d));
            assert(parse_usize(t) is None);
            return None;
        }
        let dv = ((c as u32) - 48) as usize;
        proof {
            assert(d.take(k - start + 1).drop_last() =~= d.take(k - start));
            assert(d.take(k - start + 1).last() == c);
            assert(digits_value(d.take(k - start + 1)) == acc * 10 + dv);
        }
        match acc.checked_mul(10) {
            Some(m) => match m.checked_add(dv) {
                Some(n) => {
                    acc = n;
                },
                None => {
                    proof {
                        lemma_rest_digits_and_prefix(d, k - start + 1);
                        assert(parse_usize(t) is None);
                    }
                    return None;
                },
            },
            None => {
                proof {
                    lemma_rest_digits_and_prefix(d, k - start + 1);
                }
                return None;
            },
        }
        k += 1;
    }
    assert(d.take(to - start) =~= d);
    Some(acc)
}

/// When a prefix of `d` already exceeds `usize::MAX` the whole of `d` does too, if it is
/// all digits.
proof fn lemma_rest_digits_and_prefix(d: Seq<char>, i: int)
    requires
        0 <= i <= d.len(),
        digits_value(d.take(i)) > usize::MAX,
    ensures
        all_digits(d) ==> digits_value(d) > usize::MAX,
{
    if all_digits(d) {
        lemma_digits_value_prefix(d, i);
    }
}

/// `t` without its trailing `'\r'` characters.
pub open spec fn trim_end_cr(t: Seq<char>) -> Seq<char>
    decreases t.len(),
{
    if t.len() > 0 && t.last() == '\r' {
        trim_end_cr(t.drop_last())
    } else {
        t
    }
}

/// `t` without its trailing `'\r'` and `'\n'` characters.
pub open spec fn trim_end_crlf(t: Seq<char>) -> Seq<char>
    decreases t.len(),
{
    if t.len() > 0 && (t.last() == '\r' || t.last() == '\n') {
        trim_end_crlf(t.drop_last())
    } else {
        t
    }
}

/// The end of `v[from..to]` once trailing `'\r'` characters are dropped.
pub fn trim_end_cr_exec(v: &Vec<char>, from: usize, to: usize) -> (e: usize)
    requires
        from <= to <= v@.len(),
    ensures
        from <= e <= to,
        v@.subrange(from as int, e as int) == trim_end_cr(v@.subrange(from as int, to as int)),
{
    let mut e = to;
    while e > from && v[e - 1] == '\r'
        invariant
            from <= e <= to <= v@.len(),
            trim_end_cr(v@.subrange(from as int, e as int)) == trim_end_cr(
                v@.subrange(from as int, to as int),
            ),
        decreases e,
    {
        assert(v@.subrange(from as int, e - 1) =~= v@.subrange(from as int, e as int).drop_last());
        e -= 1;
    }
    e
}

/// The end of `v[from..to]` once trailing `'\r'` and `'\n'` characters are dropped.
pub fn trim_end_crlf_exec(v: &Vec<char>, from: usize, to: usize) -> (e: usize)
    requires
        from <= to <= v@.len(),
    ensures
        from <= e <= to,
        v@.subrange(from as int, e as int) == trim_end_crlf(v@.subrange(from as int, to as int)),
{
    let mut e = to;
    while e > from && (v[e - 1] == '\r' || v[e - 1] == '\n')
        invariant
            from <= e <= to <= v@.len(),
            trim_end_crlf(v@.subrange(from as int, e as int)) == trim_end_crlf(
                v@.subrange(from as int, to as int),
            ),
        decreases e,
    {
        assert(v@.subrange(from as int, e - 1) =~= v@.subrange(from as int, e as int).drop_last());
        e -= 1;
    }
    e
}


/// `s` with its first occurrence of `p` replaced by `r` (unchanged without one), as
/// `str::replacen(p, r, 1)` gives.
pub open spec fn replace_first(s: Seq<char>, p: Seq<char>, r: Seq<char>) -> Seq<char> {
    match find_from(s, p, 0) {
        None => s,
        Some(i) => s.take(i) + r + s.skip(i + p.len()),
    }
}

/// `s` with its first occurrence of `p` replaced by `r`.
pub fn replace_first_exec(s: &Vec<char>, p: &Vec<char>, r: &str) -> (out: String)
    ensures
        out@ == replace_first(s@, p@, r@),
{
    proof {
        lemma_find_from_contains(s@, p@, 0);
    }
    match find_from_exec(s, p, 0) {
        None => string_of(s.as_slice()),
        Some(i) => {
            let mut out = String::new();
            assert(matches_at(s@, p@, i as int));
            assert(i + p@.len() <= s.len());
            push_range(&mut out, s, 0, i);
            out.push_str(r);
            push_range(&mut out, s, i + p.len(), s.len());
            assert(out@ =~= replace_first(s@, p@, r@));
            out
        },
    }
}


/// The first of the non-empty patterns `pats[k..]` that occurs in `s` at index `i`.
pub open spec fn first_token_at(s: Seq<char>, pats: Seq<Seq<char>>, i: int, k: int) -> Option<int>
    decreases pats.len() - k,
{
    if k < 0 || k >= pats.len() {
        None
    } else if pats[k].len() > 0 && matches_at(s, pats[k], i) {
        Some(k)
    } else {
        first_token_at(s, pats, i, k + 1)
    }
}

pub proof fn lemma_first_token_at(s: Seq<char>, pats: Seq<Seq<char>>, i: int, k: int)
    requires
        0 <= k,
    ensures
        first_token_at(s, pats, i, k) matches Some(j) ==> k <= j < pats.len() && pats[j].len() > 0
            && matches_at(s, pats[j], i),
    decreases pats.len() - k,
{
    if k < pats.len() && !(pats[k].len() > 0 && matches_at(s, pats[k], i)) {
        lemma_first_token_at(s, pats, i, k + 1);
    }
}

/// `s` scanned left to right: wherever one of the patterns occurs, the first such pattern
/// is replaced by its replacement `reps[j]` and scanning resumes after it.
pub open spec fn replace_tokens(s: Seq<char>, pats: Seq<Seq<char>>, reps: Seq<Seq<char>>) -> Seq<
    char,
>
    decreases s.len(),
{
    if s.len() == 0 {
        s
    } else {
        match first_token_at(s, pats, 0, 0) {
            Some(j) => {
                proof {
                    lemma_first_token_at(s, pats, 0, 0);
                }
                reps[j] + replace_tokens(s.skip(pats[j].len() as int), pats, reps)
            },
            None => seq![s[0]] + replace_tokens(s.drop_first(), pats, reps),
        }
    }
}

/// The first of `pats[k..]` that is non-empty and occurs in `v` at index `i`.
pub fn first_token_at_exec(v: &Vec<char>, pats: &Vec<Vec<char>>, i: usize) -> (r: Option<usize>)
    ensures
        r matches Some(j) ==> first_token_at(v@, pats_view(pats@), i as int, 0) == Some(j as int),
        r is None ==> first_token_at(v@, pats_view(pats@), i as int, 0) is None,
{
    let mut k: usize = 0;
    while k < pats.len()
        invariant
            k <= pats@.len(),
            first_token_at(v@, pats_view(pats@), i as int, 0) == first_token_at(
                v@,
                pats_view(pats@),
                i as int,
                k as int,
            ),
        decreases pats@.len() - k,
    {
        if pats[k].len() > 0 && matches_at_exec(v, &pats[k], i) {
            return Some(k);
        }
        k += 1;
    }
    None
}

/// The character sequences of the patterns.
pub open spec fn pats_view(p: Seq<Vec<char>>) -> Seq<Seq<char>> {
    Seq::new(p.len(), |k: int| p[k]@)
}

/// `v` with each occurrence of a pattern (the first one that fits, scanning left to right)
/// replaced by its replacement.
pub fn replace_tokens_exec(v: &Vec<char>, pats: &Vec<Vec<char>>, reps: &Vec<String>) -> (out: String)
    requires
        pats@.len() == reps@.len(),
    ensures
        out@ == replace_tokens(v@, pats_view(pats@), Seq::new(reps@.len(), |k: int| reps@[k]@)),
{
    let ghost ps = pats_view(pats@);
    let ghost rs = Seq::new(reps@.len(), |k: int| reps@[k]@);
    let mut out = String::new();
    let mut i: usize = 0;
    assert(v@.skip(0) =~= v@);
    while i < v.len()
        invariant
            pats@.len() == reps@.len(),
            ps == pats_view(pats@),
            rs == Seq::new(reps@.len(), |k: int| reps@[k]@),
            i <= v@.len(),
            out@ + replace_tokens(v@.skip(i as int), ps, rs) == replace_tokens(v@, ps, rs),
        decreases v@.len() - i,
    {
        proof {
            lemma_skip_shift(v@, i as int, 0);
            lemma_first_token_at(v@, ps, i as int, 0);
            lemma_first_token_at_shift(v@, ps, i as int, 0);
        }
        match first_token_at_exec(v, pats, i) {
            Some(j) => {
                proof {
                    lemma_skip_shift(v@, i as int, ps[j as int].len() as int);
                }
                out.push_str(reps[j].as_str());
                assert(out@ + replace_tokens(v@.skip(i + ps[j as int].len()), ps, rs)
                    =~= replace_tokens(v@, ps, rs));
                i += pats[j].len();
            },
            None => {
                out.push(v[i]);
                assert(out@ + replace_tokens(v@.skip(i + 1), ps, rs) =~= replace_tokens(v@, ps, rs));
                i += 1;
            },
        }
    }
    assert(out@ =~= replace_tokens(v@, ps, rs));
    out
}

proof fn lemma_first_token_at_shift(s: Seq<char>, pats: Seq<Seq<char>>, i: int, k: int)
    requires
        0 <= i <= s.len(),
        0 <= k,
    ensures
        first_token_at(s.skip(i), pats, 0, k) == first_token_at(s, pats, i, k),
    decreases pats.len() - k,
{
    lemma_skip_shift(s, i, 0);
    if k < pats.len() {
        lemma_first_token_at_shift(s, pats, i, k + 1);
    }
}


/// `t` without leading whitespace.
pub open spec fn trim_start(t: Seq<char>) -> Seq<char>
    decreases t.len(),
{
    if t.len() > 0 && is_whitespace(t[0]) {
        trim_start(t.drop_first())
    } else {
        t
    }
}

/// `t` without trailing whitespace.
pub open spec fn trim_end(t: Seq<char>) -> Seq<char>
    decreases t.len(),
{
    if t.len() > 0 && is_whitespace(t.last()) {
        trim_end(t.drop_last())
    } else {
        t
    }
}

/// `t` without leading and trailing whitespace, as `str::trim` gives.
pub open spec fn trim(t: Seq<char>) -> Seq<char> {
    trim_end(trim_start(t))
}

/// The bounds of `v[from..to]` once leading and trailing whitespace is dropped.
pub fn trim_bounds(v: &Vec<char>, from: usize, to: usize) -> (r: (usize, usize))
    requires
        from <= to <= v@.len(),
    ensures
        from <= r.0 <= r.1 <= to,
        v@.subrange(r.0 as int, r.1 as int) == trim(v@.subrange(from as int, to as int)),
        v@.subrange(r.0 as int, to as int) == trim_start(v@.subrange(from as int, to as int)),
{
    let mut a = from;
    while a < to && is_whitespace_exec(v[a])
        invariant
            from <= a <= to <= v@.len(),
            trim_start(v@.subrange(a as int, to as int)) == trim_start(
                v@.subrange(from as int, to as int),
            ),
        decreases to - a,
    {
        assert(v@.subrange(a + 1, to as int) =~= v@.subrange(a as int, to as int).drop_first());
        a += 1;
    }
    let mut b = to;
    while b > a && is_whitespace_exec(v[b - 1])
        invariant
            from <= a <= b <= to <= v@.len(),
            trim_end(v@.subrange(a as int, b as int)) == trim_end(v@.subrange(a as int, to as int)),
        decreases b,
    {
        assert(v@.subrange(a as int, b - 1) =~= v@.subrange(a as int, b as int).drop_last());
        b -= 1;
    }
    (a, b)
}

/// `s` with leading and trailing whitespace removed.
pub fn trim_exec(s: &str) -> (r: String)
    ensures
        r@ == trim(s@),
{
    let v = chars_of(s);
    let (a, b) = trim_bounds(&v, 0, v.len());
    assert(v@.subrange(0, v@.len() as int) =~= v@);
    let mut r = String::new();
    push_range(&mut r, &v, a, b);
    assert(r@ =~= trim(s@));
    r
}

/// The ASCII letters are lowercased, every other character stays.
pub open spec fn ascii_lower_char(c: char) -> char {
    if 'A' <= c <= 'Z' {
        ((c as u32) + 32) as char
    } else {
        c
    }
}

/// `s` with ASCII letters lowercased, as `str::to_ascii_lowercase` gives.
pub open spec fn ascii_lowercase(s: Seq<char>) -> Seq<char> {
    Seq::new(s.len(), |k: int| ascii_lower_char(s[k]))
}

pub fn ascii_lower_char_exec(c: char) -> (r: char)
    ensures
        r == ascii_lower_char(c),
{
    if 'A' <= c && c <= 'Z' {
        let v = (c as u32) + 32;
        let r = (v as u8) as char;
        assert(r == ascii_lower_char(c)) by {
            assert(v < 128);
        }
        r
    } else {
        c
    }
}

/// Whether `s` equals `t` when ASCII letters are compared without case.
pub fn eq_ignore_ascii_case(s: &Vec<char>, t: &Vec<char>) -> (b: bool)
    ensures
        b == (ascii_lowercase(s@) == ascii_lowercase(t@)),
{
    if s.len() != t.len() {
        assert(ascii_lowercase(s@).len() != ascii_lowercase(t@).len());
        return false;
    }
    let mut k: usize = 0;
    while k < s.len()
        invariant
            s@.len() == t@.len(),
            k <= s@.len(),
            forall|j: int| 0 <= j < k ==> ascii_lower_char(s@[j]) == ascii_lower_char(t@[j]),
        decreases s@.len() - k,
    {
        if ascii_lower_char_exec(s[k]) != ascii_lower_char_exec(t[k]) {
            assert(ascii_lowercase(s@)[k as int] != ascii_lowercase(t@)[k as int]);
            return false;
        }
        k += 1;
    }
    assert(ascii_lowercase(s@) =~= ascii_lowercase(t@));
    true
}

/// `s` with ASCII letters lowercased.
pub fn ascii_lowercase_exec(s: &str) -> (r: String)
    ensures
        r@ == ascii_lowercase(s@),
{
    let v = chars_of(s);
    let mut r = String::new();
    let mut k: usize = 0;
    while k < v.len()
        invariant
            k <= v@.len(),
            r@ == ascii_lowercase(v@.take(k as int)),
        decreases v@.len() - k,
    {
        r.push(ascii_lower_char_exec(v[k]));
        k += 1;
        assert(r@ =~= ascii_lowercase(v@.take(k as int)));
    }
    assert(v@.take(k as int) =~= v@);
    r
}

/// The character index at which the first `b` bytes of `s` end, scanning from index `i`
/// where `acc` bytes end.
pub open spec fn char_index_from(s: Seq<char>, b: int, i: int, acc: int) -> Option<int>
    decreases s.len() - i,
{
    if acc == b {
        Some(i)
    } else if acc > b || i < 0 || i >= s.len() {
        None
    } else {
        char_index_from(s, b, i + 1, acc + char_width(s[i]))
    }
}

/// The character index at which the first `b` bytes of `s` end, when `b` is a character
/// boundary.
pub open spec fn char_at_byte(s: Seq<char>, b: int) -> Option<int> {
    char_index_from(s, b, 0, 0)
}

pub proof fn lemma_char_index_bound(s: Seq<char>, b: int, i: int, acc: int)
    requires
        0 <= i <= s.len(),
    ensures
        char_index_from(s, b, i, acc) matches Some(k) ==> i <= k <= s.len(),
    decreases s.len() - i,
{
    if acc != b && !(acc > b || i >= s.len()) {
        lemma_char_index_bound(s, b, i + 1, acc + char_width(s[i]));
    }
}

/// The character index where the first `b` bytes of `v` end, if that is a boundary.
pub fn char_index_for_byte(v: &Vec<char>, b: usize) -> (r: Option<usize>)
    requires
        utf8_len(v@) <= usize::MAX,
    ensures
        r matches Some(k) ==> char_at_byte(v@, b as int) == Some(k as int),
        r is None ==> char_at_byte(v@, b as int) is None,
{
    let mut i: usize = 0;
    let mut acc: usize = 0;
    assert(v@.take(0) =~= Seq::<char>::empty());
    while acc != b
        invariant
            i <= v@.len(),
            acc == utf8_len(v@.take(i as int)),
            utf8_len(v@) <= usize::MAX,
            char_at_byte(v@, b as int) == char_index_from(v@, b as int, i as int, acc as int),
        decreases v@.len() - i,
    {
        if acc > b || i >= v.len() {
            return None;
        }
        proof {
            lemma_utf8_len_take_step(v@, i as int);
            lemma_utf8_len_monotone(v@, i + 1, v@.len() as int);
            assert(v@.take(v@.len() as int) =~= v@);
        }
        acc = acc + char_width_exec(v[i]);
        i += 1;
    }
    Some(i)
}


/// `h` from index `from` on, with each range of `spans` (in order) replaced by the
/// matching entry of `reps`.
pub open spec fn splice(h: Seq<char>, spans: Seq<(int, int)>, reps: Seq<Seq<char>>, from: int) -> Seq<
    char,
>
    decreases spans.len(),
{
    if spans.len() == 0 {
        h.subrange(from, h.len() as int)
    } else {
        h.subrange(from, spans[0].0) + reps[0] + splice(h, spans.drop_first(), reps.drop_first(), spans[0].1)
    }
}

/// The ranges are in order, do not overlap, and lie within `0..n` from `from` on.
pub open spec fn ranges_ordered(spans: Seq<(int, int)>, from: int, n: int) -> bool {
    &&& forall|i: int| 0 <= i < spans.len() ==> from <= #[trigger] spans[i].0 <= spans[i].1 <= n
    &&& forall|i: int, j: int| 0 <= i < j < spans.len() ==> #[trigger] spans[i].1 <= #[trigger] spans[j].0
}

/// The ranges as plain values.
pub open spec fn ranges_view(s: Seq<(usize, usize)>) -> Seq<(int, int)> {
    Seq::new(s.len(), |k: int| (s[k].0 as int, s[k].1 as int))
}

/// `v` with each range of `spans` replaced by the matching entry of `reps`.
pub fn splice_exec(v: &Vec<char>, spans: &Vec<(usize, usize)>, reps: &Vec<String>) -> (out: String)
    requires
        spans@.len() == reps@.len(),
        ranges_ordered(ranges_view(spans@), 0, v@.len() as int),
    ensures
        out@ == splice(v@, ranges_view(spans@), Seq::new(reps@.len(), |k: int| reps@[k]@), 0),
{
    let ghost rs = Seq::new(reps@.len(), |k: int| reps@[k]@);
    let ghost sp = ranges_view(spans@);
    let mut out = String::new();
    let mut cursor: usize = 0;
    let mut i: usize = 0;
    assert(sp.skip(0) =~= sp);
    assert(rs.skip(0) =~= rs);
    while i < spans.len()
        invariant
            spans@.len() == reps@.len(),
            rs == Seq::new(reps@.len(), |k: int| reps@[k]@),
            sp == ranges_view(spans@),
            ranges_ordered(sp, 0, v@.len() as int),
            i <= spans@.len(),
            cursor <= v@.len(),
            i < spans@.len() ==> cursor <= sp[i as int].0,
            i > 0 ==> cursor == sp[i - 1].1,
            out@ + splice(v@, sp.skip(i as int), rs.skip(i as int), cursor as int) == splice(
                v@,
                sp,
                rs,
                0,
            ),
        decreases spans@.len() - i,
    {
        let (a, b) = spans[i];
        let ghost prev = out@;
        push_range(&mut out, v, cursor, a);
        out.push_str(reps[i].as_str());
        proof {
            assert(sp.skip(i as int)[0] == sp[i as int]);
            assert(rs.skip(i as int)[0] == rs[i as int]);
            assert(sp.skip(i as int).drop_first() =~= sp.skip(i + 1));
            assert(rs.skip(i as int).drop_first() =~= rs.skip(i + 1));
        }
        cursor = b;
        i += 1;
        proof {
            if i < spans@.len() {
                assert(sp[i - 1].1 <= sp[i as int].0);
            }
        }
    }
    push_range(&mut out, v, cursor, v.len());
    assert(sp.skip(i as int) =~= Seq::<(int, int)>::empty());
    out
}

} // verus!
