//! Character-level text helpers: ASCII case folding, decimal rendering of
//! unsigned and signed integers, and the elapsed-time display string, each
//! with an exact specification over sequences of characters.

use vstd::prelude::*;
use vstd::string::StrSliceExecFns;

verus! {

/// ASCII lower-casing of one character; characters outside `A..=Z` are kept.
pub open spec fn lower_char(c: char) -> char {
    if 'A' <= c && c <= 'Z' {
        ((c as u8) + 32) as char
    } else {
        c
    }
}

/// ASCII upper-casing of one character; characters outside `a..=z` are kept.
pub open spec fn upper_char(c: char) -> char {
    if 'a' <= c && c <= 'z' {
        ((c as u8) - 32) as char
    } else {
        c
    }
}

pub open spec fn lower_seq(s: Seq<char>) -> Seq<char> {
    Seq::new(s.len(), |i: int| lower_char(s[i]))
}

pub open spec fn upper_seq(s: Seq<char>) -> Seq<char> {
    Seq::new(s.len(), |i: int| upper_char(s[i]))
}

fn lower_char_exec(c: char) -> (r: char)
    ensures
        r == lower_char(c),
{
    let u = c as u32;
    if 65 <= u && u <= 90 {
        ((u + 32) as u8) as char
    } else {
        c
    }
}

fn upper_char_exec(c: char) -> (r: char)
    ensures
        r == upper_char(c),
{
    let u = c as u32;
    if 97 <= u && u <= 122 {
        ((u - 32) as u8) as char
    } else {
        c
    }
}

/// Does the ASCII lower-casing of `s` read exactly as `t`?
pub fn str_eq_lowered(s: &str, t: &str) -> (r: bool)
    ensures
        r == (lower_seq(s@) == t@),
{
    let n = s.unicode_len();
    let m = t.unicode_len();
    if n != m {
        return false;
    }
    let mut i: usize = 0;
    while i < n
        invariant
            i <= n,
            n == s@.len(),
            n == t@.len(),
            forall|j: int| 0 <= j < i ==> lower_char(s@[j]) == t@[j],
        decreases n - i,
    {
        let cs = lower_char_exec(s.get_char(i));
        let ct = t.get_char(i);
        if cs != ct {
            return false;
        }
        i += 1;
    }
    proof {
        assert(lower_seq(s@) =~= t@);
    }
    true
}

/// Do the two pieces of text read exactly the same?
pub fn str_eq(s: &str, t: &str) -> (r: bool)
    ensures
        r == (s@ == t@),
{
    let n = s.unicode_len();
    let m = t.unicode_len();
    if n != m {
        return false;
    }
    let mut i: usize = 0;
    while i < n
        invariant
            i <= n,
            n == s@.len(),
            n == t@.len(),
            forall|j: int| 0 <= j < i ==> s@[j] == t@[j],
        decreases n - i,
    {
        if s.get_char(i) != t.get_char(i) {
            return false;
        }
        i += 1;
    }
    proof {
        assert(s@ =~= t@);
    }
    true
}

/// Does the ASCII upper-casing of `s` read exactly as `t`?
pub fn str_eq_uppered(s: &str, t: &str) -> (r: bool)
    ensures
        r == (upper_seq(s@) == t@),
{
    let n = s.unicode_len();
    let m = t.unicode_len();
    if n != m {
        return false;
    }
    let mut i: usize = 0;
    while i < n
        invariant
            i <= n,
            n == s@.len(),
            n == t@.len(),
            forall|j: int| 0 <= j < i ==> upper_char(s@[j]) == t@[j],
        decreases n - i,
    {
        let cs = upper_char_exec(s.get_char(i));
        let ct = t.get_char(i);
        if cs != ct {
            return false;
        }
        i += 1;
    }
    proof {
        assert(upper_seq(s@) =~= t@);
    }
    true
}

/// Does `needle` occur contiguously inside `hay`?
pub open spec fn has_substring(hay: Seq<char>, needle: Seq<char>) -> bool {
    exists|o: int|
        0 <= o && o + needle.len() <= hay.len() && #[trigger] hay.subrange(o, o + needle.len())
            == needle
}

fn lowered_match_at(hay: &str, needle: &str, o: usize) -> (r: bool)
    requires
        o + needle@.len() <= hay@.len(),
    ensures
        r == (lower_seq(hay@).subrange(o as int, o as int + needle@.len() as int) == needle@),
{
    let nh = hay.unicode_len();
    let m = needle.unicode_len();
    let mut k: usize = 0;
    while k < m
        invariant
            k <= m,
            m == needle@.len(),
            nh == hay@.len(),
            o + m <= nh,
            forall|q: int| 0 <= q < k ==> lower_char(hay@[o + q]) == needle@[q],
        decreases m - k,
    {
        if lower_char_exec(hay.get_char(o + k)) != needle.get_char(k) {
            proof {
                assert(lower_seq(hay@).subrange(o as int, o as int + m as int)[k as int]
                    == lower_char(hay@[o + k]));
            }
            return false;
        }
        k += 1;
    }
    proof {
        assert(lower_seq(hay@).subrange(o as int, o as int + m as int) =~= needle@);
    }
    true
}

/// Does `needle` occur inside the ASCII lower-casing of `hay`?
pub fn lowered_contains(hay: &str, needle: &str) -> (r: bool)
    ensures
        r == has_substring(lower_seq(hay@), needle@),
{
    let n = hay.unicode_len();
    let m = needle.unicode_len();
    if m > n {
        proof {
            assert(lower_seq(hay@).len() == hay@.len());
        }
        return false;
    }
    if m == 0 {
        proof {
            let zero: int = 0;
            assert(lower_seq(hay@).subrange(zero, zero + needle@.len() as int) =~= needle@);
            assert(has_substring(lower_seq(hay@), needle@));
        }
        return true;
    }
    let mut o: usize = 0;
    while o <= n - m
        invariant
            1 <= m <= n,
            n == hay@.len(),
            m == needle@.len(),
            o <= n - m + 1,
            forall|p: int|
                0 <= p < o ==> #[trigger] lower_seq(hay@).subrange(p, p + needle@.len() as int)
                    != needle@,
        decreases n - o,
    {
        if lowered_match_at(hay, needle, o) {
            return true;
        }
        o += 1;
    }
    proof {
        assert(lower_seq(hay@).len() == hay@.len());
    }
    false
}

/// The text with any run of `*` at its end removed: the element type name
/// inside a pointer type name.
pub open spec fn trimmed_stars(s: Seq<char>) -> Seq<char>
    decreases s.len(),
{
    if s.len() > 0 && s.last() == '*' {
        trimmed_stars(s.drop_last())
    } else {
        s
    }
}

/// Removes the trailing `*` of a reported pointer type name.
pub fn trim_stars(s: &str) -> (r: &str)
    ensures
        r@ == trimmed_stars(s@),
{
    let n = s.unicode_len();
    let mut e: usize = n;
    proof {
        assert(s@.subrange(0, n as int) =~= s@);
    }
    while e > 0 && s.get_char(e - 1) == '*'
        invariant
            e <= n,
            n == s@.len(),
            trimmed_stars(s@) == trimmed_stars(s@.subrange(0, e as int)),
        decreases e,
    {
        proof {
            assert(s@.subrange(0, e as int).drop_last() =~= s@.subrange(0, e as int - 1));
            assert(s@.subrange(0, e as int).last() == s@[e as int - 1]);
        }
        e -= 1;
    }
    proof {
        if e > 0 {
            assert(s@.subrange(0, e as int).last() == s@[e as int - 1]);
        }
        assert(trimmed_stars(s@.subrange(0, e as int)) == s@.subrange(0, e as int));
    }
    s.substring_char(0, e)
}

/// The character for one decimal digit.
pub open spec fn digit_char(d: int) -> char {
    (48 + d) as char
}

/// The decimal rendering of a natural number, most significant digit first.
pub open spec fn dec_rep(n: nat) -> Seq<char>
    decreases n,
{
    if n < 10 {
        seq![digit_char(n as int)]
    } else {
        dec_rep(n / 10) + seq![digit_char((n % 10) as int)]
    }
}

/// The decimal rendering of an integer: a minus sign before the magnitude.
pub open spec fn int_dec_rep(i: int) -> Seq<char> {
    if i < 0 {
        seq!['-'] + dec_rep((-i) as nat)
    } else {
        dec_rep(i as nat)
    }
}

fn digit_str(d: u8) -> (r: &'static str)
    requires
        d < 10,
    ensures
        r@ == seq![digit_char(d as int)],
{
    proof {
        reveal_strlit("0");
        reveal_strlit("1");
        reveal_strlit("2");
        reveal_strlit("3");
        reveal_strlit("4");
        reveal_strlit("5");
        reveal_strlit("6");
        reveal_strlit("7");
        reveal_strlit("8");
        reveal_strlit("9");
    }
    if d == 0 {
        "0"
    } else if d == 1 {
        "1"
    } else if d == 2 {
        "2"
    } else if d == 3 {
        "3"
    } else if d == 4 {
        "4"
    } else if d == 5 {
        "5"
    } else if d == 6 {
        "6"
    } else if d == 7 {
        "7"
    } else if d == 8 {
        "8"
    } else {
        "9"
    }
}

spec fn pow10(k: nat) -> nat
    decreases k,
{
    if k == 0 {
        1
    } else {
        10 * pow10((k - 1) as nat)
    }
}

/// The value of a digit sequence given least significant digit first.
spec fn digits_val(ds: Seq<u8>) -> nat
    decreases ds.len(),
{
    if ds.len() == 0 {
        0
    } else {
        (ds[0] + 10 * digits_val(ds.drop_first())) as nat
    }
}

/// The rendering of a least-significant-first digit sequence, read out most
/// significant digit first.
spec fn digits_render(ds: Seq<u8>) -> Seq<char>
    decreases ds.len(),
{
    if ds.len() == 0 {
        Seq::empty()
    } else {
        digits_render(ds.drop_first()) + seq![digit_char(ds[0] as int)]
    }
}

proof fn lemma_digits_val_push(ds: Seq<u8>, d: u8)
    ensures
        digits_val(ds.push(d)) == digits_val(ds) + d * pow10(ds.len()),
    decreases ds.len(),
{
    if ds.len() == 0 {
        assert(ds.push(d).drop_first() =~= Seq::<u8>::empty());
        assert(digits_val(Seq::<u8>::empty()) == 0);
        assert(digits_val(ds) == 0);
        assert(pow10(0) == 1);
        assert(digits_val(ds.push(d)) == d);
    } else {
        assert(ds.push(d).drop_first() =~= ds.drop_first().push(d));
        lemma_digits_val_push(ds.drop_first(), d);
        assert(digits_val(ds.push(d)) == ds[0] + 10 * (digits_val(ds.drop_first()) + d * pow10(
            (ds.len() - 1) as nat,
        )));
        assert(10 * (digits_val(ds.drop_first()) + d * pow10((ds.len() - 1) as nat)) == 10
            * digits_val(ds.drop_first()) + d * pow10(ds.len())) by (nonlinear_arith)
            requires
                pow10(ds.len()) == 10 * pow10((ds.len() - 1) as nat),
        ;
    }
}

proof fn lemma_digits_val_pos(ds: Seq<u8>)
    requires
        ds.len() >= 1,
        ds.last() != 0,
    ensures
        digits_val(ds) >= 1,
    decreases ds.len(),
{
    if ds.len() == 1 {
    } else {
        lemma_digits_val_pos(ds.drop_first());
    }
}

proof fn lemma_digits_render_is_dec_rep(ds: Seq<u8>)
    requires
        ds.len() >= 1,
        forall|j: int| 0 <= j < ds.len() ==> ds[j] < 10,
        ds.last() != 0 || ds.len() == 1,
    ensures
        dec_rep(digits_val(ds)) == digits_render(ds),
    decreases ds.len(),
{
    if ds.len() == 1 {
        assert(ds.drop_first() =~= Seq::<u8>::empty());
        assert(digits_val(Seq::<u8>::empty()) == 0);
        assert(digits_render(Seq::<u8>::empty()) =~= Seq::<char>::empty());
        assert(digits_val(ds) == ds[0]);
        assert(digits_render(ds) =~= seq![digit_char(ds[0] as int)]);
    } else {
        let rest = ds.drop_first();
        lemma_digits_val_pos(rest);
        let v = digits_val(ds);
        let rv = digits_val(rest);
        assert(v == ds[0] + 10 * rv);
        assert(v / 10 == rv && v % 10 == ds[0]) by (nonlinear_arith)
            requires
                v == ds[0] + 10 * rv,
                0 <= ds[0] < 10,
                rv >= 0,
        ;
        assert(v >= 10) by (nonlinear_arith)
            requires
                v == ds[0] + 10 * rv,
                rv >= 1,
                ds[0] >= 0,
        ;
        lemma_digits_render_is_dec_rep(rest);
    }
}

/// The decimal rendering of `n`.
pub fn format_u128(n: u128) -> (r: String)
    ensures
        r@ == dec_rep(n as nat),
{
    let mut digits: Vec<u8> = Vec::new();
    let mut m = n;
    proof {
        assert(digits_val(Seq::<u8>::empty()) == 0);
        assert(pow10(0) == 1);
    }
    while m >= 10
        invariant
            n as nat == digits_val(digits@) + (m as nat) * pow10(digits@.len()),
            forall|j: int| 0 <= j < digits@.len() ==> digits@[j] < 10,
            digits@.len() > 0 ==> m >= 1,
        decreases m,
    {
        let d = (m % 10) as u8;
        let ghost old_digits = digits@;
        let ghost old_m = m as nat;
        digits.push(d);
        m = m / 10;
        proof {
            lemma_digits_val_push(old_digits, d);
            assert(old_m * pow10(old_digits.len()) == (old_m / 10) * pow10(old_digits.len() + 1) + (
            old_m % 10) * pow10(old_digits.len())) by (nonlinear_arith)
                requires
                    pow10(old_digits.len() + 1) == 10 * pow10(old_digits.len()),
                    old_m >= 0,
            ;
        }
    }
    let d = m as u8;
    let ghost old_digits = digits@;
    digits.push(d);
    proof {
        lemma_digits_val_push(old_digits, d);
        assert((m as nat) * pow10(old_digits.len()) == (d as nat) * pow10(old_digits.len()));
        assert(digits_val(digits@) == n as nat);
        lemma_digits_render_is_dec_rep(digits@);
    }
    let mut r = String::new();
    let mut i = digits.len();
    while i > 0
        invariant
            i <= digits@.len(),
            forall|j: int| 0 <= j < digits@.len() ==> digits@[j] < 10,
            r@ == digits_render(digits@.skip(i as int)),
        decreases i,
    {
        i = i - 1;
        let ghost before = digits@.skip(i as int + 1);
        r.append(digit_str(digits[i]));
        proof {
            assert(digits@.skip(i as int).drop_first() =~= before);
        }
    }
    proof {
        assert(digits@.skip(0) =~= digits@);
    }
    r
}

/// The decimal rendering of `n`.
pub fn format_u64(n: u64) -> (r: String)
    ensures
        r@ == dec_rep(n as nat),
{
    format_u128(n as u128)
}

/// The decimal rendering of `i`, with a leading minus sign when negative.
pub fn format_i64(i: i64) -> (r: String)
    ensures
        r@ == int_dec_rep(i as int),
{
    if i < 0 {
        let w = i as i128;
        let mag = (-w) as u128;
        let mut r = String::new();
        proof {
            reveal_strlit("-");
        }
        r.append("-");
        let tail = format_u128(mag);
        r.append(tail.as_str());
        r
    } else {
        format_u128(i as u128)
    }
}

/// `n` rendered in decimal, left padded with zeros to at least two digits.
pub open spec fn pad2(n: nat) -> Seq<char> {
    if n < 10 {
        seq!['0'] + dec_rep(n)
    } else {
        dec_rep(n)
    }
}

/// `n` rendered in decimal, left padded with zeros to at least three digits.
pub open spec fn pad3(n: nat) -> Seq<char> {
    if n < 10 {
        seq!['0', '0'] + dec_rep(n)
    } else if n < 100 {
        seq!['0'] + dec_rep(n)
    } else {
        dec_rep(n)
    }
}

fn format_pad2(n: u128) -> (r: String)
    ensures
        r@ == pad2(n as nat),
{
    let mut r = String::new();
    proof {
        reveal_strlit("0");
    }
    if n < 10 {
        r.append("0");
    }
    let tail = format_u128(n);
    r.append(tail.as_str());
    r
}

fn format_pad3(n: u128) -> (r: String)
    ensures
        r@ == pad3(n as nat),
{
    let mut r = String::new();
    proof {
        reveal_strlit("0");
    }
    if n < 10 {
        r.append("0");
        r.append("0");
    } else if n < 100 {
        r.append("0");
    }
    let tail = format_u128(n);
    r.append(tail.as_str());
    r
}

/// The display form of an elapsed time of `total_millis` milliseconds:
/// the leading all-zero units are left off, each number is zero padded,
/// and the units are `h`, `m`, `s` and `ms`.
pub open spec fn duration_display(total: nat) -> Seq<char> {
    let ms = total % 1000;
    let sec = (total / 1000) % 60;
    let min = (total / 60000) % 60;
    let hr = total / 3600000;
    if hr > 0 {
        pad2(hr) + seq!['h', ' '] + pad2(min) + seq!['m', ' '] + pad2(sec) + seq!['s', ' '] + pad3(
            ms,
        ) + seq!['m', 's']
    } else if min > 0 {
        pad2(min) + seq!['m', ' '] + pad2(sec) + seq!['s', ' '] + pad3(ms) + seq!['m', 's']
    } else if sec > 0 {
        pad2(sec) + seq!['s', ' '] + pad3(ms) + seq!['m', 's']
    } else {
        pad3(ms) + seq!['m', 's']
    }
}

/// Renders a millisecond count for status reporting.
pub fn duration_to_display_str(total_millis: u128) -> (r: String)
    ensures
        r@ == duration_display(total_millis as nat),
{
    proof {
        reveal_strlit("h ");
        reveal_strlit("m ");
        reveal_strlit("s ");
        reveal_strlit("ms");
    }
    let ms = total_millis % 1000;
    let sec = (total_millis / 1000) % 60;
    let min = (total_millis / 60000) % 60;
    let hr = total_millis / 3600000;
    let mut r = String::new();
    if hr > 0 {
        let p = format_pad2(hr);
        r.append(p.as_str());
        r.append("h ");
    }
    if hr > 0 || min > 0 {
        let p = format_pad2(min);
        r.append(p.as_str());
        r.append("m ");
    }
    if hr > 0 || min > 0 || sec > 0 {
        let p = format_pad2(sec);
        r.append(p.as_str());
        r.append("s ");
    }
    let p = format_pad3(ms);
    r.append(p.as_str());
    r.append("ms");
    r
}

} // verus!
