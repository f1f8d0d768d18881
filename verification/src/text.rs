//! Character-level helpers on strings: Unicode white space, trimming, ASCII case folding,
//! substring search and the std case mappings.

use vstd::prelude::*;

verus! {

/// The characters of `s`, in order.
pub fn str_chars(s: &str) -> (v: Vec<char>)
    ensures
        v@ == s@,
{
    let mut v: Vec<char> = Vec::new();
    for c in it: s.chars()
        invariant
            v@ == it.seq().take(it.index() as int),
    {
        v.push(c);
    }
    proof {
        assert(v@ =~= s@);
    }
    v
}

/// Character-wise equality of two strings.
pub fn str_eq(a: &str, b: &str) -> (r: bool)
    ensures
        r == (a@ == b@),
{
    let av = str_chars(a);
    let bv = str_chars(b);
    chars_eq(&av, &bv)
}

/// Element-wise equality of two character vectors.
pub fn chars_eq(a: &Vec<char>, b: &Vec<char>) -> (r: bool)
    ensures
        r == (a@ == b@),
{
    if a.len() != b.len() {
        return false;
    }
    let mut i: usize = 0;
    while i < a.len()
        invariant
            a@.len() == b@.len(),
            i <= a@.len(),
            forall|j: int| 0 <= j < i ==> a@[j] == b@[j],
        decreases a@.len() - i,
    {
        if a[i] != b[i] {
            return false;
        }
        i += 1;
    }
    proof {
        assert(a@ =~= b@);
    }
    true
}

/// The Unicode `White_Space` property, which `char::is_whitespace` and `str::trim` use.
pub open spec fn is_white_space(c: char) -> bool {
    let u = c as u32;
    (0x9 <= u && u <= 0xD) || u == 0x20 || u == 0x85 || u == 0xA0 || u == 0x1680 || (0x2000 <= u
        && u <= 0x200A) || u == 0x2028 || u == 0x2029 || u == 0x202F || u == 0x205F || u == 0x3000
}

pub fn char_is_white_space(c: char) -> (r: bool)
    ensures
        r == is_white_space(c),
{
    let u = c as u32;
    (0x9 <= u && u <= 0xD) || u == 0x20 || u == 0x85 || u == 0xA0 || u == 0x1680 || (0x2000 <= u
        && u <= 0x200A) || u == 0x2028 || u == 0x2029 || u == 0x202F || u == 0x205F || u == 0x3000
}

/// `s` without its leading white space.
pub open spec fn trim_start_seq(s: Seq<char>) -> Seq<char>
    decreases s.len(),
{
    if s.len() > 0 && is_white_space(s[0]) {
        trim_start_seq(s.drop_first())
    } else {
        s
    }
}

/// `s` without its trailing white space.
pub open spec fn trim_end_seq(s: Seq<char>) -> Seq<char>
    decreases s.len(),
{
    if s.len() > 0 && is_white_space(s.last()) {
        trim_end_seq(s.drop_last())
    } else {
        s
    }
}

/// `s` without leading and trailing white space (what `str::trim` returns).
pub open spec fn trim_seq(s: Seq<char>) -> Seq<char> {
    trim_end_seq(trim_start_seq(s))
}

proof fn lemma_trim_start_at(s: Seq<char>, k: int)
    requires
        0 <= k <= s.len(),
        forall|i: int| 0 <= i < k ==> is_white_space(#[trigger] s[i]),
        k == s.len() || !is_white_space(s[k]),
    ensures
        trim_start_seq(s) == s.subrange(k, s.len() as int),
    decreases k,
{
    if k == 0 {
        assert(s.subrange(0, s.len() as int) =~= s);
    } else {
        let t = s.drop_first();
        assert forall|i: int| 0 <= i < k - 1 implies is_white_space(#[trigger] t[i]) by {
            assert(t[i] == s[i + 1]);
        }
        if k - 1 < t.len() {
            assert(t[k - 1] == s[k]);
        }
        lemma_trim_start_at(t, k - 1);
        assert(t.subrange(k - 1, t.len() as int) =~= s.subrange(k, s.len() as int));
    }
}

proof fn lemma_trim_end_at(s: Seq<char>, e: int)
    requires
        0 <= e <= s.len(),
        forall|i: int| e <= i < s.len() ==> is_white_space(#[trigger] s[i]),
        e == 0 || !is_white_space(s[e - 1]),
    ensures
        trim_end_seq(s) == s.subrange(0, e),
    decreases s.len() - e,
{
    if e == s.len() {
        assert(s.subrange(0, e) =~= s);
    } else {
        let t = s.drop_last();
        assert forall|i: int| e <= i < t.len() implies is_white_space(#[trigger] t[i]) by {
            assert(t[i] == s[i]);
        }
        if e > 0 {
            assert(t[e - 1] == s[e - 1]);
        }
        lemma_trim_end_at(t, e);
        assert(t.subrange(0, e) =~= s.subrange(0, e));
    }
}

/// `s` without leading and trailing white space (`str::trim`).
pub fn trim_str(s: &str) -> (r: &str)
    ensures
        r@ == trim_seq(s@),
{
    let (k, e) = trim_bounds(s);
    s.substring_char(k, e)
}

/// The characters of `s` without leading and trailing white space.
pub fn trim_chars(s: &str) -> (r: Vec<char>)
    ensures
        r@ == trim_seq(s@),
{
    str_chars(trim_str(s))
}

/// The char positions `[k, e)` of `s` that `trim` keeps.
fn trim_bounds(s: &str) -> (r: (usize, usize))
    ensures
        r.0 <= r.1 <= s@.len(),
        s@.subrange(r.0 as int, r.1 as int) == trim_seq(s@),
{
    let v = str_chars(s);
    let n = v.len();
    let mut k: usize = 0;
    while k < n && char_is_white_space(v[k])
        invariant
            n == v@.len(),
            k <= n,
            forall|i: int| 0 <= i < k ==> is_white_space(#[trigger] v@[i]),
        decreases n - k,
    {
        k += 1;
    }
    let mut e: usize = n;
    while e > k && char_is_white_space(v[e - 1])
        invariant
            n == v@.len(),
            k <= e <= n,
            forall|i: int| e <= i < n ==> is_white_space(#[trigger] v@[i]),
        decreases e,
    {
        e -= 1;
    }
    proof {
        lemma_trim_start_at(v@, k as int);
        let t = v@.subrange(k as int, n as int);
        assert forall|i: int| e - k <= i < t.len() implies is_white_space(#[trigger] t[i]) by {
            assert(t[i] == v@[i + k]);
        }
        if e > k {
            assert(t[e - k - 1] == v@[e - 1]);
        }
        lemma_trim_end_at(t, e - k);
        assert(t.subrange(0, e - k) =~= v@.subrange(k as int, e as int));
    }
    (k, e)
}

/// ASCII upper-case letters map to lower case; every other character is kept.
pub open spec fn ascii_lower(c: char) -> char {
    if 'A' <= c && c <= 'Z' {
        ((c as u32) + 32) as char
    } else {
        c
    }
}

pub fn char_ascii_lower(c: char) -> (r: char)
    ensures
        r == ascii_lower(c),
{
    if 'A' <= c && c <= 'Z' {
        ((c as u8) + 32) as char
    } else {
        c
    }
}

/// Every ASCII upper-case letter lowered (what `str::to_ascii_lowercase` computes).
pub open spec fn ascii_lowercase_seq(s: Seq<char>) -> Seq<char> {
    s.map_values(|c: char| ascii_lower(c))
}

/// The characters of `s` with ASCII upper-case letters lowered.
pub fn ascii_lowercase_chars(s: &str) -> (r: Vec<char>)
    ensures
        r@ == ascii_lowercase_seq(s@),
{
    let v = str_chars(s);
    let mut out: Vec<char> = Vec::new();
    let mut i: usize = 0;
    while i < v.len()
        invariant
            v@ == s@,
            i <= v@.len(),
            out@ == ascii_lowercase_seq(s@.take(i as int)),
        decreases v@.len() - i,
    {
        out.push(char_ascii_lower(v[i]));
        proof {
            assert(ascii_lowercase_seq(s@.take(i + 1)) =~= ascii_lowercase_seq(s@.take(i as int)).push(
                ascii_lower(s@[i as int]),
            ));
        }
        i += 1;
    }
    proof {
        assert(s@.take(v@.len() as int) =~= s@);
    }
    out
}

/// Equality up to ASCII case (what `str::eq_ignore_ascii_case` computes).
pub open spec fn eq_ignore_ascii_case_seq(a: Seq<char>, b: Seq<char>) -> bool {
    a.len() == b.len() && forall|i: int| 0 <= i < a.len() ==> ascii_lower(#[trigger] a[i])
        == ascii_lower(b[i])
}

pub fn chars_eq_ignore_ascii_case(a: &Vec<char>, b: &Vec<char>) -> (r: bool)
    ensures
        r == eq_ignore_ascii_case_seq(a@, b@),
{
    if a.len() != b.len() {
        return false;
    }
    let mut i: usize = 0;
    while i < a.len()
        invariant
            a@.len() == b@.len(),
            i <= a@.len(),
            forall|j: int| 0 <= j < i ==> ascii_lower(#[trigger] a@[j]) == ascii_lower(b@[j]),
        decreases a@.len() - i,
    {
        if char_ascii_lower(a[i]) != char_ascii_lower(b[i]) {
            return false;
        }
        i += 1;
    }
    true
}

pub fn str_eq_ignore_ascii_case(a: &str, b: &str) -> (r: bool)
    ensures
        r == eq_ignore_ascii_case_seq(a@, b@),
{
    let av = str_chars(a);
    let bv = str_chars(b);
    chars_eq_ignore_ascii_case(&av, &bv)
}

/// `needle` occurs in `hay` at position `i`.
pub open spec fn occurs_at(hay: Seq<char>, needle: Seq<char>, i: int) -> bool {
    0 <= i && i + needle.len() <= hay.len() && hay.subrange(i, i + needle.len()) == needle
}

/// `needle` occurs somewhere in `hay` (what `str::contains` with a `&str` pattern decides).
pub open spec fn contains_seq(hay: Seq<char>, needle: Seq<char>) -> bool {
    exists|i: int| occurs_at(hay, needle, i)
}

pub fn chars_contain(hay: &Vec<char>, needle: &Vec<char>) -> (r: bool)
    ensures
        r == contains_seq(hay@, needle@),
{
    let n = hay.len();
    let m = needle.len();
    if m > n {
        assert forall|i: int| !occurs_at(hay@, needle@, i) by {}
        return false;
    }
    if m == 0 {
        proof {
            assert(hay@.subrange(0, 0) =~= needle@);
            assert(occurs_at(hay@, needle@, 0));
        }
        return true;
    }
    let mut i: usize = 0;
    while i <= n - m
        invariant
            n == hay@.len(),
            m == needle@.len(),
            0 < m <= n,
            i <= n - m + 1,
            forall|j: int| 0 <= j < i ==> !occurs_at(hay@, needle@, j),
        decreases n - m + 1 - i,
    {
        let mut k: usize = 0;
        let mut same = true;
        while k < m
            invariant
                n == hay@.len(),
                m == needle@.len(),
                i + m <= n,
                k <= m,
                same ==> forall|t: int| 0 <= t < k ==> hay@[i + t] == needle@[t],
                !same ==> !occurs_at(hay@, needle@, i as int),
            decreases m - k,
        {
            if hay[i + k] != needle[k] {
                same = false;
                proof {
                    assert(hay@.subrange(i as int, i + m)[k as int] == hay@[i + k]);
                }
            }
            k += 1;
        }
        if same {
            proof {
                assert(hay@.subrange(i as int, i + m) =~= needle@);
                assert(occurs_at(hay@, needle@, i as int));
            }
            return true;
        }
        i += 1;
    }
    proof {
        assert forall|j: int| !occurs_at(hay@, needle@, j) by {
            if 0 <= j && j + m <= n {
                assert(j < i);
            }
        }
    }
    false
}

/// The lower-case mapping of a string under Unicode's `Lowercase` property (`str::to_lowercase`).
pub uninterp spec fn unicode_lowercase(s: Seq<char>) -> Seq<char>;

/// The upper-case mapping of a string under Unicode's `Uppercase` property (`str::to_uppercase`).
pub uninterp spec fn unicode_uppercase(s: Seq<char>) -> Seq<char>;

/// Calls `str::to_lowercase`. Trusted: the returned string is the Unicode lower-case mapping of
/// `s`, a function of `s` alone, named `unicode_lowercase`; nothing more is stated of it.
#[verifier::external_body]
pub(crate) fn to_lowercase(s: &str) -> (r: String)
    ensures
        r@ == unicode_lowercase(s@),
{
    s.to_lowercase()
}

/// Calls `str::to_uppercase`. Trusted: the returned string is the Unicode upper-case mapping of
/// `s`, a function of `s` alone, named `unicode_uppercase`; nothing more is stated of it.
#[verifier::external_body]
pub(crate) fn to_uppercase(s: &str) -> (r: String)
    ensures
        r@ == unicode_uppercase(s@),
{
    s.to_uppercase()
}

/// Decimal digits of `n`, most significant first, without leading zeros (`0` is `"0"`).
pub open spec fn decimal_digits(n: nat) -> Seq<char>
    decreases n,
{
    if n < 10 {
        seq![digit_char(n)]
    } else {
        decimal_digits(n / 10) + seq![digit_char(n % 10)]
    }
}

pub open spec fn digit_char(d: nat) -> char {
    if d == 0 { '0' } else if d == 1 { '1' } else if d == 2 { '2' } else if d == 3 { '3' }
    else if d == 4 { '4' } else if d == 5 { '5' } else if d == 6 { '6' } else if d == 7 { '7' }
    else if d == 8 { '8' } else { '9' }
}

fn digit_str(d: u64) -> (r: &'static str)
    requires
        d < 10,
    ensures
        r@ == seq![digit_char(d as nat)],
{
    proof {
        reveal_strlit("0");
        reveal_strlit("1");
        reveal_strlit("2");
        reveal_strlit("3");
        reveal_strlit("4");
        reveal_strlit("5");
        reveal_strlit("6");
        reveal_strlit("7");
        reveal_strlit("8");
        reveal_strlit("9");
    }
    if d == 0 { "0" } else if d == 1 { "1" } else if d == 2 { "2" } else if d == 3 { "3" }
    else if d == 4 { "4" } else if d == 5 { "5" } else if d == 6 { "6" } else if d == 7 { "7" }
    else if d == 8 { "8" } else { "9" }
}

/// Appends the decimal rendering of `n` (what `{}` formatting of an integer writes).
pub fn append_decimal(out: &mut String, n: u64)
    ensures
        final(out)@ == old(out)@ + decimal_digits(n as nat),
    decreases n,
{
    if n < 10 {
        out.append(digit_str(n));
    } else {
        append_decimal(out, n / 10);
        out.append(digit_str(n % 10));
        proof {
            assert(old(out)@ + decimal_digits(n as nat) =~= old(out)@ + decimal_digits((n / 10) as nat)
                + seq![digit_char((n % 10) as nat)]);
        }
    }
}

/// The pieces of the first `n` characters of `s` between occurrences of `sep` (what
/// `str::split` with a `char` pattern yields: one more piece than separators).
pub open spec fn split_prefix(s: Seq<char>, sep: char, n: int) -> Seq<Seq<char>>
    decreases n,
{
    if n <= 0 {
        seq![Seq::empty()]
    } else {
        let p = split_prefix(s, sep, n - 1);
        if s[n - 1] == sep {
            p.push(Seq::empty())
        } else {
            p.update(p.len() - 1, p.last().push(s[n - 1]))
        }
    }
}

/// The pieces of `s` between occurrences of `sep`.
pub open spec fn split_seq(s: Seq<char>, sep: char) -> Seq<Seq<char>> {
    split_prefix(s, sep, s.len() as int)
}

/// Each piece trimmed.
pub open spec fn trim_all(v: Seq<Seq<char>>) -> Seq<Seq<char>> {
    v.map_values(|x: Seq<char>| trim_seq(x))
}

/// The views of a list of strings.
pub open spec fn views(v: Seq<String>) -> Seq<Seq<char>> {
    v.map_values(|x: String| x@)
}

proof fn lemma_split_prefix_shape(s: Seq<char>, sep: char, n: int, start: int)
    requires
        0 <= start <= n <= s.len(),
        forall|k: int| start <= k < n ==> s[k] != sep,
        start == 0 || s[start - 1] == sep,
    ensures
        split_prefix(s, sep, n).len() == split_prefix(s, sep, start).len(),
        split_prefix(s, sep, n).last() == s.subrange(start, n),
        split_prefix(s, sep, n).drop_last() == split_prefix(s, sep, start).drop_last(),
        split_prefix(s, sep, start).last() == Seq::<char>::empty(),
    decreases n,
{
    if n > start {
        lemma_split_prefix_shape(s, sep, n - 1, start);
        assert(split_prefix(s, sep, n).last() =~= s.subrange(start, n));
        assert(split_prefix(s, sep, n).drop_last() =~= split_prefix(s, sep, n - 1).drop_last());
    } else {
        if start > 0 {
            let p = split_prefix(s, sep, start - 1);
            assert(split_prefix(s, sep, start) == p.push(Seq::empty()));
        }
        assert(s.subrange(start, start) =~= Seq::<char>::empty());
    }
}

/// Split `s` at every `sep` and trim each piece.
pub fn split_and_trim(s: &str, sep: char) -> (r: Vec<String>)
    ensures
        views(r@) == trim_all(split_seq(s@, sep)),
{
    let v = str_chars(s);
    let n = v.len();
    let mut out: Vec<String> = Vec::new();
    let mut start: usize = 0;
    let mut i: usize = 0;
    while i < n
        invariant
            v@ == s@,
            n == v@.len(),
            start <= i <= n,
            start == 0 || v@[start - 1] == sep,
            forall|k: int| start <= k < i ==> v@[k] != sep,
            views(out@) == trim_all(split_prefix(s@, sep, start as int).drop_last()),
        decreases n - i,
    {
        if v[i] == sep {
            let piece = trim_str(s.substring_char(start, i));
            let ghost before = out@;
            out.push(piece.to_owned());
            proof {
                lemma_split_prefix_shape(s@, sep, i as int, start as int);
                let p = split_prefix(s@, sep, i as int);
                assert(split_prefix(s@, sep, i + 1) == p.push(Seq::empty()));
                assert(p.drop_last().push(p.last()) =~= p);
                assert(views(out@) =~= views(before).push(trim_seq(s@.subrange(start as int, i as int))));
                assert(split_prefix(s@, sep, i + 1).drop_last() =~= p);
                assert(trim_all(p) =~= trim_all(p.drop_last()).push(trim_seq(p.last())));
                assert(trim_all(split_prefix(s@, sep, start as int).drop_last()) =~= trim_all(p.drop_last()));
            }
            start = i + 1;
        }
        i += 1;
    }
    let piece = trim_str(s.substring_char(start, n));
    let ghost before = out@;
    out.push(piece.to_owned());
    proof {
        lemma_split_prefix_shape(s@, sep, n as int, start as int);
        let p = split_prefix(s@, sep, n as int);
        assert(p.drop_last().push(p.last()) =~= p);
        assert(views(out@) =~= views(before).push(trim_seq(s@.subrange(start as int, n as int))));
        assert(trim_all(p) =~= trim_all(p.drop_last()).push(trim_seq(p.last())));
        assert(trim_all(split_prefix(s@, sep, start as int).drop_last()) =~= trim_all(p.drop_last()));
    }
    out
}

pub open spec fn is_ascii_digit(c: char) -> bool {
    '0' <= c && c <= '9'
}

/// The value of a string of ASCII digits.
pub open spec fn digits_value(s: Seq<char>) -> nat
    decreases s.len(),
{
    if s.len() == 0 {
        0
    } else {
        digits_value(s.drop_last()) * 10 + ((s.last() as u32) - ('0' as u32)) as nat
    }
}

/// `s` without one leading `+`.
pub open spec fn unsigned_body(s: Seq<char>) -> Seq<char> {
    if s.len() > 0 && s[0] == '+' {
        s.drop_first()
    } else {
        s
    }
}

pub open spec fn all_digits(b: Seq<char>) -> bool {
    forall|i: int| 0 <= i < b.len() ==> is_ascii_digit(#[trigger] b[i])
}

/// What `str::parse::<u32>` accepts: an optional `+`, then one or more ASCII digits whose value
/// fits in `u32`.
pub open spec fn parse_u32_spec(s: Seq<char>) -> Option<u32> {
    let body = unsigned_body(s);
    if body.len() > 0 && all_digits(body) && digits_value(body) <= u32::MAX {
        Some(digits_value(body) as u32)
    } else {
        None
    }
}

proof fn lemma_digits_value_monotone(s: Seq<char>, n: int)
    requires
        0 <= n <= s.len(),
        forall|i: int| 0 <= i < s.len() ==> is_ascii_digit(#[trigger] s[i]),
    ensures
        digits_value(s.take(n)) <= digits_value(s),
    decreases s.len() - n,
{
    if n < s.len() {
        lemma_digits_value_monotone(s, n + 1);
        assert(s.take(n + 1).drop_last() =~= s.take(n));
    } else {
        assert(s.take(n) =~= s);
    }
}

/// Parse a decimal `u32` as `str::parse::<u32>` does.
pub fn parse_u32(s: &str) -> (r: Option<u32>)
    ensures
        r == parse_u32_spec(s@),
{
    let v = str_chars(s);
    let n = v.len();
    let mut i: usize = 0;
    if n > 0 && v[0] == '+' {
        i = 1;
    }
    let ghost body = unsigned_body(s@);
    proof {
        assert(body =~= s@.subrange(i as int, n as int));
    }
    if i == n {
        return None;
    }
    let mut acc: u64 = 0;
    let mut k: usize = i;
    while k < n
        invariant
            v@ == s@,
            n == v@.len(),
            i <= k <= n,
            body == s@.subrange(i as int, n as int),
            body == unsigned_body(s@),
            forall|t: int| i <= t < k ==> is_ascii_digit(#[trigger] v@[t]),
            acc == digits_value(s@.subrange(i as int, k as int)),
            acc <= u32::MAX,
        decreases n - k,
    {
        let c = v[k];
        if !('0' <= c && c <= '9') {
            proof {
                assert(body[k - i] == v@[k as int]);
                assert(!is_ascii_digit(body[k - i]));
                assert(!all_digits(body));
            }
            return None;
        }
        let d = (c as u32 - '0' as u32) as u64;
        proof {
            assert(s@.subrange(i as int, k + 1).drop_last() =~= s@.subrange(i as int, k as int));
            assert(s@.subrange(i as int, k + 1).last() == c);
            assert(digits_value(s@.subrange(i as int, k + 1)) == digits_value(s@.subrange(i as int, k as int)) * 10 + d);
        }
        acc = acc * 10 + d;
        if acc > 0xffff_ffff {
            proof {
                assert forall|t: int| 0 <= t < s@.subrange(i as int, k + 1).len() implies is_ascii_digit(
                    #[trigger] s@.subrange(i as int, k + 1)[t],
                ) by {
                    assert(s@.subrange(i as int, k + 1)[t] == v@[i + t]);
                }
                if all_digits(body) {
                    lemma_digits_value_monotone(body, k + 1 - i);
                    assert(body.take(k + 1 - i) =~= s@.subrange(i as int, k + 1));
                    assert(digits_value(body) > u32::MAX);
                }
            }
            return None;
        }
        k += 1;
    }
    proof {
        assert(s@.subrange(i as int, n as int) == body);
        assert forall|t: int| 0 <= t < body.len() implies is_ascii_digit(#[trigger] body[t]) by {
            assert(body[t] == v@[i + t]);
        }
        assert(all_digits(body));
    }
    Some(acc as u32)
}

proof fn lemma_decimal_digits_read_back(n: nat)
    ensures
        decimal_digits(n).len() > 0,
        all_digits(decimal_digits(n)),
        digits_value(decimal_digits(n)) == n,
    decreases n,
{
    let d = decimal_digits(n);
    if n < 10 {
        assert(digit_char(n) as u32 - '0' as u32 == n);
        assert(d.drop_last() =~= Seq::<char>::empty());
        assert(digits_value(d) == digits_value(d.drop_last()) * 10 + ((d.last() as u32) - ('0' as u32)) as nat);
    } else {
        lemma_decimal_digits_read_back(n / 10);
        let c = digit_char(n % 10);
        assert(c as u32 - '0' as u32 == n % 10);
        assert(d.drop_last() =~= decimal_digits(n / 10));
        assert(d.last() == c);
        assert(digits_value(d) == digits_value(d.drop_last()) * 10 + ((d.last() as u32) - ('0' as u32)) as nat);
        assert((n / 10) * 10 + n % 10 == n);
        assert forall|i: int| 0 <= i < d.len() implies is_ascii_digit(#[trigger] d[i]) by {
            if i < d.len() - 1 {
                assert(d[i] == decimal_digits(n / 10)[i]);
            }
        }
    }
}

/// Parsing reads back what decimal rendering writes, with or without a leading `+`: the
/// decimal digits of any `u32` value parse to that value.
pub proof fn lemma_parse_u32_reads_decimal(n: u32)
    ensures
        parse_u32_spec(decimal_digits(n as nat)) == Some(n),
        parse_u32_spec(seq!['+'] + decimal_digits(n as nat)) == Some(n),
{
    let d = decimal_digits(n as nat);
    lemma_decimal_digits_read_back(n as nat);
    assert(is_ascii_digit(d[0]));
    assert(unsigned_body(d) == d);
    assert((seq!['+'] + d).drop_first() =~= d);
}

/// Parsing rejects a string whose body (after at most one leading `+`) is empty, holds a
/// character other than an ASCII digit, or has a value above `u32::MAX`.
pub proof fn lemma_parse_u32_rejects(s: Seq<char>)
    ensures
        ({
            let body = if s.len() > 0 && s[0] == '+' {
                s.subrange(1, s.len() as int)
            } else {
                s
            };
            (body.len() == 0 || (exists|i: int| 0 <= i < body.len() && !('0' <= #[trigger] body[i]
                <= '9'))) ==> parse_u32_spec(s) is None
        }),
{
    if s.len() > 0 && s[0] == '+' {
        assert(s.drop_first() =~= s.subrange(1, s.len() as int));
    }
}

} // verus!
