//! Text handling shared by the wire formats and the prompts: equality,
//! Unicode whitespace trimming, prefixes, field splitting and decimal numbers.

use vstd::prelude::*;

verus! {

/// Equality of two string slices, character by character.
pub fn text_eq(a: &str, b: &str) -> (r: bool)
    ensures
        r == (a@ == b@),
{
    let la = a.unicode_len();
    let lb = b.unicode_len();
    if la != lb {
        return false;
    }
    let mut i: usize = 0;
    while i < la
        invariant
            la == a@.len(),
            lb == b@.len(),
            la == lb,
            i <= la,
            forall|j: int| 0 <= j < i ==> a@[j] == b@[j],
        decreases la - i,
    {
        if a.get_char(i) != b.get_char(i) {
            return false;
        }
        i = i + 1;
    }
    assert(a@ =~= b@);
    true
}

/// Whether `s` begins with `prefix`.
pub open spec fn has_prefix(s: Seq<char>, prefix: Seq<char>) -> bool {
    prefix.len() <= s.len() && s.take(prefix.len() as int) == prefix
}

/// Whether `s` begins with `prefix`, character by character.
pub fn starts_with(s: &str, prefix: &str) -> (r: bool)
    ensures
        r == has_prefix(s@, prefix@),
{
    let ls = s.unicode_len();
    let lp = prefix.unicode_len();
    if lp > ls {
        return false;
    }
    let mut i: usize = 0;
    while i < lp
        invariant
            ls == s@.len(),
            lp == prefix@.len(),
            lp <= ls,
            i <= lp,
            forall|j: int| 0 <= j < i ==> s@[j] == prefix@[j],
        decreases lp - i,
    {
        if s.get_char(i) != prefix.get_char(i) {
            assert(s@.take(lp as int)[i as int] != prefix@[i as int]);
            return false;
        }
        i = i + 1;
    }
    assert(s@.take(lp as int) =~= prefix@);
    true
}

/// Whether `c` has the Unicode `White_Space` property, the set that
/// `char::is_whitespace` tests.
pub open spec fn is_white_space(c: char) -> bool {
    let v = c as u32;
    ||| 0x09 <= v <= 0x0d
    ||| v == 0x20
    ||| v == 0x85
    ||| v == 0xa0
    ||| v == 0x1680
    ||| 0x2000 <= v <= 0x200a
    ||| v == 0x2028
    ||| v == 0x2029
    ||| v == 0x202f
    ||| v == 0x205f
    ||| v == 0x3000
}

/// Tests a character for the Unicode `White_Space` property.
pub fn char_is_white_space(c: char) -> (r: bool)
    ensures
        r == is_white_space(c),
{
    let v = c as u32;
    (0x09 <= v && v <= 0x0d) || v == 0x20 || v == 0x85 || v == 0xa0 || v == 0x1680 || (0x2000
        <= v && v <= 0x200a) || v == 0x2028 || v == 0x2029 || v == 0x202f || v == 0x205f || v
        == 0x3000
}

/// `s` without its leading whitespace.
pub open spec fn trim_start(s: Seq<char>) -> Seq<char>
    decreases s.len(),
{
    if s.len() > 0 && is_white_space(s[0]) {
        trim_start(s.drop_first())
    } else {
        s
    }
}

/// `s` without its trailing whitespace.
pub open spec fn trim_end(s: Seq<char>) -> Seq<char>
    decreases s.len(),
{
    if s.len() > 0 && is_white_space(s.last()) {
        trim_end(s.drop_last())
    } else {
        s
    }
}

/// `s` without leading and trailing whitespace, as `str::trim` gives it.
pub open spec fn trim(s: Seq<char>) -> Seq<char> {
    trim_end(trim_start(s))
}

/// If the first `i` characters are whitespace, trimming the start of `s`
/// trims the start of what follows them.
proof fn lemma_trim_start_skip(s: Seq<char>, i: int)
    requires
        0 <= i <= s.len(),
        forall|j: int| 0 <= j < i ==> is_white_space(s[j]),
    ensures
        trim_start(s) == trim_start(s.skip(i)),
    decreases i,
{
    if i > 0 {
        assert(s.drop_first().skip(i - 1) =~= s.skip(i));
        lemma_trim_start_skip(s.drop_first(), i - 1);
    } else {
        assert(s.skip(0) =~= s);
    }
}

/// If the last characters of `s` from `i` on are whitespace, trimming the
/// end of `s` trims the end of what comes before them.
proof fn lemma_trim_end_take(s: Seq<char>, i: int)
    requires
        0 <= i <= s.len(),
        forall|j: int| i <= j < s.len() ==> is_white_space(s[j]),
    ensures
        trim_end(s) == trim_end(s.take(i)),
    decreases s.len() - i,
{
    if i < s.len() {
        assert(s.drop_last().take(i) =~= s.take(i));
        lemma_trim_end_take(s.drop_last(), i);
    } else {
        assert(s.take(i) =~= s);
    }
}

/// Where trimming the start of `s` begins: every character before is
/// whitespace, and the one there, if any, is not.
proof fn trim_start_index(s: Seq<char>) -> (a: int)
    ensures
        0 <= a <= s.len(),
        trim_start(s) == s.skip(a),
        forall|j: int| 0 <= j < a ==> is_white_space(#[trigger] s[j]),
        a < s.len() ==> !is_white_space(s[a]),
    decreases s.len(),
{
    if s.len() > 0 && is_white_space(s[0]) {
        let t = s.drop_first();
        let a1 = trim_start_index(t);
        assert(t.skip(a1) =~= s.skip(a1 + 1));
        assert forall|j: int| 0 <= j < a1 + 1 implies is_white_space(#[trigger] s[j]) by {
            if j > 0 {
                assert(s[j] == t[j - 1]);
            }
        }
        assert(a1 + 1 < s.len() ==> s[a1 + 1] == t[a1]);
        a1 + 1
    } else {
        assert(s.skip(0) =~= s);
        0
    }
}

/// Where trimming the end of `s` stops: every character from there on is
/// whitespace, and the one before, if any, is not.
proof fn trim_end_index(s: Seq<char>) -> (e: int)
    ensures
        0 <= e <= s.len(),
        trim_end(s) == s.take(e),
        forall|j: int| e <= j < s.len() ==> is_white_space(#[trigger] s[j]),
        e > 0 ==> !is_white_space(s[e - 1]),
    decreases s.len(),
{
    if s.len() > 0 && is_white_space(s.last()) {
        let t = s.drop_last();
        let e1 = trim_end_index(t);
        assert(t.take(e1) =~= s.take(e1));
        assert forall|j: int| e1 <= j < s.len() implies is_white_space(#[trigger] s[j]) by {
            if j < s.len() - 1 {
                assert(s[j] == t[j]);
            }
        }
        assert(e1 > 0 ==> s[e1 - 1] == t[e1 - 1]);
        e1
    } else {
        assert(s.take(s.len() as int) =~= s);
        s.len() as int
    }
}

/// The trimmed text is the part of `s` between two positions, with only
/// whitespace outside it and no whitespace at either of its ends.
pub proof fn lemma_trim_bounds(s: Seq<char>) -> (r: (int, int))
    ensures
        0 <= r.0 <= r.1 <= s.len(),
        trim(s) == s.subrange(r.0, r.1),
        forall|j: int| 0 <= j < r.0 ==> is_white_space(#[trigger] s[j]),
        forall|j: int| r.1 <= j < s.len() ==> is_white_space(#[trigger] s[j]),
        r.0 < r.1 ==> !is_white_space(s[r.0]) && !is_white_space(s[r.1 - 1]),
{
    let a = trim_start_index(s);
    let t = s.skip(a);
    let e = trim_end_index(t);
    assert(t.take(e) =~= s.subrange(a, a + e));
    assert forall|j: int| a + e <= j < s.len() implies is_white_space(#[trigger] s[j]) by {
        assert(s[j] == t[j - a]);
    }
    if e > 0 {
        assert(s[a] == t[0]);
        assert(s[a + e - 1] == t[e - 1]);
        if a < s.len() {
        }
    }
    (a, a + e)
}

/// Trimming trimmed text changes nothing.
pub proof fn lemma_trim_idempotent(s: Seq<char>)
    ensures
        trim(trim(s)) == trim(s),
{
    let (a, b) = lemma_trim_bounds(s);
    let t = trim(s);
    let (a2, b2) = lemma_trim_bounds(t);
    if t.len() > 0 {
        assert(t[0] == s[a]);
        assert(t[t.len() - 1] == s[b - 1]);
        assert(a2 == 0) by {
            if a2 > 0 {
                assert(is_white_space(t[0]));
            }
        }
        assert(b2 == t.len()) by {
            if b2 < t.len() {
                assert(is_white_space(t[t.len() - 1]));
            }
        }
    }
    assert(t.subrange(a2, b2) =~= t);
}

/// Text trims to the single character `ch`, which is not whitespace,
/// exactly when `ch` stands in it once and everything else is whitespace.
pub proof fn lemma_trim_is_single(s: Seq<char>, ch: char)
    requires
        !is_white_space(ch),
    ensures
        trim(s) == seq![ch] <==> exists|i: int|
            0 <= i < s.len() && s[i] == ch && forall|j: int|
                0 <= j < s.len() && j != i ==> is_white_space(#[trigger] s[j]),
{
    let (a, b) = lemma_trim_bounds(s);
    if trim(s) == seq![ch] {
        assert(seq![ch].len() == 1);
        assert(s.subrange(a, b).len() == b - a);
        assert(b == a + 1);
        assert(s[a] == trim(s)[0]);
        assert forall|j: int| 0 <= j < s.len() && j != a implies is_white_space(#[trigger] s[j]) by {
        }
    }
    if exists|i: int|
        0 <= i < s.len() && s[i] == ch && forall|j: int|
            0 <= j < s.len() && j != i ==> is_white_space(#[trigger] s[j]) {
        let i = choose|i: int|
            0 <= i < s.len() && s[i] == ch && forall|j: int|
                0 <= j < s.len() && j != i ==> is_white_space(#[trigger] s[j]);
        assert(a <= i) by {
            if a > i {
                assert(is_white_space(s[i]));
            }
        }
        assert(i < b) by {
            if i >= b {
                assert(is_white_space(s[i]));
            }
        }
        assert(a == i) by {
            if a < i {
                assert(is_white_space(s[a]));
            }
        }
        assert(b == i + 1) by {
            if b > i + 1 {
                assert(is_white_space(s[b - 1]));
            }
        }
        assert(s.subrange(a, b) =~= seq![ch]);
    }
}

/// Trims whitespace from both ends of `s`, as `str::trim` does.
pub fn trim_text(s: &str) -> (r: String)
    ensures
        r@ == trim(s@),
{
    let n = s.unicode_len();
    let mut start: usize = 0;
    while start < n && char_is_white_space(s.get_char(start))
        invariant
            n == s@.len(),
            start <= n,
            forall|j: int| 0 <= j < start ==> is_white_space(s@[j]),
        decreases n - start,
    {
        start = start + 1;
    }
    proof {
        lemma_trim_start_skip(s@, start as int);
    }
    let ghost rest = s@.skip(start as int);
    assert(trim_start(rest) == rest);
    let mut end: usize = n;
    while end > start && char_is_white_space(s.get_char(end - 1))
        invariant
            n == s@.len(),
            start <= end <= n,
            forall|j: int| end <= j < n ==> is_white_space(s@[j]),
        decreases end - start,
    {
        end = end - 1;
    }
    proof {
        let e = end - start;
        assert forall|j: int| e <= j < rest.len() implies is_white_space(rest[j]) by {
            assert(rest[j] == s@[j + start]);
        }
        lemma_trim_end_take(rest, e);
        assert(rest.take(e) =~= s@.subrange(start as int, end as int));
    }
    let sub = s.substring_char(start, end);
    sub.to_owned()
}

/// `s` split at every occurrence of `sep`, as `str::split` with a character
/// pattern gives it: one more piece than there are separators.
pub open spec fn split_on(s: Seq<char>, sep: char) -> Seq<Seq<char>>
    decreases s.len(),
{
    if s.len() == 0 {
        seq![Seq::empty()]
    } else {
        let prev = split_on(s.drop_last(), sep);
        if s.last() == sep {
            prev.push(Seq::empty())
        } else {
            prev.update(prev.len() - 1, prev.last().push(s.last()))
        }
    }
}

/// Splitting always gives at least one piece.
proof fn lemma_split_nonempty(s: Seq<char>, sep: char)
    ensures
        split_on(s, sep).len() >= 1,
    decreases s.len(),
{
    if s.len() > 0 {
        lemma_split_nonempty(s.drop_last(), sep);
    }
}

/// The piece of `s` at position `k` of its split on `sep`, if it has one.
pub fn nth_field(s: &str, sep: char, k: usize) -> (r: Option<String>)
    ensures
        match r {
            Some(f) => k < split_on(s@, sep).len() && f@ == split_on(s@, sep)[k as int],
            None => k >= split_on(s@, sep).len(),
        },
{
    let n = s.unicode_len();
    // number of separators seen, start of the current piece, and the bounds
    // of piece `k` once it is complete
    let mut seen: usize = 0;
    let mut cur_start: usize = 0;
    let mut found_start: usize = 0;
    let mut found_end: usize = 0;
    let mut i: usize = 0;
    proof {
        assert(s@.take(0) =~= Seq::<char>::empty());
    }
    while i < n
        invariant
            n == s@.len(),
            i <= n,
            cur_start <= i,
            seen <= i,
            split_on(s@.take(i as int), sep).len() == seen + 1,
            split_on(s@.take(i as int), sep).last() == s@.subrange(cur_start as int, i as int),
            k < seen ==> found_start <= found_end <= i,
            k < seen ==> split_on(s@.take(i as int), sep)[k as int] == s@.subrange(
                found_start as int,
                found_end as int,
            ),
        decreases n - i,
    {
        let c = s.get_char(i);
        assert(s@.take(i + 1).drop_last() =~= s@.take(i as int));
        assert(s@.take(i + 1).last() == c);
        if c == sep {
            if seen == k {
                found_start = cur_start;
                found_end = i;
            }
            seen = seen + 1;
            cur_start = i + 1;
            assert(s@.subrange(cur_start as int, i + 1) =~= Seq::<char>::empty());
        } else {
            assert(s@.subrange(cur_start as int, i + 1) =~= s@.subrange(
                cur_start as int,
                i as int,
            ).push(c));
        }
        i = i + 1;
    }
    assert(s@.take(n as int) =~= s@);
    if k < seen {
        Some(s.substring_char(found_start, found_end).to_owned())
    } else if k == seen {
        Some(s.substring_char(cur_start, n).to_owned())
    } else {
        None
    }
}

/// The character of the decimal digit `d`.
pub open spec fn digit_char(d: nat) -> char {
    (48 + d) as char
}

/// The decimal representation of `n`, without sign or leading zeros, as
/// `Display` writes an unsigned integer.
pub open spec fn decimal(n: nat) -> Seq<char>
    decreases n,
{
    if n < 10 {
        seq![digit_char(n)]
    } else {
        decimal(n / 10).push(digit_char(n % 10))
    }
}

/// The one-character text of the digit `d`.
fn digit_text(d: u64) -> (r: &'static str)
    requires
        d < 10,
    ensures
        r@ == seq![digit_char(d as nat)],
{
    if d == 0 {
        proof { reveal_strlit("0"); }
        "0"
    } else if d == 1 {
        proof { reveal_strlit("1"); }
        "1"
    } else if d == 2 {
        proof { reveal_strlit("2"); }
        "2"
    } else if d == 3 {
        proof { reveal_strlit("3"); }
        "3"
    } else if d == 4 {
        proof { reveal_strlit("4"); }
        "4"
    } else if d == 5 {
        proof { reveal_strlit("5"); }
        "5"
    } else if d == 6 {
        proof { reveal_strlit("6"); }
        "6"
    } else if d == 7 {
        proof { reveal_strlit("7"); }
        "7"
    } else if d == 8 {
        proof { reveal_strlit("8"); }
        "8"
    } else {
        proof { reveal_strlit("9"); }
        "9"
    }
}

/// Writes `n` in decimal.
pub fn decimal_text(n: u64) -> (r: String)
    ensures
        r@ == decimal(n as nat),
    decreases n,
{
    if n < 10 {
        digit_text(n).to_owned()
    } else {
        let mut s = decimal_text(n / 10);
        s.append(digit_text(n % 10));
        s
    }
}

/// Whether `c` is an ASCII decimal digit.
pub open spec fn is_digit(c: char) -> bool {
    48 <= (c as u32) <= 57
}

/// The value of the ASCII digit `c`.
pub open spec fn digit_value(c: char) -> nat {
    ((c as u32) - 48) as nat
}

/// Whether every character of `s` is an ASCII digit.
pub open spec fn all_digits(s: Seq<char>) -> bool {
    forall|i: int| 0 <= i < s.len() ==> is_digit(#[trigger] s[i])
}

/// The number that the digits `s` write in decimal.
pub open spec fn digits_value(s: Seq<char>) -> nat
    decreases s.len(),
{
    if s.len() == 0 {
        0
    } else {
        digits_value(s.drop_last()) * 10 + digit_value(s.last())
    }
}

/// What `str::parse::<u32>` gives for `s`: an optional `+` followed by at
/// least one ASCII digit, whose value fits in a `u32`; anything else is an
/// error.
pub open spec fn parse_u32_spec(s: Seq<char>) -> Option<u32> {
    let d = if s.len() > 0 && s[0] == '+' {
        s.drop_first()
    } else {
        s
    };
    if d.len() > 0 && all_digits(d) && digits_value(d) <= u32::MAX {
        Some(digits_value(d) as u32)
    } else {
        None
    }
}

/// A prefix of a digit string is worth no more than the whole string.
proof fn lemma_digits_prefix_le(d: Seq<char>, j: int)
    requires
        0 <= j <= d.len(),
    ensures
        digits_value(d.take(j)) <= digits_value(d),
    decreases d.len() - j,
{
    if j < d.len() {
        assert(d.drop_last().take(j) =~= d.take(j));
        lemma_digits_prefix_le(d.drop_last(), j);
    } else {
        assert(d.take(j) =~= d);
    }
}

/// Parses `s` as `str::parse::<u32>` does, giving `None` where it gives an
/// error.
pub fn parse_u32(s: &str) -> (r: Option<u32>)
    ensures
        r == parse_u32_spec(s@),
{
    let n = s.unicode_len();
    if n == 0 {
        return None;
    }
    let start: usize = if s.get_char(0) == '+' {
        1
    } else {
        0
    };
    let ghost d = if s@.len() > 0 && s@[0] == '+' {
        s@.drop_first()
    } else {
        s@
    };
    assert(d =~= s@.skip(start as int));
    if start == n {
        return None;
    }
    let mut acc: u64 = 0;
    let mut i: usize = start;
    assert(d.take(0) =~= Seq::<char>::empty());
    while i < n
        invariant
            n == s@.len(),
            start <= i <= n,
            d == s@.skip(start as int),
            d == (if s@.len() > 0 && s@[0] == '+' {
                s@.drop_first()
            } else {
                s@
            }),
            all_digits(d.take(i - start)),
            acc == digits_value(d.take(i - start)),
            acc <= u32::MAX,
        decreases n - i,
    {
        let c = s.get_char(i);
        assert(d[i - start] == c);
        let v = c as u32;
        if v < 48 || v > 57 {
            assert(!is_digit(d[i - start]));
            return None;
        }
        let next: u64 = acc * 10 + (v - 48) as u64;
        let ghost t = d.take(i - start + 1);
        assert(t.drop_last() =~= d.take(i - start));
        assert(t.last() == c);
        if next > 0xffff_ffff {
            proof {
                if all_digits(d) {
                    lemma_digits_prefix_le(d, i - start + 1);
                }
            }
            return None;
        }
        acc = next;
        i = i + 1;
        assert(all_digits(t)) by {
            assert forall|j: int| 0 <= j < t.len() implies is_digit(#[trigger] t[j]) by {
                if j < t.len() - 1 {
                    assert(t[j] == d.take(i - start - 1)[j]);
                }
            }
        }
    }
    assert(d.take(n - start) =~= d);
    Some(acc as u32)
}

/// The digit character of `d` is a digit worth `d`.
proof fn lemma_digit_char_value(d: nat)
    requires
        d < 10,
    ensures
        is_digit(digit_char(d)),
        digit_value(digit_char(d)) == d,
{
    assert(((48 + d) as char) as u32 == 48 + d);
}

/// The decimal text of `n` is made of digits, begins with one, and is worth
/// `n`.
pub proof fn lemma_decimal_digits(n: nat)
    ensures
        decimal(n).len() > 0,
        all_digits(decimal(n)),
        is_digit(decimal(n)[0]),
        digits_value(decimal(n)) == n,
    decreases n,
{
    if n >= 10 {
        lemma_decimal_digits(n / 10);
        let s = decimal(n);
        assert(s.drop_last() =~= decimal(n / 10));
        assert forall|i: int| 0 <= i < s.len() implies is_digit(#[trigger] s[i]) by {
            if i < s.len() - 1 {
                assert(s[i] == decimal(n / 10)[i]);
            }
        }
        assert(n == (n / 10) * 10 + n % 10);
        lemma_digit_char_value(n % 10);
        assert(s.last() == digit_char(n % 10));
        assert(digits_value(s) == digits_value(s.drop_last()) * 10 + digit_value(s.last()));
    } else {
        lemma_digit_char_value(n);
        let s = decimal(n);
        assert(s.drop_last().len() == 0);
        assert(digits_value(s.drop_last()) == 0);
        assert(digits_value(s) == digits_value(s.drop_last()) * 10 + digit_value(s.last()));
    }
}

/// Reading back a written `u32` gives the same number.
pub proof fn lemma_decimal_parse_roundtrip(n: u32)
    ensures
        parse_u32_spec(decimal(n as nat)) == Some(n),
{
    lemma_decimal_digits(n as nat);
}

/// The text that `String::from_utf8_lossy` makes of `bytes`.
pub uninterp spec fn utf8_lossy(bytes: Seq<u8>) -> Seq<char>;

/// Calls `String::from_utf8_lossy` and takes the text as an owned string.
/// Its documentation says that it gives the decoded text when `bytes` is
/// valid UTF-8, and otherwise replaces each invalid sequence by U+FFFD; the
/// contract names the result and states the first case.
#[verifier::external_body]
pub(crate) fn decode_utf8_lossy(bytes: &[u8]) -> (s: String)
    ensures
        s@ == utf8_lossy(bytes@),
        vstd::utf8::valid_utf8(bytes@) ==> s@ == vstd::utf8::decode_utf8(bytes@),
{
    String::from_utf8_lossy(bytes).into_owned()
}

/// Appending text without separators extends the last piece of a split.
pub proof fn lemma_split_append_plain(x: Seq<char>, y: Seq<char>, sep: char)
    requires
        !y.contains(sep),
    ensures
        split_on(x + y, sep) == split_on(x, sep).update(
            split_on(x, sep).len() - 1,
            split_on(x, sep).last() + y,
        ),
    decreases y.len(),
{
    lemma_split_nonempty(x, sep);
    if y.len() == 0 {
        assert(x + y =~= x);
        assert(split_on(x, sep).last() + y =~= split_on(x, sep).last());
        assert(split_on(x, sep).update(split_on(x, sep).len() - 1, split_on(x, sep).last())
            =~= split_on(x, sep));
    } else {
        let y0 = y.drop_last();
        assert(!y0.contains(sep)) by {
            if y0.contains(sep) {
                let i = choose|i: int| 0 <= i < y0.len() && y0[i] == sep;
                assert(y[i] == sep);
            }
        }
        assert(y.last() != sep) by {
            assert(y[y.len() - 1] == y.last());
        }
        lemma_split_append_plain(x, y0, sep);
        let xy = x + y;
        assert(xy.drop_last() =~= x + y0);
        assert(xy.last() == y.last());
        let p = split_on(x, sep);
        assert(p.last() + y =~= (p.last() + y0).push(y.last()));
        lemma_split_nonempty(x + y0, sep);
        assert(split_on(xy, sep) =~= p.update(p.len() - 1, p.last() + y));
    }
}

/// Appending a separator starts a new, empty piece.
pub proof fn lemma_split_append_sep(x: Seq<char>, sep: char)
    ensures
        split_on(x.push(sep), sep) == split_on(x, sep).push(Seq::empty()),
{
    assert(x.push(sep).drop_last() =~= x);
}

/// Whether `piece` stands in `s` starting at position `i`.
pub open spec fn occurs_at(s: Seq<char>, piece: Seq<char>, i: int) -> bool {
    0 <= i && i + piece.len() <= s.len() && s.subrange(i, i + piece.len()) == piece
}

/// Whether `piece` stands somewhere in `s`.
pub open spec fn occurs_in(s: Seq<char>, piece: Seq<char>) -> bool {
    exists|i: int| occurs_at(s, piece, i)
}

/// Every piece of a split holds no separator and stands in the text, and
/// the last piece is how the text ends.
pub proof fn lemma_split_pieces(s: Seq<char>, sep: char)
    ensures
        split_on(s, sep).len() >= 1,
        forall|k: int|
            0 <= k < split_on(s, sep).len() ==> !(#[trigger] split_on(s, sep)[k]).contains(sep)
                && occurs_in(s, split_on(s, sep)[k]),
        split_on(s, sep).last() == s.skip(s.len() - split_on(s, sep).last().len()),
    decreases s.len(),
{
    if s.len() == 0 {
        let e = Seq::<char>::empty();
        assert(split_on(s, sep) =~= seq![e]);
        assert(s.subrange(0, 0) =~= e);
        assert(occurs_at(s, e, 0));
        assert(s.skip(0) =~= e);
    } else {
        let t = s.drop_last();
        lemma_split_pieces(t, sep);
        let prev = split_on(t, sep);
        let cur = split_on(s, sep);
        let c = s.last();
        assert forall|k: int| 0 <= k < prev.len() - 1 implies cur[k] == prev[k] by {}
        if c == sep {
            assert(cur == prev.push(Seq::empty()));
            assert forall|k: int| 0 <= k < cur.len() implies !(#[trigger] cur[k]).contains(sep)
                && occurs_in(s, cur[k]) by {
                if k < prev.len() {
                    let i = choose|i: int| occurs_at(t, prev[k], i);
                    assert(s.subrange(i, i + prev[k].len()) =~= t.subrange(i, i + prev[k].len()));
                    assert(occurs_at(s, cur[k], i));
                } else {
                    assert(s.subrange(0, 0) =~= cur[k]);
                    assert(occurs_at(s, cur[k], 0));
                }
            }
            assert(s.skip(s.len() as int) =~= cur.last());
        } else {
            let last = prev.last().push(c);
            assert(cur == prev.update(prev.len() - 1, last));
            assert(last =~= s.skip(s.len() - last.len()));
            assert(!last.contains(sep)) by {
                if last.contains(sep) {
                    let j = choose|j: int| 0 <= j < last.len() && last[j] == sep;
                    if j < last.len() - 1 {
                        assert(prev.last().contains(sep));
                    }
                }
            }
            assert forall|k: int| 0 <= k < cur.len() implies !(#[trigger] cur[k]).contains(sep)
                && occurs_in(s, cur[k]) by {
                if k < prev.len() - 1 {
                    let i = choose|i: int| occurs_at(t, prev[k], i);
                    assert(s.subrange(i, i + prev[k].len()) =~= t.subrange(i, i + prev[k].len()));
                    assert(occurs_at(s, cur[k], i));
                } else {
                    let i = s.len() - last.len();
                    assert(s.subrange(i, i + last.len()) =~= last);
                    assert(occurs_at(s, cur[k], i));
                }
            }
        }
    }
}

} // verus!
