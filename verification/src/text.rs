//! Verified text utilities: whitespace tokenization, substring search,
//! decimal parsing and formatting, and small string-building helpers.

use vstd::prelude::*;

verus! {

/// The Unicode white-space characters, as `char::is_whitespace` and
/// `str::split_whitespace` recognize them.
pub open spec fn is_space(c: char) -> bool {
    ||| ('\u{9}' <= c && c <= '\u{d}')
    ||| c == ' '
    ||| c == '\u{85}'
    ||| c == '\u{a0}'
    ||| c == '\u{1680}'
    ||| ('\u{2000}' <= c && c <= '\u{200a}')
    ||| c == '\u{2028}'
    ||| c == '\u{2029}'
    ||| c == '\u{202f}'
    ||| c == '\u{205f}'
    ||| c == '\u{3000}'
}

/// Executable whitespace test.
pub fn is_space_char(c: char) -> (r: bool)
    ensures
        r == is_space(c),
{
    ('\u{9}' <= c && c <= '\u{d}') || c == ' ' || c == '\u{85}' || c == '\u{a0}' || c
        == '\u{1680}' || ('\u{2000}' <= c && c <= '\u{200a}') || c == '\u{2028}' || c
        == '\u{2029}' || c == '\u{202f}' || c == '\u{205f}' || c == '\u{3000}'
}

/// Length of the leading run of non-whitespace characters.
pub open spec fn token_len(s: Seq<char>) -> nat
    decreases s.len(),
{
    if s.len() == 0 || is_space(s[0]) {
        0
    } else {
        1 + token_len(s.skip(1))
    }
}

pub proof fn lemma_token_len_le(s: Seq<char>)
    ensures
        token_len(s) <= s.len(),
    decreases s.len(),
{
    if s.len() != 0 && !is_space(s[0]) {
        lemma_token_len_le(s.skip(1));
    }
}

/// The whitespace-separated tokens of a character sequence, in order.
pub open spec fn tokens_of(s: Seq<char>) -> Seq<Seq<char>>
    decreases s.len(),
    when s.len() >= 0
    via tokens_of_decreases
{
    if s.len() == 0 {
        Seq::empty()
    } else if is_space(s[0]) {
        tokens_of(s.skip(1))
    } else {
        seq![s.take(token_len(s) as int)] + tokens_of(s.skip(token_len(s) as int))
    }
}

#[via_fn]
proof fn tokens_of_decreases(s: Seq<char>) {
    if s.len() != 0 && !is_space(s[0]) {
        lemma_token_len_le(s);
    }
}

/// A leading run of exactly `k` non-whitespace characters has token length `k`.
pub proof fn lemma_token_len_exact(s: Seq<char>, k: nat)
    requires
        k <= s.len(),
        forall|m: int| 0 <= m < k ==> !is_space(s[m]),
        k == s.len() || is_space(s[k as int]),
    ensures
        token_len(s) == k,
    decreases k,
{
    if k == 0 {
    } else {
        let t = s.skip(1);
        assert forall|m: int| 0 <= m < k - 1 implies !is_space(t[m]) by {
            assert(t[m] == s[m + 1]);
        }
        if k < s.len() {
            assert(t[k - 1] == s[k as int]);
        }
        lemma_token_len_exact(t, (k - 1) as nat);
    }
}

/// The views of a sequence of strings.
pub open spec fn views_of(ss: Seq<String>) -> Seq<Seq<char>> {
    ss.map_values(|t: String| t@)
}

/// Splits a string into its whitespace-separated tokens.
pub fn split_whitespace(s: &str) -> (toks: Vec<String>)
    ensures
        views_of(toks@) == tokens_of(s@),
{
    let n = s.unicode_len();
    let mut toks: Vec<String> = Vec::new();
    let mut i: usize = 0;
    proof {
        assert(s@.skip(0) =~= s@);
        assert(views_of(toks@) + tokens_of(s@) =~= tokens_of(s@));
    }
    while i < n
        invariant
            n == s@.len(),
            i <= n,
            tokens_of(s@) == views_of(toks@) + tokens_of(s@.skip(i as int)),
        decreases n - i,
    {
        let c = s.get_char(i);
        if is_space_char(c) {
            proof {
                let u = s@.skip(i as int);
                assert(u[0] == s@[i as int]);
                assert(u.skip(1) =~= s@.skip(i as int + 1));
            }
            i = i + 1;
        } else {
            let start = i;
            i = i + 1;
            while i < n && !is_space_char(s.get_char(i))
                invariant
                    n == s@.len(),
                    start < i <= n,
                    forall|m: int| start <= m < i ==> !is_space(s@[m]),
                decreases n - i,
            {
                i = i + 1;
            }
            let tok = s.substring_char(start, i).to_owned();
            proof {
                let u = s@.skip(start as int);
                let k = (i - start) as nat;
                assert forall|m: int| 0 <= m < k implies !is_space(u[m]) by {
                    assert(u[m] == s@[start + m]);
                }
                if i < n {
                    assert(u[k as int] == s@[i as int]);
                }
                lemma_token_len_exact(u, k);
                assert(u.take(k as int) =~= s@.subrange(start as int, i as int));
                assert(u.skip(k as int) =~= s@.skip(i as int));
                assert(views_of(toks@.push(tok)) =~= views_of(toks@).push(tok@));
                assert(views_of(toks@) + (seq![tok@] + tokens_of(s@.skip(i as int)))
                    =~= views_of(toks@).push(tok@) + tokens_of(s@.skip(i as int)));
            }
            toks.push(tok);
        }
    }
    proof {
        assert(s@.skip(n as int) =~= Seq::<char>::empty());
        assert(views_of(toks@) + tokens_of(s@.skip(n as int)) =~= views_of(toks@));
    }
    toks
}

/// Character-wise string equality.
pub fn str_eq(a: &str, b: &str) -> (r: bool)
    ensures
        r == (a@ == b@),
{
    let n = a.unicode_len();
    if n != b.unicode_len() {
        return false;
    }
    let mut i: usize = 0;
    while i < n
        invariant
            n == a@.len(),
            n == b@.len(),
            i <= n,
            forall|m: int| 0 <= m < i ==> a@[m] == b@[m],
        decreases n - i,
    {
        if a.get_char(i) != b.get_char(i) {
            return false;
        }
        i = i + 1;
    }
    proof {
        assert(a@ =~= b@);
    }
    true
}

/// `needle` occurs in `text` starting at position `i`.
pub open spec fn occurs_at(text: Seq<char>, needle: Seq<char>, i: int) -> bool {
    0 <= i && i + needle.len() <= text.len() && text.subrange(i, i + needle.len()) == needle
}

/// `needle` occurs somewhere in `text`.
pub open spec fn contains_seq(text: Seq<char>, needle: Seq<char>) -> bool {
    exists|i: int| occurs_at(text, needle, i)
}

/// Substring search: does `text` contain `needle`?
pub fn contains_str(text: &str, needle: &str) -> (r: bool)
    ensures
        r == contains_seq(text@, needle@),
{
    let n = text.unicode_len();
    let m = needle.unicode_len();
    if m > n {
        proof {
            assert forall|i: int| !occurs_at(text@, needle@, i) by {}
        }
        return false;
    }
    if m == 0 {
        proof {
            assert(text@.subrange(0, 0) =~= needle@);
            assert(occurs_at(text@, needle@, 0));
        }
        return true;
    }
    let mut k: usize = 0;
    while k <= n - m
        invariant
            n == text@.len(),
            m == needle@.len(),
            1 <= m <= n,
            k <= n - m + 1,
            forall|i: int| 0 <= i < k ==> !occurs_at(text@, needle@, i),
        decreases n - m - k + 1,
    {
        let mut j: usize = 0;
        let mut matched = true;
        while j < m && matched
            invariant
                n == text@.len(),
                m == needle@.len(),
                1 <= m <= n,
                k <= n - m,
                j <= m,
                matched ==> forall|p: int| 0 <= p < j ==> text@[k + p] == needle@[p],
                !matched ==> !occurs_at(text@, needle@, k as int),
            decreases m - j,
        {
            if text.get_char(k + j) != needle.get_char(j) {
                matched = false;
                proof {
                    assert(text@.subrange(k as int, k + m)[j as int] != needle@[j as int]);
                }
                j = m;
            } else {
                j = j + 1;
            }
        }
        if matched {
            proof {
                assert(text@.subrange(k as int, k + m) =~= needle@);
                assert(occurs_at(text@, needle@, k as int));
            }
            return true;
        }
        k = k + 1;
    }
    proof {
        assert forall|i: int| !occurs_at(text@, needle@, i) by {
            if 0 <= i && i + needle@.len() <= text@.len() {
                assert(i < k);
            }
        }
    }
    false
}

/// `c` is an ASCII decimal digit.
pub open spec fn is_digit(c: char) -> bool {
    '0' <= c && c <= '9'
}

/// Numeric value of a digit character.
pub open spec fn digit_val(c: char) -> int {
    c as int - '0' as int
}

/// Value of a digit string read in base 10.
pub open spec fn digits_val(s: Seq<char>) -> int
    decreases s.len(),
{
    if s.len() == 0 {
        0
    } else {
        digits_val(s.drop_last()) * 10 + digit_val(s.last())
    }
}

pub open spec fn all_digits(s: Seq<char>) -> bool {
    forall|i: int| 0 <= i < s.len() ==> is_digit(s[i])
}

/// The digits of an integer literal, after any leading sign.
pub open spec fn int_body(s: Seq<char>) -> Seq<char> {
    if s.len() > 0 && (s[0] == '+' || s[0] == '-') {
        s.skip(1)
    } else {
        s
    }
}

/// The sign of an integer literal.
pub open spec fn int_sign(s: Seq<char>) -> int {
    if s.len() > 0 && s[0] == '-' {
        -1
    } else {
        1
    }
}

/// `s` is a well-formed decimal literal whose value fits in `i32`.
pub open spec fn parses_as_i32(s: Seq<char>) -> bool {
    &&& int_body(s).len() > 0
    &&& all_digits(int_body(s))
    &&& i32::MIN <= int_sign(s) * digits_val(int_body(s)) <= i32::MAX
}

/// The value of a decimal literal.
pub open spec fn i32_value(s: Seq<char>) -> int {
    int_sign(s) * digits_val(int_body(s))
}

proof fn lemma_digits_val_nonneg(s: Seq<char>)
    requires
        all_digits(s),
    ensures
        digits_val(s) >= 0,
    decreases s.len(),
{
    if s.len() > 0 {
        assert(all_digits(s.drop_last()));
        lemma_digits_val_nonneg(s.drop_last());
    }
}

/// Parses a decimal integer exactly as `str::parse::<i32>` does:
/// an optional sign, then one or more digits, with the value in range.
pub fn parse_i32(s: &str) -> (r: Option<i32>)
    ensures
        match r {
            Some(v) => parses_as_i32(s@) && v == i32_value(s@),
            None => !parses_as_i32(s@),
        },
{
    let n = s.unicode_len();
    let mut start: usize = 0;
    let mut neg = false;
    if n > 0 {
        let c0 = s.get_char(0);
        if c0 == '+' || c0 == '-' {
            start = 1;
            neg = c0 == '-';
        }
    }
    proof {
        if start == 1 {
            assert(int_body(s@) =~= s@.skip(1));
        } else {
            assert(int_body(s@) =~= s@);
        }
    }
    let ghost body = int_body(s@);
    if start == n {
        return None;
    }
    let mut acc: u64 = 0;
    let mut j: usize = start;
    while j < n
        invariant
            n == s@.len(),
            start <= j <= n,
            start < n,
            body == int_body(s@),
            body.len() == n - start,
            forall|m: int| 0 <= m < j - start ==> body[m] == s@[start + m],
            all_digits(body.take(j - start)),
            digits_val(body.take(j - start)) > u32::MAX ==> acc > u32::MAX,
            digits_val(body.take(j - start)) <= u32::MAX ==> acc == digits_val(
                body.take(j - start),
            ),
        decreases n - j,
    {
        let c = s.get_char(j);
        if c < '0' || c > '9' {
            proof {
                assert(body[j - start] == s@[j as int]);
                assert(!is_digit(body[j - start]));
            }
            return None;
        }
        let d: u64 = (c as u32 - '0' as u32) as u64;
        proof {
            let pre = body.take(j - start);
            let post = body.take(j + 1 - start);
            assert(post.drop_last() =~= pre);
            assert(post.last() == body[j - start]);
            assert(body[j - start] == s@[j as int]);
            assert(digits_val(post) == digits_val(pre) * 10 + d);
            lemma_digits_val_nonneg(pre);
        }
        if acc <= u32::MAX as u64 {
            acc = acc * 10 + d;
        }
        j = j + 1;
    }
    proof {
        assert(body.take(n - start) =~= body);
        lemma_digits_val_nonneg(body);
    }
    if acc > i32::MAX as u64 {
        if neg && acc == i32::MAX as u64 + 1 && acc <= u32::MAX as u64 {
            return Some(i32::MIN);
        }
        return None;
    }
    let v = acc as i32;
    if neg {
        Some(-v)
    } else {
        Some(v)
    }
}

/// The decimal digit characters, as a table.
pub open spec fn digit_char(d: int) -> char {
    if d == 0 {
        '0'
    } else if d == 1 {
        '1'
    } else if d == 2 {
        '2'
    } else if d == 3 {
        '3'
    } else if d == 4 {
        '4'
    } else if d == 5 {
        '5'
    } else if d == 6 {
        '6'
    } else if d == 7 {
        '7'
    } else if d == 8 {
        '8'
    } else {
        '9'
    }
}

/// The base-10 digit string of a natural number.
pub open spec fn dec_digits(n: nat) -> Seq<char>
    decreases n,
{
    if n < 10 {
        seq![digit_char(n as int)]
    } else {
        dec_digits(n / 10).push(digit_char((n % 10) as int))
    }
}

/// The base-10 representation of an integer, with a leading minus sign
/// when negative.
pub open spec fn dec_rep(n: int) -> Seq<char> {
    if n < 0 {
        seq!['-'] + dec_digits((-n) as nat)
    } else {
        dec_digits(n as nat)
    }
}

fn digit_char_of(d: u64) -> (c: char)
    requires
        d < 10,
    ensures
        c == digit_char(d as int),
{
    if d == 0 {
        '0'
    } else if d == 1 {
        '1'
    } else if d == 2 {
        '2'
    } else if d == 3 {
        '3'
    } else if d == 4 {
        '4'
    } else if d == 5 {
        '5'
    } else if d == 6 {
        '6'
    } else if d == 7 {
        '7'
    } else if d == 8 {
        '8'
    } else {
        '9'
    }
}

/// Relies on `String::push`: appends one character to the end of the string.
#[verifier::external_body]
pub(crate) fn push_char(s: &mut String, c: char)
    ensures
        final(s)@ == old(s)@.push(c),
{
    s.push(c);
}

fn append_u64_dec(x: u64, out: &mut String)
    ensures
        final(out)@ == old(out)@ + dec_digits(x as nat),
    decreases x,
{
    if x < 10 {
        push_char(out, digit_char_of(x));
        proof {
            assert(old(out)@.push(digit_char(x as int)) =~= old(out)@ + dec_digits(x as nat));
        }
    } else {
        append_u64_dec(x / 10, out);
        push_char(out, digit_char_of(x % 10));
        proof {
            assert((old(out)@ + dec_digits((x / 10) as nat)).push(digit_char((x % 10) as int))
                =~= old(out)@ + dec_digits(x as nat));
        }
    }
}

/// Formats an integer in base 10, as `i64`'s display does.
pub fn i64_to_string(n: i64) -> (s: String)
    ensures
        s@ == dec_rep(n as int),
{
    let mut out = String::new();
    if n < 0 {
        push_char(&mut out, '-');
        let mag: u64 = ((-(n + 1)) as u64) + 1;
        append_u64_dec(mag, &mut out);
        proof {
            assert(Seq::<char>::empty().push('-') =~= seq!['-']);
            assert(seq!['-'] + dec_digits(mag as nat) =~= dec_rep(n as int));
        }
    } else {
        append_u64_dec(n as u64, &mut out);
        proof {
            assert(Seq::<char>::empty() + dec_digits(n as nat) =~= dec_rep(n as int));
        }
    }
    out
}

/// The concatenation of a sequence of character sequences.
pub open spec fn concat_all(ss: Seq<Seq<char>>) -> Seq<char>
    decreases ss.len(),
{
    if ss.len() == 0 {
        Seq::empty()
    } else {
        ss[0] + concat_all(ss.skip(1))
    }
}

/// Appending one piece extends the concatenation at the end.
pub proof fn lemma_concat_push(ss: Seq<Seq<char>>, t: Seq<char>)
    ensures
        concat_all(ss.push(t)) == concat_all(ss) + t,
    decreases ss.len(),
{
    if ss.len() == 0 {
        assert(ss.push(t).len() == 1);
        assert(ss.push(t)[0] == t);
        assert(ss.push(t).skip(1) =~= Seq::<Seq<char>>::empty());
        assert(concat_all(Seq::<Seq<char>>::empty()) == Seq::<char>::empty());
        assert(concat_all(ss.push(t)) == t + Seq::<char>::empty());
        assert(t + Seq::<char>::empty() =~= Seq::<char>::empty() + t);
    } else {
        assert(ss.push(t).skip(1) =~= ss.skip(1).push(t));
        lemma_concat_push(ss.skip(1), t);
        assert(ss.push(t)[0] == ss[0]);
        assert(ss[0] + (concat_all(ss.skip(1)) + t) =~= (ss[0] + concat_all(ss.skip(1))) + t);
    }
}

} // verus!
