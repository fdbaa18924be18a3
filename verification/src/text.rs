//! Decimal numbers in protocol text: reading them from arguments and
//! writing them into replies.
use vstd::prelude::*;

verus! {

/// The ASCII digit for `d` (which is below ten).
pub open spec fn digit_char(d: nat) -> char {
    ((d + 48) as u32) as char
}

/// The decimal writing of `n`, without sign or leading zeros.
pub open spec fn dec(n: nat) -> Seq<char>
    decreases n,
{
    if n < 10 {
        seq![digit_char(n)]
    } else {
        dec(n / 10).push(digit_char(n % 10))
    }
}

/// Whether `c` is an ASCII decimal digit.
pub open spec fn is_digit(c: char) -> bool {
    '0' <= c && c <= '9'
}

/// Every character of `s` is an ASCII digit.
pub open spec fn all_digits(s: Seq<char>) -> bool {
    forall|i: int| 0 <= i < s.len() ==> is_digit(#[trigger] s[i])
}

/// The value of a digit character.
pub open spec fn digit_value(c: char) -> nat {
    (c as u32 - '0' as u32) as nat
}

/// The number that a string of digits denotes.
pub open spec fn digits_value(s: Seq<char>) -> nat
    decreases s.len(),
{
    if s.len() == 0 {
        0
    } else {
        digits_value(s.drop_last()) * 10 + digit_value(s.last())
    }
}

/// What an unsigned integer read from `s` denotes: an optional `+`
/// followed by at least one ASCII digit, and nothing else.
pub open spec fn unsigned_text(s: Seq<char>) -> Option<nat> {
    let body = if s.len() > 0 && s[0] == '+' {
        s.drop_first()
    } else {
        s
    };
    if body.len() > 0 && all_digits(body) {
        Some(digits_value(body))
    } else {
        None
    }
}

/// Appends one character to a string.
///
/// Trusted: calls `String::push`, which std documents as appending the
/// character to the end of the string.
#[verifier::external_body]
pub(crate) fn push_char(s: &mut String, c: char)
    ensures
        final(s)@ == old(s)@.push(c),
{
    s.push(c);
}

proof fn lemma_dec_len(n: nat)
    ensures
        dec(n).len() >= 1,
    decreases n,
{
    if n >= 10 {
        lemma_dec_len(n / 10);
    }
}

/// Appends the decimal writing of `n` to `s`.
pub fn push_dec(s: &mut String, n: u128)
    ensures
        final(s)@ == old(s)@ + dec(n as nat),
    decreases n,
{
    if n >= 10 {
        push_dec(s, n / 10);
    }
    let d: u32 = (n % 10) as u32;
    let c: char = if d == 0 {
        '0'
    } else if d == 1 {
        '1'
    } else if d == 2 {
        '2'
    } else if d == 3 {
        '3'
    } else if d == 4 {
        '4'
    } else if d == 5 {
        '5'
    } else if d == 6 {
        '6'
    } else if d == 7 {
        '7'
    } else if d == 8 {
        '8'
    } else {
        '9'
    };
    assert(c == digit_char(d as nat));
    push_char(s, c);
    proof {
        if n >= 10 {
            assert(dec(n as nat) == dec((n / 10) as nat).push(digit_char((n % 10) as nat)));
        } else {
            assert(dec(n as nat) == seq![digit_char(n as nat)]);
        }
    }
}

/// The decimal writing of `n` as a new string.
pub fn dec_string(n: usize) -> (r: String)
    ensures
        r@ == dec(n as nat),
{
    let mut s = String::new();
    push_dec(&mut s, n as u128);
    assert(s@ == Seq::<char>::empty() + dec(n as nat));
    s
}

proof fn lemma_digits_value_prefix(s: Seq<char>, j: int, k: int)
    requires
        0 <= j <= k <= s.len(),
        all_digits(s),
    ensures
        digits_value(s.take(j)) <= digits_value(s.take(k)),
    decreases k - j,
{
    if j < k {
        lemma_digits_value_prefix(s, j, k - 1);
        assert(s.take(k).drop_last() == s.take(k - 1));
    }
}

/// Reads an unsigned integer no larger than `max` from `s`, as std's
/// integer parsing does: `None` where `s` is not an optional `+` followed by
/// digits, or where the number exceeds `max`.
pub fn parse_bounded(s: &str, max: usize) -> (r: Option<usize>)
    ensures
        r == (match unsigned_text(s@) {
            Some(v) => if v <= max {
                Some(v as usize)
            } else {
                None
            },
            None => None,
        }),
{
    let len = s.unicode_len();
    let mut start: usize = 0;
    if len > 0 && s.get_char(0) == '+' {
        start = 1;
    }
    let ghost body = if s@.len() > 0 && s@[0] == '+' {
        s@.drop_first()
    } else {
        s@
    };
    assert(body == s@.subrange(start as int, len as int));
    if start >= len {
        assert(body.len() == 0);
        return None;
    }
    let mut value: usize = 0;
    let mut i: usize = start;
    while i < len
        invariant
            start <= i <= len,
            len == s@.len(),
            start < len,
            body == s@.subrange(start as int, len as int),
            body == (if s@.len() > 0 && s@[0] == '+' {
                s@.drop_first()
            } else {
                s@
            }),
            all_digits(body.take(i - start)),
            value as nat == digits_value(body.take(i - start)),
            value <= max,
        decreases len - i,
    {
        let c = s.get_char(i);
        assert(c == body[i - start]);
        if !(c >= '0' && c <= '9') {
            assert(!is_digit(body[i - start]));
            assert(!all_digits(body));
            return None;
        }
        let d: usize = (c as u32 - '0' as u32) as usize;
        assert(body.take(i + 1 - start).drop_last() == body.take(i - start));
        assert(all_digits(body.take(i + 1 - start)));
        if d > max || value > (max - d) / 10 {
            proof {
                assert(digits_value(body.take(i + 1 - start)) == value * 10 + d);
                if d <= max {
                    assert(value * 10 + d > max) by (nonlinear_arith)
                        requires
                            value > (max - d) / 10,
                            d <= max,
                    ;
                }
                if all_digits(body) {
                    lemma_digits_value_prefix(body, i + 1 - start, body.len() as int);
                    assert(body.take(body.len() as int) == body);
                }
            }
            return None;
        }
        proof {
            assert(value * 10 + d <= max) by (nonlinear_arith)
                requires
                    value <= (max - d) / 10,
                    d <= max,
            ;
        }
        value = value * 10 + d;
        i = i + 1;
    }
    assert(body.take(len - start) == body);
    Some(value)
}

/// Whether two strings hold the same characters.
pub fn str_eq(a: &str, b: &str) -> (r: bool)
    ensures
        r == (a@ == b@),
{
    let n = a.unicode_len();
    if n != b.unicode_len() {
        return false;
    }
    let mut i: usize = 0;
    while i < n
        invariant
            n == a@.len(),
            n == b@.len(),
            i <= n,
            forall|j: int| 0 <= j < i ==> a@[j] == b@[j],
        decreases n - i,
    {
        if a.get_char(i) != b.get_char(i) {
            return false;
        }
        i = i + 1;
    }
    assert(a@ =~= b@);
    true
}

/// Whether `s` begins with the characters of `prefix`.
pub fn starts_with(s: &str, prefix: &str) -> (r: bool)
    ensures
        r == (prefix@.len() <= s@.len() && s@.take(prefix@.len() as int) == prefix@),
{
    let n = prefix.unicode_len();
    if n > s.unicode_len() {
        return false;
    }
    let mut i: usize = 0;
    while i < n
        invariant
            n == prefix@.len(),
            n <= s@.len(),
            i <= n,
            forall|j: int| 0 <= j < i ==> s@[j] == prefix@[j],
        decreases n - i,
    {
        if s.get_char(i) != prefix.get_char(i) {
            assert(s@.take(n as int)[i as int] != prefix@[i as int]);
            return false;
        }
        i = i + 1;
    }
    assert(s@.take(n as int) =~= prefix@);
    true
}

/// Whether `s` begins with the character `c`.
pub fn starts_with_char(s: &str, c: char) -> (r: bool)
    ensures
        r == (s@.len() > 0 && s@[0] == c),
{
    s.unicode_len() > 0 && s.get_char(0) == c
}

/// The characters of `s` from position `from` on, as a new string.
pub fn suffix_string(s: &str, from: usize) -> (r: String)
    requires
        from <= s@.len(),
    ensures
        r@ == s@.skip(from as int),
{
    let n = s.unicode_len();
    let sub = s.substring_char(from, n);
    let r = String::from_str(sub);
    assert(r@ =~= s@.skip(from as int));
    r
}

/// The text of `parts` with `sep` between consecutive parts.
pub open spec fn join(parts: Seq<Seq<char>>, sep: Seq<char>) -> Seq<char>
    decreases parts.len(),
{
    if parts.len() == 0 {
        Seq::empty()
    } else if parts.len() == 1 {
        parts[0]
    } else {
        join(parts.drop_last(), sep) + sep + parts.last()
    }
}

/// The texts of a list of strings.
pub open spec fn texts_of(v: Seq<String>) -> Seq<Seq<char>> {
    v.map_values(|t: String| t@)
}

/// Joins `parts` with `sep` between consecutive parts.
pub fn join_strings(parts: &Vec<String>, sep: &str) -> (r: String)
    ensures
        r@ == join(texts_of(parts@), sep@),
{
    let mut r = String::new();
    let ghost t = texts_of(parts@);
    let mut i: usize = 0;
    assert(t.take(0) =~= Seq::<Seq<char>>::empty());
    while i < parts.len()
        invariant
            i <= parts@.len(),
            t == texts_of(parts@),
            r@ == join(t.take(i as int), sep@),
        decreases parts@.len() - i,
    {
        assert(t.take(i + 1).drop_last() =~= t.take(i as int));
        if i > 0 {
            r.append(sep);
        }
        r.append(parts[i].as_str());
        proof {
            if i == 0 {
                assert(t.take(1) =~= seq![t[0]]);
                assert(r@ =~= join(t.take(1), sep@));
            }
        }
        i = i + 1;
    }
    assert(t.take(parts@.len() as int) =~= t);
    r
}

/// The UTF-8 bytes of a text.
pub fn text_bytes(s: &str) -> (b: Vec<u8>)
    ensures
        b@ == vstd::utf8::encode_utf8(s@),
{
    s.as_bytes_vec()
}

/// Whether `c` is white space (the Unicode `White_Space` property, which
/// std's `char::is_whitespace` follows).
pub open spec fn is_ws(c: char) -> bool {
    ||| c == '\t'
    ||| c == '\n'
    ||| c == '\u{0B}'
    ||| c == '\u{0C}'
    ||| c == '\r'
    ||| c == ' '
    ||| c == '\u{85}'
    ||| c == '\u{A0}'
    ||| c == '\u{1680}'
    ||| ('\u{2000}' <= c && c <= '\u{200A}')
    ||| c == '\u{2028}'
    ||| c == '\u{2029}'
    ||| c == '\u{202F}'
    ||| c == '\u{205F}'
    ||| c == '\u{3000}'
}

/// Whether `c` is white space.
pub fn char_is_ws(c: char) -> (b: bool)
    ensures
        b == is_ws(c),
{
    c == '\t' || c == '\n' || c == '\u{0B}' || c == '\u{0C}' || c == '\r' || c == ' ' || c
        == '\u{85}' || c == '\u{A0}' || c == '\u{1680}' || (c >= '\u{2000}' && c <= '\u{200A}')
        || c == '\u{2028}' || c == '\u{2029}' || c == '\u{202F}' || c == '\u{205F}' || c
        == '\u{3000}'
}

/// Whether `c` separates pieces: a line break when `newline_only`, else
/// any white space.
pub open spec fn is_sep(c: char, newline_only: bool) -> bool {
    if newline_only {
        c == '\n'
    } else {
        is_ws(c)
    }
}

/// The maximal runs of characters of `s` other than separators, in order.
pub open spec fn runs(s: Seq<char>, newline_only: bool) -> Seq<Seq<char>>
    decreases s.len(),
{
    if s.len() == 0 {
        Seq::empty()
    } else if is_sep(s.last(), newline_only) {
        runs(s.drop_last(), newline_only)
    } else if s.len() > 1 && !is_sep(s[s.len() - 2], newline_only) {
        let w = runs(s.drop_last(), newline_only);
        w.update(w.len() - 1, w.last().push(s.last()))
    } else {
        runs(s.drop_last(), newline_only).push(seq![s.last()])
    }
}

/// The words of `s`: its maximal runs of characters other than white
/// space, in order.
pub open spec fn words(s: Seq<char>) -> Seq<Seq<char>> {
    runs(s, false)
}

/// The lines of `s` that are not empty, in order.
pub open spec fn lines(s: Seq<char>) -> Seq<Seq<char>> {
    runs(s, true)
}

/// The maximal runs of `s` between separators (see `runs`).
fn split_runs(s: &str, newline_only: bool) -> (r: Vec<String>)
    ensures
        texts_of(r@) == runs(s@, newline_only),
{
    let n = s.unicode_len();
    let mut done: Vec<String> = Vec::new();
    let mut cur = String::new();
    let mut i: usize = 0;
    while i < n
        invariant
            n == s@.len(),
            i <= n,
            (cur@.len() > 0) == (i > 0 && !is_sep(s@[i - 1], newline_only)),
            runs(s@.take(i as int), newline_only) == if cur@.len() > 0 {
                texts_of(done@).push(cur@)
            } else {
                texts_of(done@)
            },
        decreases n - i,
    {
        let c = s.get_char(i);
        let ghost pre = s@.take(i as int);
        assert(s@.take(i + 1).drop_last() =~= pre);
        assert(s@.take(i + 1).last() == c);
        let sep = if newline_only {
            c == '\n'
        } else {
            char_is_ws(c)
        };
        if sep {
            assert(runs(s@.take(i + 1), newline_only) == runs(pre, newline_only));
            if cur.unicode_len() > 0 {
                let ghost before = done@;
                let ghost word = cur@;
                done.push(cur);
                assert(texts_of(done@) =~= texts_of(before).push(word));
                cur = String::new();
                assert(runs(s@.take(i + 1), newline_only) == texts_of(done@));
            } else {
                assert(runs(s@.take(i + 1), newline_only) == texts_of(done@));
            }
        } else {
            if i > 0 {
                assert(s@.take(i + 1)[i - 1] == s@[i - 1]);
            }
            if cur.unicode_len() > 0 {
                assert(runs(s@.take(i + 1), newline_only) =~= texts_of(done@).push(cur@.push(c)));
            } else {
                assert(runs(s@.take(i + 1), newline_only) =~= texts_of(done@).push(seq![c]));
            }
            let ghost old_cur = cur@;
            push_char(&mut cur, c);
            assert(cur@ == old_cur.push(c));
            proof {
                if old_cur.len() == 0 {
                    assert(old_cur.push(c) =~= seq![c]);
                }
            }
            assert(cur@.len() > 0);
            assert(runs(s@.take(i + 1), newline_only) == texts_of(done@).push(cur@));
        }
        i = i + 1;
    }
    assert(s@.take(n as int) =~= s@);
    if cur.unicode_len() > 0 {
        let ghost before = done@;
        let ghost word = cur@;
        done.push(cur);
        assert(texts_of(done@) =~= texts_of(before).push(word));
    }
    done
}

/// The words of `s`, split at white space.
pub fn split_words(s: &str) -> (r: Vec<String>)
    ensures
        texts_of(r@) == words(s@),
{
    split_runs(s, false)
}

/// The lines of `s` that are not empty, split at line breaks: the
/// commands of a chunk of client input.
pub fn split_lines(s: &str) -> (r: Vec<String>)
    ensures
        texts_of(r@) == lines(s@),
{
    split_runs(s, true)
}

} // verus!
