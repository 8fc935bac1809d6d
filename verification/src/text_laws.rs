//! What reading and cutting text promises.

use crate::text;
use vstd::arithmetic::power::{lemma_pow0, lemma_pow1, lemma_pow_adds, pow};
use vstd::prelude::*;

verus! {

// ---------------------------------------------------------------------------------------------
// White space
// ---------------------------------------------------------------------------------------------

/// The characters that show as nothing: tabs, line ends, and the spaces of every width.
pub open spec fn blank(c: char) -> bool {
    let wide = set![
        0x85u32,
        0xA0u32,
        0x1680u32,
        0x2028u32,
        0x2029u32,
        0x202Fu32,
        0x205Fu32,
        0x3000u32,
    ];
    ||| c == '\t' || c == '\n' || c == '\r' || c == ' '
    ||| c as u32 == 11 || c as u32 == 12
    ||| 8192 <= c as u32 <= 8202
    ||| wide.contains(c as u32)
}

/// Every character of the text is blank.
pub open spec fn all_blank(s: Seq<char>) -> bool {
    forall|i: int| 0 <= i < s.len() ==> blank(#[trigger] s[i])
}

/// The text is empty, or neither starts nor ends with a blank.
pub open spec fn is_bare(s: Seq<char>) -> bool {
    s.len() > 0 ==> !blank(s[0]) && !blank(s[s.len() - 1])
}

proof fn lemma_blank(c: char)
    ensures
        text::is_space(c) == blank(c),
{
    assert('\t' as u32 == 9 && '\n' as u32 == 10 && '\r' as u32 == 13 && ' ' as u32 == 32);
    let v = c as u32;
    vstd::utf8::char_u32_cast(c, v);
    vstd::utf8::char_u32_cast('\t', 9);
    vstd::utf8::char_u32_cast('\n', 10);
    vstd::utf8::char_u32_cast('\r', 13);
    vstd::utf8::char_u32_cast(' ', 32);
}

proof fn lemma_leading(a: Seq<char>, s: Seq<char>)
    requires
        all_blank(a),
        s.len() > 0 ==> !blank(s[0]),
    ensures
        text::trim_start(a + s) == s,
    decreases a.len(),
{
    if a.len() == 0 {
        assert(a + s =~= s);
        if s.len() > 0 {
            lemma_blank(s[0]);
        }
    } else {
        lemma_blank(a[0]);
        assert((a + s).drop_first() =~= a.drop_first() + s);
        lemma_leading(a.drop_first(), s);
    }
}

proof fn lemma_trailing(s: Seq<char>, b: Seq<char>)
    requires
        all_blank(b),
        s.len() > 0 ==> !blank(s.last()),
    ensures
        text::trim_end(s + b) == s,
    decreases b.len(),
{
    if b.len() == 0 {
        assert(s + b =~= s);
        if s.len() > 0 {
            lemma_blank(s.last());
        }
    } else {
        lemma_blank(b.last());
        assert((s + b).drop_last() =~= s + b.drop_last());
        lemma_trailing(s, b.drop_last());
    }
}

/// Trimming a text takes the blanks around it, all of them, and nothing else.
pub proof fn law_trimming_takes_the_blanks_around(a: Seq<char>, s: Seq<char>, b: Seq<char>)
    requires
        all_blank(a),
        all_blank(b),
        is_bare(s),
    ensures
        text::trim(a + s + b) == s,
{
    if s.len() > 0 {
        assert(a + s + b =~= a + (s + b));
        lemma_leading(a, s + b);
        lemma_trailing(s, b);
    } else {
        let all = a + s + b;
        assert forall|i: int| 0 <= i < all.len() implies blank(#[trigger] all[i]) by {
            if i < a.len() {
                assert(all[i] == a[i]);
            } else {
                assert(all[i] == b[i - a.len()]);
            }
        }
        lemma_leading(all, s);
        assert(all + s =~= all);
        lemma_trailing(s, Seq::empty());
        assert(s + Seq::<char>::empty() =~= s);
    }
}

// ---------------------------------------------------------------------------------------------
// Searching
// ---------------------------------------------------------------------------------------------

/// A search for a character finds the place after a part without it.
pub proof fn law_the_first_place_is_found(a: Seq<char>, c: char, b: Seq<char>)
    requires
        !a.contains(c),
    ensures
        text::index_from(a + seq![c] + b, c, 0) == Some(a.len() as int),
        text::index_from(a, c, 0) is None,
{
    let s = a + seq![c] + b;
    text::lemma_index(s, c, 0);
    text::lemma_index(a, c, 0);
    assert(s[a.len() as int] == c);
    if text::index_from(s, c, 0) is Some {
        let k = text::index_from(s, c, 0)->0;
        if k < a.len() {
            assert(s[k] == a[k]);
        }
    }
}

/// A search from the end finds the place before a part without the character.
pub proof fn law_the_last_place_is_found(a: Seq<char>, c: char, b: Seq<char>)
    requires
        !b.contains(c),
    ensures
        text::last_index(a + seq![c] + b, c, (a.len() + 1 + b.len()) as nat) == Some(
            a.len() as int,
        ),
        text::last_index(b, c, b.len()) is None,
{
    lemma_last(a + seq![c] + b, c, a.len() as int, (a.len() + 1 + b.len()) as nat, b);
    lemma_none(b, c, b.len());
}

proof fn lemma_last(s: Seq<char>, c: char, k: int, n: nat, b: Seq<char>)
    requires
        0 <= k < n <= s.len(),
        s[k] == c,
        s.len() == k + 1 + b.len(),
        forall|i: int| 0 <= i < b.len() ==> s[k + 1 + i] == #[trigger] b[i],
        !b.contains(c),
    ensures
        text::last_index(s, c, n) == Some(k),
    decreases n,
{
    if n > k + 1 {
        assert(b[n - 2 - k] == s[n - 1]);
        lemma_last(s, c, k, (n - 1) as nat, b);
    }
}

proof fn lemma_none(s: Seq<char>, c: char, n: nat)
    requires
        n <= s.len(),
        !s.contains(c),
    ensures
        text::last_index(s, c, n) is None,
    decreases n,
{
    if n > 0 {
        assert(s[n - 1] != c);
        lemma_none(s, c, (n - 1) as nat);
    }
}

// ---------------------------------------------------------------------------------------------
// Numbers
// ---------------------------------------------------------------------------------------------

/// What decimal digits stand for, each times ten to the power of its place.
pub open spec fn by_place(s: Seq<char>) -> int
    decreases s.len(),
{
    if s.len() == 0 {
        0
    } else {
        (s[0] as u32 - 48) * pow(10, (s.len() - 1) as nat) + by_place(s.drop_first())
    }
}

/// The text is one of decimal digits.
pub open spec fn is_decimal(s: Seq<char>) -> bool {
    s.len() > 0 && forall|i: int| 0 <= i < s.len() ==> 48 <= #[trigger] s[i] as u32 <= 57
}

proof fn lemma_by_place(s: Seq<char>, c: char)
    ensures
        by_place(s.push(c)) == by_place(s) * 10 + (c as u32 - 48),
    decreases s.len(),
{
    let t = s.push(c);
    lemma_pow0(10);
    lemma_pow1(10);
    if s.len() == 0 {
        assert(t.drop_first() =~= s);
    } else {
        lemma_by_place(s.drop_first(), c);
        assert(t.drop_first() =~= s.drop_first().push(c));
        lemma_pow_adds(10, (s.len() - 1) as nat, 1);
        let d = s[0] as u32 - 48;
        let p = pow(10, (s.len() - 1) as nat);
        assert(d * (p * 10) == (d * p) * 10) by (nonlinear_arith);
    }
}

proof fn lemma_value(s: Seq<char>)
    requires
        text::all_digits(s),
    ensures
        text::value(s) == by_place(s),
    decreases s.len(),
{
    if s.len() > 0 {
        let r = s.drop_last();
        assert forall|i: int| 0 <= i < r.len() implies text::is_digit(#[trigger] r[i]) by {
            assert(r[i] == s[i]);
        }
        lemma_value(r);
        lemma_by_place(r, s.last());
        assert(r.push(s.last()) =~= s);
        assert(text::is_digit(s[s.len() - 1]));
    }
}

proof fn lemma_within(s: Seq<char>, max: nat)
    ensures
        text::digits_within(s, max) == (if is_decimal(s) && by_place(s) <= max {
            Some(by_place(s) as nat)
        } else {
            None
        }),
        is_decimal(s) ==> by_place(s) >= 0,
{
    assert(text::all_digits(s) && s.len() > 0 <==> is_decimal(s)) by {
        if text::all_digits(s) {
            assert forall|i: int| 0 <= i < s.len() implies 48 <= #[trigger] s[i] as u32
                <= 57 by {
                assert(text::is_digit(s[i]));
            }
        }
    }
    if text::all_digits(s) {
        lemma_value(s);
    }
}

/// A natural number is read where the text is one of decimal digits, a plus sign before them or
/// not, that stand for no more than may be read; and each digit counts by its place.
pub proof fn law_natural_numbers_are_read_by_place(s: Seq<char>, max: nat)
    requires
        s.len() == 0 || s[0] != '+',
    ensures
        text::unsigned_of(s, max) == (if is_decimal(s) && by_place(s) <= max {
            Some(by_place(s) as nat)
        } else {
            None
        }),
        text::unsigned_of(seq!['+'] + s, max) == text::unsigned_of(s, max),
        is_decimal(s) ==> by_place(s) >= 0,
{
    lemma_within(s, max);
    assert((seq!['+'] + s).drop_first() =~= s);
}

/// A number with a minus sign is the negative of the one without, and there is one more of them.
pub proof fn law_signed_numbers_are_read_by_place(s: Seq<char>, max: nat)
    requires
        s.len() == 0 || s[0] != '-',
    ensures
        text::signed_of(s, max) == (match text::unsigned_of(s, max) {
            Some(n) => Some(n as int),
            None => None,
        }),
        text::signed_of(seq!['-'] + s, max) == (if is_decimal(s) && by_place(s) <= max + 1 {
            Some(-by_place(s))
        } else {
            None
        }),
{
    lemma_within(s, max + 1);
    assert((seq!['-'] + s).drop_first() =~= s);
}

/// A number is written in decimal digits that stand for it, the first of them not a zero unless the
/// number is none; and one below zero with a minus sign before it.
pub proof fn law_numbers_are_written_in_decimal(n: nat)
    ensures
        is_decimal(text::dec(n)),
        by_place(text::dec(n)) == n,
        n > 0 ==> text::dec(n)[0] != '0',
        n == 0 ==> text::dec(n).len() == 1,
        text::dec_signed(n as int) == text::dec(n),
        n > 0 ==> text::dec_signed(-n) == seq!['-'] + text::dec(n),
    decreases n,
{
    if n < 10 {
        let s = text::dec(n);
        lemma_pow0(10);
        reveal_with_fuel(by_place, 2);
        assert(s.drop_first() =~= Seq::<char>::empty());
        assert(s[0] as u32 == 48 + n);
        assert('0' as u32 == 48);
    } else {
        law_numbers_are_written_in_decimal(n / 10);
        lemma_by_place(text::dec(n / 10), text::digit((n % 10) as int));
        let s = text::dec(n);
        assert forall|i: int| 0 <= i < s.len() implies 48 <= #[trigger] s[i] as u32 <= 57 by {
            if i < s.len() - 1 {
                assert(s[i] == text::dec(n / 10)[i]);
            }
        }
        assert(s[0] == text::dec(n / 10)[0]);
    }
}

// ---------------------------------------------------------------------------------------------
// Lines
// ---------------------------------------------------------------------------------------------

/// A line feed, with a carriage return before it or not, ends a line; what follows the last one is
/// a line unless it is empty.
pub proof fn law_line_feeds_end_lines(line: Seq<char>, rest: Seq<char>)
    requires
        !line.contains('\n'),
    ensures
        line.len() == 0 || line.last() != '\r' ==> text::lines_of(line + seq!['\n'] + rest) == seq![
            line,
        ] + text::lines_of(rest),
        text::lines_of(line + seq!['\r', '\n'] + rest) == seq![line] + text::lines_of(rest),
        line.len() > 0 ==> text::lines_of(line) == seq![line],
        text::lines_of(Seq::empty()) == Seq::<Seq<char>>::empty(),
{
    let s = line + seq!['\n'] + rest;
    law_the_first_place_is_found(line, '\n', rest);
    assert(s.subrange(0, line.len() as int) =~= line);
    assert(s.subrange(line.len() as int + 1, s.len() as int) =~= rest);
    let held = line + seq!['\r'];
    assert(!held.contains('\n')) by {
        assert forall|i: int| 0 <= i < held.len() implies held[i] != '\n' by {
            if i < line.len() {
                assert(line.contains(line[i]));
            }
        }
    }
    let t = line + seq!['\r', '\n'] + rest;
    assert(t =~= held + seq!['\n'] + rest);
    law_the_first_place_is_found(held, '\n', rest);
    assert(t.subrange(0, held.len() as int) =~= held);
    assert(t.subrange(held.len() as int + 1, t.len() as int) =~= rest);
    assert(held.drop_last() =~= line);
}

// ---------------------------------------------------------------------------------------------
// Bytes
// ---------------------------------------------------------------------------------------------

/// What is kept of a text that is too long is the longest start of it that fits.
pub proof fn law_as_much_as_fits(s: Seq<char>, n: nat, k: int)
    requires
        0 <= k <= s.len(),
        vstd::utf8::encode_utf8(s.subrange(0, k)).len() <= n,
    ensures
        text::within_bytes(s, n).is_prefix_of(s),
        k <= text::within_bytes(s, n).len(),
        vstd::utf8::encode_utf8(text::within_bytes(s, n)).len() <= n,
    decreases s.len(),
{
    text::lemma_within_bytes_fits(s, n);
    if s.len() > 0 && text::width(s) > n {
        if k == s.len() {
            assert(s.subrange(0, k) =~= s);
        } else {
            assert(s.drop_last().subrange(0, k) =~= s.subrange(0, k));
            law_as_much_as_fits(s.drop_last(), n, k);
        }
    }
}

} // verus!
