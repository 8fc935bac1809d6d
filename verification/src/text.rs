//! Text as sequences of characters: numbers in decimal, trimming, splitting, comparing.

use vstd::prelude::*;
use vstd::utf8;

verus! {

/// `String::push` of std: appends one character.
pub assume_specification[ String::push ](s: &mut String, c: char)
    ensures
        final(s)@ == old(s)@.push(c),
;

/// The character of a decimal digit.
pub open spec fn digit(d: int) -> char {
    (0x30 + d) as char
}

/// A natural number in decimal, without leading zeros.
pub open spec fn dec(n: nat) -> Seq<char>
    decreases n,
{
    if n < 10 {
        seq![digit(n as int)]
    } else {
        dec(n / 10).push(digit((n % 10) as int))
    }
}

/// A number in decimal, with a minus sign before a negative one.
pub open spec fn dec_signed(n: int) -> Seq<char> {
    if n < 0 {
        seq!['-'] + dec((-n) as nat)
    } else {
        dec(n as nat)
    }
}

/// The characters of a string.
pub fn chars_of(s: &str) -> (r: Vec<char>)
    ensures
        r@ == s@,
{
    let mut r: Vec<char> = Vec::new();
    for c in it: s.chars()
        invariant
            r@ =~= s@.subrange(0, it.index() as int),
            it.seq() == s@,
    {
        r.push(c);
    }
    assert(s@.subrange(0, s@.len() as int) =~= s@);
    r
}

/// The string made of these characters.
pub fn string_of(cs: &[char]) -> (r: String)
    ensures
        r@ == cs@,
{
    let mut r = String::new();
    let mut i: usize = 0;
    while i < cs.len()
        invariant
            i <= cs@.len(),
            r@ =~= cs@.subrange(0, i as int),
        decreases cs@.len() - i,
    {
        r.push(cs[i]);
        i = i + 1;
    }
    assert(cs@.subrange(0, cs@.len() as int) =~= cs@);
    r
}

/// Appends `n` in decimal.
pub fn push_wide(s: &mut String, n: u128)
    ensures
        final(s)@ == old(s)@ + dec(n as nat),
    decreases n,
{
    if n >= 10 {
        push_wide(s, n / 10);
    }
    s.push((0x30u8 + (n % 10) as u8) as char);
    assert(s@ =~= old(s)@ + dec(n as nat));
}

/// Appends `n` in decimal.
pub fn push_dec(s: &mut String, n: u64)
    ensures
        final(s)@ == old(s)@ + dec(n as nat),
{
    push_wide(s, n as u128);
}

/// Appends `n` in decimal, with a minus sign before a negative one.
pub fn push_signed(s: &mut String, n: i64)
    ensures
        final(s)@ == old(s)@ + dec_signed(n as int),
{
    if n < 0 {
        s.push('-');
        push_dec(s, (-(n as i128)) as u64);
        assert(s@ =~= old(s)@ + dec_signed(n as int));
    } else {
        push_dec(s, n as u64);
    }
}

/// Appends a string.
pub fn push_text(s: &mut String, t: &str)
    ensures
        final(s)@ == old(s)@ + t@,
{
    s.append(t);
}

// ---------------------------------------------------------------------------------------------
// Classes of characters
// ---------------------------------------------------------------------------------------------

/// A control code: Unicode's general category Cc.
pub open spec fn is_control(c: char) -> bool {
    c as u32 <= 0x1F || 0x7F <= c as u32 <= 0x9F
}

/// White space: Unicode's property White_Space.
pub open spec fn is_space(c: char) -> bool {
    let v = c as u32;
    ||| 0x09 <= v <= 0x0D
    ||| v == 0x20
    ||| v == 0x85
    ||| v == 0xA0
    ||| v == 0x1680
    ||| 0x2000 <= v <= 0x200A
    ||| v == 0x2028
    ||| v == 0x2029
    ||| v == 0x202F
    ||| v == 0x205F
    ||| v == 0x3000
}

/// A decimal digit of ASCII.
pub open spec fn is_digit(c: char) -> bool {
    0x30 <= c as u32 <= 0x39
}

/// Whether a character is a control code.
pub fn control(c: char) -> (r: bool)
    ensures
        r == is_control(c),
{
    let v: u32 = c as u32;
    v <= 0x1F || (0x7F <= v && v <= 0x9F)
}

/// Whether a character is white space.
pub fn space(c: char) -> (r: bool)
    ensures
        r == is_space(c),
{
    let v: u32 = c as u32;
    (0x09 <= v && v <= 0x0D) || v == 0x20 || v == 0x85 || v == 0xA0 || v == 0x1680 || (0x2000 <= v
        && v <= 0x200A) || v == 0x2028 || v == 0x2029 || v == 0x202F || v == 0x205F || v == 0x3000
}

/// Whether a character is a decimal digit of ASCII.
pub fn ascii_digit(c: char) -> (r: bool)
    ensures
        r == is_digit(c),
{
    let v: u32 = c as u32;
    0x30 <= v && v <= 0x39
}

/// A letter of ASCII in lower case; other characters as they are.
pub open spec fn lower(c: char) -> char {
    if 0x41 <= c as u32 <= 0x5A {
        (c as u32 + 32) as char
    } else {
        c
    }
}

/// The two texts are the same but for the case of ASCII letters.
pub open spec fn same_ignoring_case(a: Seq<char>, b: Seq<char>) -> bool {
    a.len() == b.len() && forall|i: int| 0 <= i < a.len() ==> lower(a[i]) == lower(#[trigger] b[i])
}

fn lower_of(c: char) -> (r: char)
    ensures
        r == lower(c),
{
    let v: u32 = c as u32;
    if 0x41 <= v && v <= 0x5A {
        (v + 32) as u8 as char
    } else {
        c
    }
}

/// Whether two texts are the same but for the case of ASCII letters.
pub fn eq_ignoring_case(a: &str, b: &str) -> (r: bool)
    ensures
        r == same_ignoring_case(a@, b@),
{
    let x: Vec<char> = chars_of(a);
    let y: Vec<char> = chars_of(b);
    if x.len() != y.len() {
        return false;
    }
    let mut i: usize = 0;
    while i < x.len()
        invariant
            x@ == a@,
            y@ == b@,
            x@.len() == y@.len(),
            i <= x@.len(),
            forall|j: int| 0 <= j < i ==> lower(a@[j]) == lower(#[trigger] b@[j]),
        decreases x@.len() - i,
    {
        if lower_of(x[i]) != lower_of(y[i]) {
            assert(lower(a@[i as int]) != lower(b@[i as int]));
            return false;
        }
        i = i + 1;
    }
    true
}

/// Whether two runs of characters are the same.
pub fn same_chars(a: &[char], b: &[char]) -> (r: bool)
    ensures
        r == (a@ == b@),
{
    if a.len() != b.len() {
        return false;
    }
    let mut i: usize = 0;
    while i < a.len()
        invariant
            a@.len() == b@.len(),
            i <= a@.len(),
            forall|j: int| 0 <= j < i ==> a@[j] == b@[j],
        decreases a@.len() - i,
    {
        if a[i] != b[i] {
            return false;
        }
        i = i + 1;
    }
    assert(a@ =~= b@);
    true
}

/// Whether a text is this one.
pub fn is_text(a: &str, b: &str) -> (r: bool)
    ensures
        r == (a@ == b@),
{
    same_chars(&chars_of(a), &chars_of(b))
}

// ---------------------------------------------------------------------------------------------
// Trimming
// ---------------------------------------------------------------------------------------------

/// A text without the white space before it.
pub open spec fn trim_start(s: Seq<char>) -> Seq<char>
    decreases s.len(),
{
    if s.len() > 0 && is_space(s[0]) {
        trim_start(s.drop_first())
    } else {
        s
    }
}

/// A text without the white space after it.
pub open spec fn trim_end(s: Seq<char>) -> Seq<char>
    decreases s.len(),
{
    if s.len() > 0 && is_space(s.last()) {
        trim_end(s.drop_last())
    } else {
        s
    }
}

/// A text without the white space around it.
pub open spec fn trim(s: Seq<char>) -> Seq<char> {
    trim_end(trim_start(s))
}

/// A text without the white space around it.
pub fn trimmed(s: &[char]) -> (r: &[char])
    ensures
        r@ == trim(s@),
{
    let n: usize = s.len();
    assert(s@.subrange(0, n as int) =~= s@);
    let mut a: usize = 0;
    while a < n && space(s[a])
        invariant
            a <= n == s@.len(),
            trim_start(s@) == trim_start(s@.subrange(a as int, n as int)),
        decreases n - a,
    {
        assert(s@.subrange(a as int, n as int).drop_first() =~= s@.subrange(a + 1, n as int));
        a = a + 1;
    }
    let ghost rest = s@.subrange(a as int, n as int);
    assert(trim_start(s@) == rest);
    let mut b: usize = n;
    while b > a && space(s[b - 1])
        invariant
            a <= b <= n == s@.len(),
            trim(s@) == trim_end(s@.subrange(a as int, b as int)),
        decreases b,
    {
        assert(s@.subrange(a as int, b as int).drop_last() =~= s@.subrange(a as int, b - 1));
        b = b - 1;
    }
    vstd::slice::slice_subrange(s, a, b)
}

// ---------------------------------------------------------------------------------------------
// Searching
// ---------------------------------------------------------------------------------------------

/// Where a character first occurs, from `i` on.
pub open spec fn index_from(s: Seq<char>, c: char, i: int) -> Option<int>
    decreases s.len() - i,
{
    if i >= s.len() {
        None
    } else if s[i] == c {
        Some(i)
    } else {
        index_from(s, c, i + 1)
    }
}

/// Where a character last occurs among the first `n`.
pub open spec fn last_index(s: Seq<char>, c: char, n: nat) -> Option<int>
    decreases n,
{
    if n == 0 {
        None
    } else if s[n - 1] == c {
        Some(n - 1)
    } else {
        last_index(s, c, (n - 1) as nat)
    }
}

/// Where a character first occurs.
pub fn find_char(s: &[char], c: char) -> (r: Option<usize>)
    ensures
        match r {
            Some(k) => k < s@.len() && s@[k as int] == c && index_from(s@, c, 0) == Some(k as int),
            None => index_from(s@, c, 0) is None,
        },
{
    let mut i: usize = 0;
    while i < s.len()
        invariant
            i <= s@.len(),
            index_from(s@, c, 0) == index_from(s@, c, i as int),
        decreases s@.len() - i,
    {
        if s[i] == c {
            return Some(i);
        }
        i = i + 1;
    }
    None
}

/// Where a character last occurs.
pub fn rfind_char(s: &[char], c: char) -> (r: Option<usize>)
    ensures
        match r {
            Some(k) => k < s@.len() && s@[k as int] == c && last_index(s@, c, s@.len()) == Some(
                k as int,
            ),
            None => last_index(s@, c, s@.len()) is None,
        },
{
    let mut n: usize = s.len();
    while n > 0
        invariant
            n <= s@.len(),
            last_index(s@, c, s@.len()) == last_index(s@, c, n as nat),
        decreases n,
    {
        if s[n - 1] == c {
            return Some(n - 1);
        }
        n = n - 1;
    }
    None
}

/// The text has this one at `at`.
pub open spec fn has_at(s: Seq<char>, p: Seq<char>, at: int) -> bool {
    at + p.len() <= s.len() && s.subrange(at, at + p.len()) == p
}

/// Where a text first occurs in another, from `i` on.
pub open spec fn text_from(s: Seq<char>, p: Seq<char>, i: int) -> Option<int>
    decreases s.len() - i,
{
    if i + p.len() > s.len() {
        None
    } else if has_at(s, p, i) {
        Some(i)
    } else if i >= s.len() {
        None
    } else {
        text_from(s, p, i + 1)
    }
}

/// Whether a text has another at `at`.
pub fn is_at(s: &[char], p: &[char], at: usize) -> (r: bool)
    requires
        at <= s@.len(),
    ensures
        r == has_at(s@, p@, at as int),
{
    if p.len() > s.len() - at {
        return false;
    }
    let part = vstd::slice::slice_subrange(s, at, at + p.len());
    same_chars(part, p)
}

/// Whether a text starts with another.
pub fn starts_with(s: &[char], p: &str) -> (r: bool)
    ensures
        r == has_at(s@, p@, 0),
{
    is_at(s, &chars_of(p), 0)
}

/// Where a text first occurs in another.
pub fn find_text(s: &[char], p: &str) -> (r: Option<usize>)
    ensures
        match r {
            Some(k) => text_from(s@, p@, 0) == Some(k as int) && k + p@.len() <= s@.len(),
            None => text_from(s@, p@, 0) is None,
        },
{
    let q: Vec<char> = chars_of(p);
    let mut i: usize = 0;
    loop
        invariant
            q@ == p@,
            i <= s@.len(),
            text_from(s@, p@, 0) == text_from(s@, p@, i as int),
        decreases s@.len() - i,
    {
        if q.len() > s.len() - i {
            return None;
        }
        if is_at(s, &q, i) {
            return Some(i);
        }
        if i >= s.len() {
            return None;
        }
        i = i + 1;
    }
}

/// A search finds the first place where the text is, and fails only where it is nowhere.
pub proof fn law_text_is_found(s: Seq<char>, p: Seq<char>, i: int, k: int)
    requires
        0 <= i <= k,
        has_at(s, p, k),
    ensures
        text_from(s, p, i) matches Some(j) && i <= j <= k && has_at(s, p, j),
    decreases k - i,
{
    if i < k && !has_at(s, p, i) {
        law_text_is_found(s, p, i + 1, k);
    }
}

/// The characters of `s` from `from` up to `to`.
pub fn part(s: &[char], from: usize, to: usize) -> (r: &[char])
    requires
        from <= to <= s@.len(),
    ensures
        r@ == s@.subrange(from as int, to as int),
{
    vstd::slice::slice_subrange(s, from, to)
}

/// Whether a run of characters is this text.
pub fn equals(s: &[char], p: &str) -> (r: bool)
    ensures
        r == (s@ == p@),
{
    same_chars(s, &chars_of(p))
}

// ---------------------------------------------------------------------------------------------
// Numbers
// ---------------------------------------------------------------------------------------------

/// Every character is a decimal digit.
pub open spec fn all_digits(s: Seq<char>) -> bool {
    forall|i: int| 0 <= i < s.len() ==> is_digit(#[trigger] s[i])
}

/// The number that decimal digits stand for.
pub open spec fn value(s: Seq<char>) -> nat
    decreases s.len(),
{
    if s.len() == 0 {
        0
    } else {
        value(s.drop_last()) * 10 + (s.last() as u32 - 0x30) as nat
    }
}

/// The natural number, at most `max`, that digits stand for.
pub open spec fn digits_within(s: Seq<char>, max: nat) -> Option<nat> {
    if s.len() > 0 && all_digits(s) && value(s) <= max {
        Some(value(s))
    } else {
        None
    }
}

/// A natural number, at most `max`, in decimal; a plus sign may stand before it.
pub open spec fn unsigned_of(s: Seq<char>, max: nat) -> Option<nat> {
    if s.len() > 0 && s[0] == '+' {
        digits_within(s.drop_first(), max)
    } else {
        digits_within(s, max)
    }
}

/// A number between `-max - 1` and `max`, in decimal; a sign may stand before it.
pub open spec fn signed_of(s: Seq<char>, max: nat) -> Option<int> {
    if s.len() > 0 && s[0] == '-' {
        match digits_within(s.drop_first(), max + 1) {
            Some(n) => Some(-(n as int)),
            None => None,
        }
    } else {
        match unsigned_of(s, max) {
            Some(n) => Some(n as int),
            None => None,
        }
    }
}

proof fn lemma_value_grows(s: Seq<char>, n: int)
    requires
        0 <= n <= s.len(),
    ensures
        value(s.subrange(0, n)) <= value(s),
    decreases s.len() - n,
{
    if n == s.len() {
        assert(s.subrange(0, n) =~= s);
    } else {
        assert(s.subrange(0, n + 1).drop_last() =~= s.subrange(0, n));
        lemma_value_grows(s, n + 1);
    }
}

/// Reads decimal digits as a number of at most `max`.
fn read_digits(s: &[char], max: u64) -> (r: Option<u64>)
    requires
        max <= 0x1_0000_0000,
    ensures
        match r {
            Some(n) => digits_within(s@, max as nat) == Some(n as nat),
            None => digits_within(s@, max as nat) is None,
        },
{
    if s.len() == 0 {
        return None;
    }
    let mut n: u64 = 0;
    let mut i: usize = 0;
    while i < s.len()
        invariant
            i <= s@.len(),
            max <= 0x1_0000_0000,
            n <= max,
            n == value(s@.subrange(0, i as int)),
            forall|j: int| 0 <= j < i ==> is_digit(#[trigger] s@[j]),
        decreases s@.len() - i,
    {
        if !ascii_digit(s[i]) {
            assert(!is_digit(s@[i as int]));
            return None;
        }
        let d: u64 = (s[i] as u32 - 0x30) as u64;
        n = n * 10 + d;
        proof {
            assert(s@.subrange(0, i + 1).drop_last() =~= s@.subrange(0, i as int));
            lemma_value_grows(s@, i + 1);
        }
        if n > max {
            return None;
        }
        i = i + 1;
    }
    assert(s@.subrange(0, i as int) =~= s@);
    Some(n)
}

/// Reads a natural number of at most `max`.
pub fn parse_unsigned(s: &[char], max: u32) -> (r: Option<u32>)
    ensures
        match r {
            Some(n) => unsigned_of(s@, max as nat) == Some(n as nat) && n <= max,
            None => unsigned_of(s@, max as nat) is None,
        },
{
    let digits: &[char] = if s.len() > 0 && s[0] == '+' {
        let rest = part(s, 1, s.len());
        assert(rest@ =~= s@.drop_first());
        rest
    } else {
        s
    };
    match read_digits(digits, max as u64) {
        Some(n) => Some(n as u32),
        None => None,
    }
}

/// Reads a number that fits sixteen bits with a sign.
pub fn parse_i16(s: &[char]) -> (r: Option<i16>)
    ensures
        match r {
            Some(n) => signed_of(s@, 32767) == Some(n as int),
            None => signed_of(s@, 32767) is None,
        },
{
    if s.len() > 0 && s[0] == '-' {
        let rest = part(s, 1, s.len());
        assert(rest@ =~= s@.drop_first());
        match read_digits(rest, 32768) {
            Some(n) => Some((-(n as i64)) as i16),
            None => None,
        }
    } else {
        match parse_unsigned(s, 32767) {
            Some(n) => Some(n as i16),
            None => None,
        }
    }
}

// ---------------------------------------------------------------------------------------------
// Lines
// ---------------------------------------------------------------------------------------------

/// A line without the carriage return before its line feed.
pub open spec fn without_return(s: Seq<char>) -> Seq<char> {
    if s.len() > 0 && s.last() == '\r' {
        s.drop_last()
    } else {
        s
    }
}

/// The lines of a text, without what ends them. A line feed at the end of the text starts no
/// further line.
pub open spec fn lines_of(s: Seq<char>) -> Seq<Seq<char>>
    decreases s.len(),
    via lines_of_ends
{
    if s.len() == 0 {
        Seq::empty()
    } else {
        match index_from(s, '\n', 0) {
            Some(k) => seq![without_return(s.subrange(0, k))] + lines_of(
                s.subrange(k + 1, s.len() as int),
            ),
            None => seq![s],
        }
    }
}

#[via_fn]
proof fn lines_of_ends(s: Seq<char>) {
    lemma_index(s, '\n', 0);
}

/// What a search for a character finds.
pub proof fn lemma_index(s: Seq<char>, c: char, i: int)
    requires
        0 <= i,
    ensures
        match index_from(s, c, i) {
            Some(k) => i <= k < s.len() && s[k] == c && forall|j: int|
                i <= j < k ==> s[j] != c,
            None => forall|j: int| i <= j < s.len() ==> s[j] != c,
        },
    decreases s.len() - i,
{
    if i < s.len() && s[i] != c {
        lemma_index(s, c, i + 1);
    }
}

/// The texts of a list.
pub open spec fn texts(v: Seq<Vec<char>>) -> Seq<Seq<char>> {
    Seq::new(v.len(), |i: int| v[i]@)
}

fn copy_chars(s: &[char]) -> (r: Vec<char>)
    ensures
        r@ == s@,
{
    vstd::slice::slice_to_vec(s)
}

/// The lines of a text, without what ends them.
pub fn lines(s: &[char]) -> (r: Vec<Vec<char>>)
    ensures
        texts(r@) == lines_of(s@),
{
    let mut out: Vec<Vec<char>> = Vec::new();
    let mut at: usize = 0;
    assert(s@.subrange(0, s@.len() as int) =~= s@);
    assert(texts(out@) + lines_of(s@) =~= lines_of(s@));
    while at < s.len()
        invariant
            at <= s@.len(),
            texts(out@) + lines_of(s@.subrange(at as int, s@.len() as int)) == lines_of(s@),
        decreases s@.len() - at,
    {
        let ghost had = texts(out@);
        let rest: &[char] = part(s, at, s.len());
        match find_char(rest, '\n') {
            Some(k) => {
                let end: usize = if k > 0 && rest[k - 1] == '\r' {
                    k - 1
                } else {
                    k
                };
                let line: Vec<char> = copy_chars(part(rest, 0, end));
                proof {
                    let whole = rest@.subrange(0, k as int);
                    assert(line@ =~= without_return(whole));
                    assert(rest@.subrange(k + 1, rest@.len() as int) =~= s@.subrange(
                        at + k + 1,
                        s@.len() as int,
                    ));
                }
                let ghost text = line@;
                out.push(line);
                at = at + k + 1;
                proof {
                    let tail = lines_of(s@.subrange(at as int, s@.len() as int));
                    assert(texts(out@) =~= had.push(text));
                    assert(had.push(text) + tail =~= had + (seq![text] + tail));
                }
            },
            None => {
                let line: Vec<char> = copy_chars(rest);
                let ghost text = line@;
                out.push(line);
                at = s.len();
                proof {
                    assert(texts(out@) =~= had + seq![text]);
                    assert(s@.subrange(at as int, s@.len() as int) =~= Seq::<char>::empty());
                    assert(texts(out@) + Seq::<Seq<char>>::empty() =~= texts(out@));
                }
            },
        }
    }
    assert(s@.subrange(at as int, s@.len() as int) =~= Seq::<char>::empty());
    assert(texts(out@) + Seq::<Seq<char>>::empty() =~= texts(out@));
    out
}

// ---------------------------------------------------------------------------------------------
// What is printed is read back
// ---------------------------------------------------------------------------------------------

/// A number in decimal is read back as the number.
pub proof fn law_printed_numbers_are_read_back(n: nat, max: nat)
    requires
        n <= max,
    ensures
        unsigned_of(dec(n), max) == Some(n),
{
    lemma_dec(n);
    assert(dec(n)[0] != '+');
}

proof fn lemma_dec(n: nat)
    ensures
        dec(n).len() > 0,
        all_digits(dec(n)),
        value(dec(n)) == n,
    decreases n,
{
    if n < 10 {
        let s = dec(n);
        assert(s.drop_last() =~= Seq::<char>::empty());
        assert(value(s.drop_last()) == 0);
    } else {
        lemma_dec(n / 10);
        let s = dec(n);
        assert(s.drop_last() =~= dec(n / 10));
        assert forall|i: int| 0 <= i < s.len() implies is_digit(#[trigger] s[i]) by {
            if i < s.len() - 1 {
                assert(s[i] == dec(n / 10)[i]);
            }
        }
    }
}

// ---------------------------------------------------------------------------------------------
// Text as bytes
// ---------------------------------------------------------------------------------------------

/// How many bytes of UTF-8 a text takes.
pub open spec fn width(s: Seq<char>) -> nat {
    utf8::encode_utf8(s).len()
}

/// As much of a text, from its start, as fits into so many bytes of UTF-8.
pub open spec fn within_bytes(s: Seq<char>, n: nat) -> Seq<char>
    decreases s.len(),
{
    if s.len() == 0 || width(s) <= n {
        s
    } else {
        within_bytes(s.drop_last(), n)
    }
}

proof fn lemma_width_push(s: Seq<char>, c: char)
    ensures
        width(s.push(c)) == width(s) + utf8::encode_scalar(c as u32).len(),
    decreases s.len(),
{
    let t = s.push(c);
    if s.len() == 0 {
        assert(t.drop_first() =~= s);
        assert(width(s) == 0);
    } else {
        lemma_width_push(s.drop_first(), c);
        assert(t.drop_first() =~= s.drop_first().push(c));
    }
}

proof fn lemma_width_grows(s: Seq<char>, i: int)
    requires
        0 <= i <= s.len(),
    ensures
        width(s.subrange(0, i)) <= width(s),
    decreases s.len() - i,
{
    if i < s.len() {
        lemma_width_grows(s, i + 1);
        assert(s.subrange(0, i + 1) =~= s.subrange(0, i).push(s[i]));
        lemma_width_push(s.subrange(0, i), s[i]);
    } else {
        assert(s.subrange(0, i) =~= s);
    }
}

/// What fits is all up to the first character that does not.
proof fn lemma_within_bytes(s: Seq<char>, n: nat, k: int)
    requires
        0 <= k <= s.len(),
        width(s.subrange(0, k)) <= n,
        k < s.len() ==> width(s.subrange(0, k + 1)) > n,
    ensures
        within_bytes(s, n) == s.subrange(0, k),
    decreases s.len(),
{
    if k == s.len() {
        assert(s.subrange(0, k) =~= s);
    } else {
        lemma_width_grows(s, k + 1);
        let t = s.drop_last();
        assert(t.subrange(0, k) =~= s.subrange(0, k));
        if k < t.len() {
            assert(t.subrange(0, k + 1) =~= s.subrange(0, k + 1));
        }
        lemma_within_bytes(t, n, k);
    }
}

/// What fits into so many bytes takes no more of them, and is a part of the text.
pub proof fn lemma_within_bytes_fits(s: Seq<char>, n: nat)
    ensures
        width(within_bytes(s, n)) <= n,
        within_bytes(s, n).is_prefix_of(s),
    decreases s.len(),
{
    if s.len() > 0 && width(s) > n {
        lemma_within_bytes_fits(s.drop_last(), n);
    }
}

/// How many bytes of UTF-8 a character takes.
fn width_of(c: char) -> (r: usize)
    ensures
        r == utf8::encode_scalar(c as u32).len(),
        1 <= r <= 4,
{
    let v: u32 = c as u32;
    if v < 0x80 {
        1
    } else if v < 0x800 {
        2
    } else if v < 0x10000 {
        3
    } else {
        4
    }
}

/// As much of a text, from its start, as fits into so many bytes of UTF-8.
pub fn fitting(cs: &[char], n: usize) -> (r: &[char])
    ensures
        r@ == within_bytes(cs@, n as nat),
{
    let mut k: usize = 0;
    let mut used: usize = 0;
    assert(width(cs@.subrange(0, 0)) == 0);
    while k < cs.len()
        invariant
            k <= cs@.len(),
            used == width(cs@.subrange(0, k as int)),
            used <= n,
        decreases cs@.len() - k,
    {
        let w: usize = width_of(cs[k]);
        proof {
            lemma_width_push(cs@.subrange(0, k as int), cs@[k as int]);
            assert(cs@.subrange(0, k + 1) =~= cs@.subrange(0, k as int).push(cs@[k as int]));
        }
        if w > n - used {
            proof {
                lemma_within_bytes(cs@, n as nat, k as int);
            }
            return part(cs, 0, k);
        }
        used = used + w;
        k = k + 1;
    }
    proof {
        lemma_within_bytes(cs@, n as nat, k as int);
    }
    part(cs, 0, k)
}

} // verus!
