//! Cleaning of text that players and outsiders send.

use crate::text;
use vstd::prelude::*;

verus! {

/// The longest line of chat, in characters.
pub const MAX_CHAT: usize = 199;

/// A text without its control codes.
pub open spec fn printable(s: Seq<char>) -> Seq<char>
    decreases s.len(),
{
    if s.len() == 0 {
        s
    } else {
        let rest = printable(s.drop_last());
        if text::is_control(s.last()) {
            rest
        } else {
            rest.push(s.last())
        }
    }
}

/// The first `n` characters of a text.
pub open spec fn first_chars(s: Seq<char>, n: int) -> Seq<char> {
    if s.len() <= n {
        s
    } else {
        s.subrange(0, n)
    }
}

/// What a line of chat is cleaned to.
pub open spec fn clean(s: Seq<char>) -> Seq<char> {
    text::trim(first_chars(printable(s), 199))
}

proof fn lemma_printable_grows(s: Seq<char>, i: int)
    requires
        0 <= i <= s.len(),
    ensures
        printable(s.subrange(0, i)).len() <= printable(s).len(),
        printable(s.subrange(0, i)).is_prefix_of(printable(s)),
    decreases s.len(),
{
    if i == s.len() {
        assert(s.subrange(0, i) =~= s);
    } else {
        let init = s.drop_last();
        assert(init.subrange(0, i) =~= s.subrange(0, i));
        lemma_printable_grows(init, i);
    }
}

/// The first `n` characters of a text without its control codes.
pub fn clip(said: &str, n: usize) -> (r: Vec<char>)
    ensures
        r@ == first_chars(printable(said@), n as int),
{
    let cs: Vec<char> = text::chars_of(said);
    let mut kept: Vec<char> = Vec::new();
    let mut i: usize = 0;
    while i < cs.len() && kept.len() < n
        invariant
            cs@ == said@,
            i <= cs@.len(),
            kept@.len() <= n,
            kept@ == printable(said@.subrange(0, i as int)),
        decreases cs@.len() - i,
    {
        assert(said@.subrange(0, i + 1).drop_last() =~= said@.subrange(0, i as int));
        if !text::control(cs[i]) {
            kept.push(cs[i]);
        }
        i = i + 1;
    }
    proof {
        lemma_printable_grows(said@, i as int);
        if i == said@.len() {
            assert(said@.subrange(0, i as int) =~= said@);
        }
        assert(kept@ =~= first_chars(printable(said@), n as int));
    }
    kept
}

/// A text without its control codes.
pub fn strip(said: &str) -> (r: Vec<char>)
    ensures
        r@ == printable(said@),
{
    let cs: Vec<char> = text::chars_of(said);
    let mut kept: Vec<char> = Vec::new();
    let mut i: usize = 0;
    while i < cs.len()
        invariant
            cs@ == said@,
            i <= cs@.len(),
            kept@ == printable(said@.subrange(0, i as int)),
        decreases cs@.len() - i,
    {
        assert(said@.subrange(0, i + 1).drop_last() =~= said@.subrange(0, i as int));
        if !text::control(cs[i]) {
            kept.push(cs[i]);
        }
        i = i + 1;
    }
    assert(said@.subrange(0, i as int) =~= said@);
    kept
}

/// Strips anything the game's text renderer cannot show, and bounds the length.
pub fn sanitize_chat(said: &str) -> (r: String)
    ensures
        r@ == clean(said@),
{
    text::string_of(text::trimmed(&clip(said, MAX_CHAT)))
}

/// Nothing that is printable is a control code.
pub proof fn lemma_printable(s: Seq<char>)
    ensures
        forall|i: int| 0 <= i < printable(s).len() ==> !text::is_control(#[trigger] printable(s)[i]),
    decreases s.len(),
{
    if s.len() > 0 {
        lemma_printable(s.drop_last());
        let rest = printable(s.drop_last());
        assert forall|i: int| 0 <= i < printable(s).len() implies !text::is_control(
            #[trigger] printable(s)[i],
        ) by {
            if i < rest.len() {
                assert(printable(s)[i] == rest[i]);
            }
        }
    }
}

proof fn lemma_trim_is_part(s: Seq<char>)
    ensures
        text::trim(s).len() <= s.len(),
        forall|i: int|
            0 <= i < text::trim(s).len() ==> s.contains(#[trigger] text::trim(s)[i]),
        text::trim(s).len() > 0 ==> !text::is_space(text::trim(s)[0]) && !text::is_space(
            text::trim(s).last(),
        ),
{
    lemma_trim_start(s);
    let t = text::trim_start(s);
    lemma_trim_end(t);
    assert forall|i: int| 0 <= i < text::trim(s).len() implies s.contains(
        #[trigger] text::trim(s)[i],
    ) by {
        assert(t[i] == text::trim(s)[i]);
        assert(s.contains(t[i]));
    }
}

proof fn lemma_trim_start(s: Seq<char>)
    ensures
        text::trim_start(s).len() <= s.len(),
        forall|i: int|
            0 <= i < text::trim_start(s).len() ==> s.contains(#[trigger] text::trim_start(s)[i]),
        text::trim_start(s).len() > 0 ==> !text::is_space(text::trim_start(s)[0]),
    decreases s.len(),
{
    if s.len() > 0 && text::is_space(s[0]) {
        let t = s.drop_first();
        lemma_trim_start(t);
        assert forall|i: int| 0 <= i < text::trim_start(s).len() implies s.contains(
            #[trigger] text::trim_start(s)[i],
        ) by {
            let c = text::trim_start(t)[i];
            assert(t.contains(c));
            let j = choose|j: int| 0 <= j < t.len() && t[j] == c;
            assert(s[j + 1] == c);
        }
    } else {
        assert forall|i: int| 0 <= i < text::trim_start(s).len() implies s.contains(
            #[trigger] text::trim_start(s)[i],
        ) by {
            assert(s[i] == text::trim_start(s)[i]);
        }
    }
}

proof fn lemma_trim_end(s: Seq<char>)
    ensures
        text::trim_end(s).is_prefix_of(s),
        text::trim_end(s).len() > 0 ==> !text::is_space(text::trim_end(s).last()),
    decreases s.len(),
{
    if s.len() > 0 && text::is_space(s.last()) {
        lemma_trim_end(s.drop_last());
    }
}

/// A cleaned line has no control codes, is of at most `MAX_CHAT` characters, and neither starts nor
/// ends with white space.
pub proof fn law_clean_chat_is_showable(s: Seq<char>)
    ensures
        clean(s).len() <= MAX_CHAT,
        forall|i: int| 0 <= i < clean(s).len() ==> !text::is_control(#[trigger] clean(s)[i]),
        clean(s).len() > 0 ==> !text::is_space(clean(s)[0]) && !text::is_space(clean(s).last()),
{
    let p = first_chars(printable(s), 199);
    lemma_printable(s);
    lemma_trim_is_part(p);
    assert forall|i: int| 0 <= i < clean(s).len() implies !text::is_control(
        #[trigger] clean(s)[i],
    ) by {
        let c = clean(s)[i];
        assert(p.contains(c));
        let j = choose|j: int| 0 <= j < p.len() && p[j] == c;
        assert(printable(s)[j] == c);
    }
}

} // verus!
