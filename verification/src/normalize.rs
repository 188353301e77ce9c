//! Whitespace normalization of extracted text: every maximal run of
//! whitespace between visible characters becomes a single space, and
//! leading and trailing whitespace is removed.

use vstd::prelude::*;
use crate::chars::{is_white, is_white_char, chars_of, string_from_chars};

verus! {

/// Does `s` contain at least one non-whitespace character?
pub open spec fn has_visible(s: Seq<char>) -> bool {
    exists|i: int| 0 <= i < s.len() && !is_white(s[i])
}

/// The normalized form of `s`: its maximal runs of non-whitespace
/// characters, in order, joined by single spaces.  `normalized_text`
/// reads `s` before the first visible character; `normalized_tail`
/// reads it once a visible character has been emitted.
pub open spec fn normalized_text(s: Seq<char>) -> Seq<char>
    decreases s.len(),
{
    if s.len() == 0 {
        Seq::empty()
    } else if is_white(s[0]) {
        normalized_text(s.drop_first())
    } else {
        seq![s[0]] + normalized_tail(s.drop_first())
    }
}

/// The normalized form of the rest of the input, when the character just
/// before `s` was visible and has been emitted.
pub open spec fn normalized_tail(s: Seq<char>) -> Seq<char>
    decreases s.len(),
{
    if s.len() == 0 {
        Seq::empty()
    } else if !is_white(s[0]) {
        seq![s[0]] + normalized_tail(s.drop_first())
    } else if has_visible(s.drop_first()) {
        seq![' '] + normalized_text(s.drop_first())
    } else {
        Seq::empty()
    }
}

/// The normalized form of the rest of the input, when a visible character
/// has been emitted and whitespace has been seen since: a separating space
/// is owed if any visible character remains.
pub open spec fn normalized_pending(s: Seq<char>) -> Seq<char> {
    if has_visible(s) {
        seq![' '] + normalized_text(s)
    } else {
        Seq::empty()
    }
}

/// What the normalizer still has to emit for the unread suffix `s`, given
/// its state: `started` records that a visible character has been emitted,
/// `pending` that whitespace has been seen since the last visible one.
pub open spec fn normalized_rest(s: Seq<char>, started: bool, pending: bool) -> Seq<char> {
    if !started {
        normalized_text(s)
    } else if pending {
        normalized_pending(s)
    } else {
        normalized_tail(s)
    }
}

/// Dropping a leading whitespace character does not change whether a
/// visible character remains.
pub(crate) proof fn lemma_has_visible_drop(s: Seq<char>)
    requires
        s.len() > 0,
        is_white(s[0]),
    ensures
        has_visible(s) == has_visible(s.drop_first()),
{
    if has_visible(s) {
        let i = choose|i: int| 0 <= i < s.len() && !is_white(s[i]);
        assert(!is_white(s.drop_first()[i - 1]));
    }
    if has_visible(s.drop_first()) {
        let i = choose|i: int| 0 <= i < s.drop_first().len() && !is_white(s.drop_first()[i]);
        assert(!is_white(s[i + 1]));
    }
}

/// What one step of the normalizer emits for the character `c`.
pub open spec fn emitted(c: char, separate: bool) -> Seq<char> {
    if separate {
        seq![' ', c]
    } else {
        seq![c]
    }
}

/// How `normalized_rest` evolves when the normalizer reads one character.
proof fn lemma_step(s: Seq<char>, started: bool, pending: bool)
    requires
        s.len() > 0,
        pending ==> started,
    ensures
        is_white(s[0]) ==> normalized_rest(s, started, pending) == normalized_rest(
            s.drop_first(),
            started,
            started,
        ),
        !is_white(s[0]) ==> normalized_rest(s, started, pending) == emitted(
            s[0],
            started && pending,
        ) + normalized_rest(s.drop_first(), true, false),
{
    let d = s.drop_first();
    if is_white(s[0]) {
        lemma_has_visible_drop(s);
        if !started {
            assert(normalized_text(s) == normalized_text(d));
        } else if pending {
            assert(normalized_text(s) == normalized_text(d));
        } else {
            assert(normalized_tail(s) == normalized_pending(d));
        }
    } else {
        assert(has_visible(s));
        if !started {
            assert(normalized_text(s) == seq![s[0]] + normalized_tail(d));
            assert(emitted(s[0], false) + normalized_tail(d) =~= seq![s[0]] + normalized_tail(d));
        } else if pending {
            assert(normalized_pending(s) == seq![' '] + normalized_text(s));
            assert(seq![' '] + (seq![s[0]] + normalized_tail(d)) =~= emitted(s[0], true)
                + normalized_tail(d));
        } else {
            assert(normalized_tail(s) == seq![s[0]] + normalized_tail(d));
            assert(emitted(s[0], false) + normalized_tail(d) =~= seq![s[0]] + normalized_tail(d));
        }
    }
}

/// Normalize a vector of characters: the result is `normalized_text` of
/// the input.
pub fn normalize_chars(input: &Vec<char>) -> (out: Vec<char>)
    ensures
        out@ == normalized_text(input@),
{
    let mut out: Vec<char> = Vec::new();
    let mut started = false;
    let mut pending = false;
    let n = input.len();
    let mut i: usize = 0;
    proof {
        assert(input@.skip(0) =~= input@);
        assert(out@ + normalized_text(input@) =~= normalized_text(input@));
    }
    while i < n
        invariant
            n == input.len(),
            i <= n,
            pending ==> started,
            normalized_text(input@) == out@ + normalized_rest(
                input@.skip(i as int),
                started,
                pending,
            ),
        decreases n - i,
    {
        let ghost s = input@.skip(i as int);
        proof {
            assert(s.len() > 0);
            assert(s[0] == input@[i as int]);
            assert(s.drop_first() =~= input@.skip(i as int + 1));
            lemma_step(s, started, pending);
        }
        let c = input[i];
        if is_white_char(c) {
            pending = started;
        } else {
            let ghost out0 = out@;
            if started && pending {
                out.push(' ');
            }
            out.push(c);
            proof {
                assert(out@ =~= out0 + emitted(c, started && pending));
                assert((out0 + emitted(c, started && pending)) + normalized_rest(
                    s.drop_first(),
                    true,
                    false,
                ) =~= out0 + (emitted(c, started && pending) + normalized_rest(
                    s.drop_first(),
                    true,
                    false,
                )));
            }
            started = true;
            pending = false;
        }
        i = i + 1;
    }
    proof {
        assert(input@.skip(n as int) =~= Seq::<char>::empty());
        assert(normalized_rest(Seq::empty(), started, pending) =~= Seq::<char>::empty());
        assert(out@ + Seq::<char>::empty() =~= out@);
    }
    out
}

/// Normalize the whitespace of `raw_text`: the maximal runs of visible
/// characters, in order, joined by single spaces.
pub fn normalize_whitespace(raw_text: &str) -> (result: String)
    ensures
        result@ == normalized_text(raw_text@),
{
    let cs = chars_of(raw_text);
    let out = normalize_chars(&cs);
    string_from_chars(&out)
}

} // verus!
