//! Proved properties of the normalizer: the normalized content region is
//! single-spaced, and normalizing is idempotent.

use vstd::prelude::*;
use crate::chars::is_white;
use crate::normalize::{
    has_visible, normalized_text, normalized_tail, lemma_has_visible_drop,
};

verus! {

/// Every whitespace character of `t` is a single space standing strictly
/// between two non-whitespace characters.
pub open spec fn single_spaced(t: Seq<char>) -> bool {
    forall|i: int|
        #![trigger t[i]]
        0 <= i < t.len() && is_white(t[i]) ==> (t[i] == ' ' && 0 < i && i + 1 < t.len()
            && !is_white(t[i - 1]) && !is_white(t[i + 1]))
}

/// Like `single_spaced`, but a space may stand first: the shape of a
/// normalized tail, whose preceding character was visible.
spec fn tail_spaced(t: Seq<char>) -> bool {
    forall|i: int|
        #![trigger t[i]]
        0 <= i < t.len() && is_white(t[i]) ==> (t[i] == ' ' && i + 1 < t.len()
            && !is_white(t[i + 1]) && (0 < i ==> !is_white(t[i - 1])))
}

proof fn lemma_text_shape(s: Seq<char>)
    ensures
        single_spaced(normalized_text(s)),
        normalized_text(s).len() > 0 <==> has_visible(s),
        normalized_text(s).len() > 0 ==> !is_white(normalized_text(s).first()) && !is_white(
            normalized_text(s).last(),
        ),
    decreases s.len(),
{
    if s.len() == 0 {
    } else if is_white(s[0]) {
        lemma_text_shape(s.drop_first());
        lemma_has_visible_drop(s);
    } else {
        let d = s.drop_first();
        let t = normalized_text(s);
        let td = normalized_tail(d);
        lemma_tail_shape(d);
        assert(t == seq![s[0]] + td);
        assert(t[0] == s[0]);
        assert(has_visible(s)) by {
            assert(!is_white(s[0]));
        }
        assert forall|i: int| 0 <= i < t.len() && is_white(#[trigger] t[i]) implies (t[i] == ' '
            && 0 < i && i + 1 < t.len() && !is_white(t[i - 1]) && !is_white(t[i + 1])) by {
            assert(i >= 1);
            assert(t[i] == td[i - 1]);
            assert(td[i - 1] == ' ' && i < td.len() && !is_white(td[i]));
            if i >= 2 {
                assert(t[i - 1] == td[i - 2]);
            }
        }
        if td.len() > 0 {
            assert(t.last() == td.last());
        } else {
            assert(t.last() == s[0]);
        }
    }
}

proof fn lemma_tail_shape(s: Seq<char>)
    ensures
        tail_spaced(normalized_tail(s)),
        normalized_tail(s).len() > 0 <==> has_visible(s),
        normalized_tail(s).len() > 0 ==> !is_white(normalized_tail(s).last()),
    decreases s.len(),
{
    if s.len() == 0 {
    } else if !is_white(s[0]) {
        let d = s.drop_first();
        let t = normalized_tail(s);
        let td = normalized_tail(d);
        lemma_tail_shape(d);
        assert(t == seq![s[0]] + td);
        assert(t[0] == s[0]);
        assert(has_visible(s)) by {
            assert(!is_white(s[0]));
        }
        assert forall|i: int| 0 <= i < t.len() && is_white(#[trigger] t[i]) implies (t[i] == ' '
            && i + 1 < t.len() && !is_white(t[i + 1]) && (0 < i ==> !is_white(t[i - 1]))) by {
            assert(i >= 1);
            assert(t[i] == td[i - 1]);
            assert(td[i - 1] == ' ' && i < td.len() && !is_white(td[i]));
            if i >= 2 {
                assert(t[i - 1] == td[i - 2]);
            }
        }
        if td.len() > 0 {
            assert(t.last() == td.last());
        } else {
            assert(t.last() == s[0]);
        }
    } else {
        let d = s.drop_first();
        lemma_has_visible_drop(s);
        if has_visible(d) {
            let t = normalized_tail(s);
            let tt = normalized_text(d);
            lemma_text_shape(d);
            assert(t == seq![' '] + tt);
            assert(tt.len() > 0);
            assert(t[0] == ' ');
            assert(t[1] == tt[0]);
            assert forall|i: int| 0 <= i < t.len() && is_white(#[trigger] t[i]) implies (t[i]
                == ' ' && i + 1 < t.len() && !is_white(t[i + 1]) && (0 < i ==> !is_white(
                t[i - 1],
            ))) by {
                if i >= 1 {
                    assert(t[i] == tt[i - 1]);
                    assert(tt[i - 1] == ' ' && 0 < i - 1 && i < tt.len() && !is_white(tt[i - 2])
                        && !is_white(tt[i]));
                    assert(t[i - 1] == tt[i - 2]);
                    assert(t[i + 1] == tt[i]);
                } else {
                    assert(!is_white(tt[0]));
                }
            }
            assert(t.last() == tt.last());
        }
    }
}

proof fn lemma_text_fixpoint(t: Seq<char>)
    requires
        single_spaced(t),
    ensures
        normalized_text(t) == t,
    decreases t.len(),
{
    if t.len() == 0 {
    } else {
        assert(!is_white(t[0]));
        let d = t.drop_first();
        assert(tail_spaced(d)) by {
            assert forall|j: int| 0 <= j < d.len() && is_white(#[trigger] d[j]) implies (d[j]
                == ' ' && j + 1 < d.len() && !is_white(d[j + 1]) && (0 < j ==> !is_white(
                d[j - 1],
            ))) by {
                assert(d[j] == t[j + 1]);
                assert(t[j + 1] == ' ' && 0 < j + 1 && j + 2 < t.len() && !is_white(t[j])
                    && !is_white(t[j + 2]));
                assert(d[j + 1] == t[j + 2]);
                if 0 < j {
                    assert(d[j - 1] == t[j]);
                }
            }
        }
        lemma_tail_fixpoint(d);
        assert(normalized_text(t) == seq![t[0]] + d);
        assert(seq![t[0]] + d =~= t);
    }
}

proof fn lemma_tail_fixpoint(t: Seq<char>)
    requires
        tail_spaced(t),
    ensures
        normalized_tail(t) == t,
    decreases t.len(),
{
    if t.len() == 0 {
    } else if !is_white(t[0]) {
        let d = t.drop_first();
        assert(tail_spaced(d)) by {
            assert forall|j: int| 0 <= j < d.len() && is_white(#[trigger] d[j]) implies (d[j]
                == ' ' && j + 1 < d.len() && !is_white(d[j + 1]) && (0 < j ==> !is_white(
                d[j - 1],
            ))) by {
                assert(d[j] == t[j + 1]);
                assert(d[j + 1] == t[j + 2]);
                if 0 < j {
                    assert(d[j - 1] == t[j]);
                }
            }
        }
        lemma_tail_fixpoint(d);
        assert(normalized_tail(t) == seq![t[0]] + d);
        assert(seq![t[0]] + d =~= t);
    } else {
        assert(t[0] == ' ' && 1 < t.len() && !is_white(t[1]));
        let d = t.drop_first();
        assert(d[0] == t[1]);
        assert(has_visible(d)) by {
            assert(!is_white(d[0]));
        }
        assert(single_spaced(d)) by {
            assert forall|j: int| 0 <= j < d.len() && is_white(#[trigger] d[j]) implies (d[j]
                == ' ' && 0 < j && j + 1 < d.len() && !is_white(d[j - 1]) && !is_white(
                d[j + 1],
            )) by {
                assert(d[j] == t[j + 1]);
                assert(j != 0);
                assert(d[j - 1] == t[j]);
                assert(d[j + 1] == t[j + 2]);
            }
        }
        lemma_text_fixpoint(d);
        assert(normalized_tail(t) == seq![' '] + d);
        assert(seq![' '] + d =~= t);
    }
}

/// The normalized content region is single-spaced: every whitespace
/// character in it is one space standing between visible characters, so
/// it holds no newline and no run of two or more whitespace characters,
/// and neither starts nor ends with whitespace.
pub proof fn lemma_normalized_single_spaced(s: Seq<char>)
    ensures
        single_spaced(normalized_text(s)),
        forall|i: int| 0 <= i < normalized_text(s).len() ==> #[trigger] normalized_text(s)[i]
            != '\n',
        forall|i: int|
            0 <= i && i + 1 < normalized_text(s).len() ==> !(is_white(
                #[trigger] normalized_text(s)[i],
            ) && is_white(normalized_text(s)[i + 1])),
        normalized_text(s).len() > 0 ==> !is_white(normalized_text(s).first()) && !is_white(
            normalized_text(s).last(),
        ),
{
    lemma_text_shape(s);
    let t = normalized_text(s);
    assert forall|i: int| 0 <= i < t.len() implies #[trigger] t[i] != '\n' by {
        if is_white(t[i]) {
            assert(t[i] == ' ');
        } else {
            assert(!is_white(t[i]));
        }
    }
    assert forall|i: int|
        0 <= i && i + 1 < t.len() implies !(is_white(#[trigger] t[i]) && is_white(
        t[i + 1],
    )) by {
        if is_white(t[i]) {
            assert(!is_white(t[i + 1]));
        }
    }
}

/// Normalizing is idempotent: the normalized form of an already
/// normalized content region is that region itself.
pub proof fn lemma_normalize_idempotent(s: Seq<char>)
    ensures
        normalized_text(normalized_text(s)) == normalized_text(s),
{
    lemma_text_shape(s);
    lemma_text_fixpoint(normalized_text(s));
}

} // verus!
