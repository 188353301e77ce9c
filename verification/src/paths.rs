//! Derivation of the default output file name from an input path: the
//! input's file stem with a `.txt` extension, placed in the working
//! directory.

use vstd::prelude::*;
use vstd::string::StringExecFns;
use crate::chars::{chars_of, string_from_chars};

verus! {

/// `p` without its trailing slashes.
pub open spec fn strip_trailing_slashes(p: Seq<char>) -> Seq<char>
    decreases p.len(),
{
    if p.len() > 0 && p.last() == '/' {
        strip_trailing_slashes(p.drop_last())
    } else {
        p
    }
}

/// The suffix of `p` after its last slash: its file name component.
pub open spec fn file_name_of(p: Seq<char>) -> Seq<char>
    decreases p.len(),
{
    if p.len() == 0 {
        p
    } else if p.last() == '/' {
        Seq::empty()
    } else {
        file_name_of(p.drop_last()).push(p.last())
    }
}

/// The largest index of a dot in `name` other than the first position,
/// or 0 where there is none: the place at which an extension starts.
pub open spec fn last_dot(name: Seq<char>) -> int
    decreases name.len(),
{
    if name.len() <= 1 {
        0
    } else if name.last() == '.' {
        name.len() - 1
    } else {
        last_dot(name.drop_last())
    }
}

/// The stem of a file name: the part before its extension.  A name with
/// no dot past its first character, such as one that only starts with a
/// dot, is its own stem.
pub open spec fn stem_of(name: Seq<char>) -> Seq<char> {
    if last_dot(name) == 0 {
        name
    } else {
        name.take(last_dot(name))
    }
}

/// The default output name for the input path `p`: the stem of its file
/// name with `.txt` appended.
pub open spec fn default_output_of(p: Seq<char>) -> Seq<char> {
    stem_of(file_name_of(strip_trailing_slashes(p))) + ".txt"@
}

/// Compute the default output file name for an input path: its file
/// stem, in the working directory, with a `.txt` extension.
pub fn default_output_path(input_path: &str) -> (result: String)
    ensures
        result@ == default_output_of(input_path@),
{
    let cs = chars_of(input_path);
    let n = cs.len();

    // Drop trailing slashes.
    let mut end: usize = n;
    proof {
        assert(cs@.take(n as int) =~= cs@);
    }
    while end > 0 && cs[end - 1] == '/'
        invariant
            end <= n,
            n == cs.len(),
            strip_trailing_slashes(cs@) == strip_trailing_slashes(cs@.take(end as int)),
        decreases end,
    {
        proof {
            assert(cs@.take(end as int).drop_last() =~= cs@.take(end as int - 1));
            assert(cs@.take(end as int).last() == cs@[end as int - 1]);
        }
        end = end - 1;
    }
    proof {
        assert(strip_trailing_slashes(cs@.take(end as int)) == cs@.take(end as int));
    }

    // Find where the file name starts: just after the last slash.
    let mut start: usize = 0;
    let mut i: usize = 0;
    proof {
        assert(cs@.take(0) =~= Seq::<char>::empty());
        assert(cs@.subrange(0, 0) =~= Seq::<char>::empty());
    }
    while i < end
        invariant
            start <= i <= end <= n,
            n == cs.len(),
            file_name_of(cs@.take(i as int)) == cs@.subrange(start as int, i as int),
        decreases end - i,
    {
        proof {
            assert(cs@.take(i as int + 1).drop_last() =~= cs@.take(i as int));
            assert(cs@.take(i as int + 1).last() == cs@[i as int]);
        }
        if cs[i] == '/' {
            start = i + 1;
            proof {
                assert(cs@.subrange(start as int, i as int + 1) =~= Seq::<char>::empty());
            }
        } else {
            proof {
                assert(cs@.subrange(start as int, i as int + 1) =~= cs@.subrange(
                    start as int,
                    i as int,
                ).push(cs@[i as int]));
            }
        }
        i = i + 1;
    }

    // Copy the file name out.
    let mut name: Vec<char> = Vec::new();
    let mut j: usize = start;
    proof {
        assert(name@ =~= cs@.subrange(start as int, start as int));
    }
    while j < end
        invariant
            start <= j <= end <= n,
            n == cs.len(),
            name@ == cs@.subrange(start as int, j as int),
        decreases end - j,
    {
        name.push(cs[j]);
        proof {
            assert(cs@.subrange(start as int, j as int).push(cs@[j as int]) =~= cs@.subrange(
                start as int,
                j as int + 1,
            ));
        }
        j = j + 1;
    }
    proof {
        assert(name@ == file_name_of(strip_trailing_slashes(cs@)));
    }

    // Find the start of the extension, if any.
    let m = name.len();
    let mut dot: usize = 0;
    if m > 0 {
        let mut k: usize = 1;
        while k < m
            invariant
                1 <= k <= m,
                m == name.len(),
                dot < k,
                last_dot(name@.take(k as int)) == dot,
            decreases m - k,
        {
            proof {
                assert(name@.take(k as int + 1).drop_last() =~= name@.take(k as int));
                assert(name@.take(k as int + 1).last() == name@[k as int]);
            }
            if name[k] == '.' {
                dot = k;
            }
            k = k + 1;
        }
        proof {
            assert(name@.take(m as int) =~= name@);
        }
    }
    proof {
        assert(last_dot(name@) == dot);
    }

    // Keep the stem and append the new extension.
    let cut = if dot == 0 {
        m
    } else {
        dot
    };
    let mut stem: Vec<char> = Vec::new();
    let mut q: usize = 0;
    proof {
        assert(stem@ =~= name@.take(0));
    }
    while q < cut
        invariant
            q <= cut <= m,
            m == name.len(),
            stem@ == name@.take(q as int),
        decreases cut - q,
    {
        stem.push(name[q]);
        proof {
            assert(name@.take(q as int).push(name@[q as int]) =~= name@.take(q as int + 1));
        }
        q = q + 1;
    }
    proof {
        assert(name@.take(m as int) =~= name@);
        assert(stem@ == stem_of(name@));
    }

    let mut result = string_from_chars(&stem);
    result.append(".txt");
    result
}

} // verus!
