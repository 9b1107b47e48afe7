//! Interpreting the operator's answer to the conflict prompt.  A zero-byte
//! read marks the end of the input stream, which is fatal: the prompt needs
//! a live operator.  Otherwise the answer line is stripped of line breaks
//! exactly the way the prompt loop does it (every line feed goes; a carriage
//! return goes only when a line feed follows), then `p` or an empty answer
//! line picks the partner's value, `m` the master's, `e` a manual edit, and
//! anything else asks again.

use vstd::prelude::*;

verus! {

/// What an answer to the conflict prompt means.
#[derive(Clone, Copy, Debug, PartialEq, Eq, Structural)]
pub enum Choice {
    /// Take the partner's value (the default).
    Partner,
    /// Keep the master's value.
    Master,
    /// Ask for a replacement value.
    Edit,
    /// Not an answer: ask again.
    Invalid,
    /// Nothing was read at all: the input stream is exhausted, which is
    /// fatal — not a default answer.
    EndOfInput,
}

/// The characters of `s` from position `i` on that survive stripping: every
/// line feed is removed, and a carriage return is removed exactly when a
/// line feed follows it.
pub open spec fn spec_strip_newlines_from(s: Seq<char>, i: int) -> Seq<char>
    decreases s.len() - i,
{
    if i < 0 || i >= s.len() {
        Seq::empty()
    } else if s[i] == '\n' {
        spec_strip_newlines_from(s, i + 1)
    } else if s[i] == '\r' && i + 1 < s.len() && s[i + 1] == '\n' {
        spec_strip_newlines_from(s, i + 1)
    } else {
        seq![s[i]] + spec_strip_newlines_from(s, i + 1)
    }
}

/// An answer with its line breaks stripped.
pub open spec fn spec_strip_newlines(s: Seq<char>) -> Seq<char> {
    spec_strip_newlines_from(s, 0)
}

/// What a raw prompt answer means.  A zero-byte read (the empty input, as
/// distinct from an operator's empty line `"\n"`) is the end of the input
/// stream.  Otherwise the stripped answer decides: empty or `p` is the
/// partner's value, `m` the master's, `e` an edit, anything else is invalid.
pub open spec fn spec_choice(input: Seq<char>) -> Choice {
    if input.len() == 0 {
        Choice::EndOfInput
    } else {
        let t = spec_strip_newlines(input);
        if t.len() == 0 || t == "p"@ {
            Choice::Partner
        } else if t == "m"@ {
            Choice::Master
        } else if t == "e"@ {
            Choice::Edit
        } else {
            Choice::Invalid
        }
    }
}

/// Reads one prompt answer: an empty read is the end of the input stream;
/// anything else is stripped of its line breaks and classified.
pub fn interpret_choice(input: &str) -> (c: Choice)
    ensures
        c == spec_choice(input@),
{
    let n = input.unicode_len();
    if n == 0 {
        return Choice::EndOfInput;
    }
    let mut stripped: Vec<char> = Vec::new();
    let mut i: usize = 0;
    proof {
        assert(stripped@ + spec_strip_newlines_from(input@, 0) =~= spec_strip_newlines(input@));
    }
    while i < n
        invariant
            n == input@.len(),
            i <= n,
            stripped@ + spec_strip_newlines_from(input@, i as int) == spec_strip_newlines(input@),
        decreases n - i,
    {
        let c = input.get_char(i);
        let ghost pre = stripped@;
        if c == '\n' {
        } else if c == '\r' && i + 1 < n && input.get_char(i + 1) == '\n' {
        } else {
            stripped.push(c);
        }
        i += 1;
        proof {
            assert(stripped@ + spec_strip_newlines_from(input@, i as int) =~= pre
                + spec_strip_newlines_from(input@, i - 1));
        }
    }
    proof {
        assert(spec_strip_newlines_from(input@, n as int) =~= Seq::<char>::empty());
        assert(stripped@ =~= spec_strip_newlines(input@));
        reveal_strlit("p");
        reveal_strlit("m");
        reveal_strlit("e");
    }
    if stripped.len() == 0 {
        return Choice::Partner;
    }
    if stripped.len() == 1 {
        let c = stripped[0];
        if c == 'p' {
            proof {
                assert(stripped@ =~= "p"@);
            }
            return Choice::Partner;
        }
        if c == 'm' {
            proof {
                assert(stripped@ =~= "m"@);
            }
            return Choice::Master;
        }
        if c == 'e' {
            proof {
                assert(stripped@ =~= "e"@);
            }
            return Choice::Edit;
        }
    }
    Choice::Invalid
}

} // verus!
