//! Answers to yes/no questions.
use vstd::prelude::*;

use crate::text::chars_of;

verus! {

#[derive(Clone, Copy, Debug, PartialEq, Eq, Structural)]
pub enum Answer {
    Yes,
    No,
}

/// The characters that `char::is_whitespace` accepts (Unicode White_Space).
pub open spec fn is_white(c: char) -> bool {
    ('\t' <= c && c <= '\r') || c == ' ' || c == '\u{85}' || c == '\u{A0}' || c == '\u{1680}' || (
    '\u{2000}' <= c && c <= '\u{200A}') || c == '\u{2028}' || c == '\u{2029}' || c == '\u{202F}'
        || c == '\u{205F}' || c == '\u{3000}'
}

pub open spec fn trim_start(s: Seq<char>) -> Seq<char>
    decreases s.len(),
{
    if s.len() > 0 && is_white(s[0]) {
        trim_start(s.drop_first())
    } else {
        s
    }
}

pub open spec fn trim_end(s: Seq<char>) -> Seq<char>
    decreases s.len(),
{
    if s.len() > 0 && is_white(s.last()) {
        trim_end(s.drop_last())
    } else {
        s
    }
}

/// `s` without its leading and trailing whitespace, as `str::trim` gives it.
pub open spec fn trimmed(s: Seq<char>) -> Seq<char> {
    trim_end(trim_start(s))
}

/// `c` is `lower` or, for an ASCII letter, its upper-case form.
pub open spec fn ascii_ci(c: char, lower: char, upper: char) -> bool {
    c == lower || c == upper
}

/// `t` is `y` or `yes`, ASCII letters in either case.
pub open spec fn is_yes_word(t: Seq<char>) -> bool {
    (t.len() == 1 && ascii_ci(t[0], 'y', 'Y')) || (t.len() == 3 && ascii_ci(t[0], 'y', 'Y')
        && ascii_ci(t[1], 'e', 'E') && ascii_ci(t[2], 's', 'S'))
}

/// The answer that a reply gives: `y` or `yes` in any ASCII case, around
/// whitespace, is yes; an empty reply takes the default; anything else is no.
pub open spec fn answer_of(reply: Seq<char>, default: Answer) -> Answer {
    let t = trimmed(reply);
    if is_yes_word(t) {
        Answer::Yes
    } else if t.len() == 0 {
        default
    } else {
        Answer::No
    }
}

fn white(c: char) -> (r: bool)
    ensures
        r == is_white(c),
{
    ('\t' <= c && c <= '\r') || c == ' ' || c == '\u{85}' || c == '\u{A0}' || c == '\u{1680}' || (
    '\u{2000}' <= c && c <= '\u{200A}') || c == '\u{2028}' || c == '\u{2029}' || c == '\u{202F}'
        || c == '\u{205F}' || c == '\u{3000}'
}

impl Answer {
    pub fn as_bool(&self) -> (r: bool)
        ensures
            r == (*self == Answer::Yes),
    {
        match self {
            Answer::Yes => true,
            Answer::No => false,
        }
    }

    pub fn is_no(&self) -> (r: bool)
        ensures
            r == (*self == Answer::No),
    {
        match self {
            Answer::Yes => false,
            Answer::No => true,
        }
    }

    /// The answer that the line `reply` gives to a question whose default
    /// answer is `default`.
    pub fn from_reply(reply: &str, default: Answer) -> (r: Answer)
        ensures
            r == answer_of(reply@, default),
    {
        let cs = chars_of(reply);
        let n = cs.len();
        let mut a: usize = 0;
        proof {
            assert(cs@.subrange(0, n as int) =~= cs@);
        }
        while a < n && white(cs[a])
            invariant
                cs@ == reply@,
                n == cs@.len(),
                a <= n,
                trim_start(reply@) == trim_start(cs@.subrange(a as int, n as int)),
            decreases n - a,
        {
            proof {
                let t = cs@.subrange(a as int, n as int);
                assert(t[0] == cs@[a as int]);
                assert(t.drop_first() =~= cs@.subrange(a + 1, n as int));
            }
            a = a + 1;
        }
        proof {
            let t = cs@.subrange(a as int, n as int);
            if a < n {
                assert(t[0] == cs@[a as int]);
            }
            assert(trim_start(t) == t);
        }
        let mut b: usize = n;
        while b > a && white(cs[b - 1])
            invariant
                cs@ == reply@,
                n == cs@.len(),
                a <= b <= n,
                trimmed(reply@) == trim_end(cs@.subrange(a as int, b as int)),
            decreases b,
        {
            proof {
                let t = cs@.subrange(a as int, b as int);
                assert(t.last() == cs@[b - 1]);
                assert(t.drop_last() =~= cs@.subrange(a as int, b - 1));
            }
            b = b - 1;
        }
        let ghost t = cs@.subrange(a as int, b as int);
        proof {
            if b > a {
                assert(t.last() == cs@[b - 1]);
            }
            assert(trim_end(t) == t);
        }
        let len = b - a;
        let yes = if len == 1 {
            cs[a] == 'y' || cs[a] == 'Y'
        } else if len == 3 {
            (cs[a] == 'y' || cs[a] == 'Y') && (cs[a + 1] == 'e' || cs[a + 1] == 'E') && (cs[a + 2]
                == 's' || cs[a + 2] == 'S')
        } else {
            false
        };
        proof {
            if len >= 1 {
                assert(t[0] == cs@[a as int]);
            }
            if len == 3 {
                assert(t[1] == cs@[a + 1]);
                assert(t[2] == cs@[a + 2]);
            }
        }
        if yes {
            Answer::Yes
        } else if len == 0 {
            default
        } else {
            Answer::No
        }
    }
}

} // verus!
