//! Character-level text helpers: splitting on ASCII whitespace, prefixes and
//! suffixes, the final component of a slash-separated path, and decimal
//! rendering of integers.
use vstd::prelude::*;

verus! {

/// The bytes that `u8::is_ascii_whitespace` accepts: space, tab, line feed,
/// form feed and carriage return.
pub open spec fn is_ascii_ws(c: char) -> bool {
    c == ' ' || c == '\t' || c == '\n' || c == '\x0C' || c == '\r'
}

/// The tokens of `s` when `cur` is the part of a token read so far.
pub open spec fn tokens_after(s: Seq<char>, cur: Seq<char>) -> Seq<Seq<char>>
    decreases s.len(),
{
    if s.len() == 0 {
        if cur.len() == 0 {
            seq![]
        } else {
            seq![cur]
        }
    } else if is_ascii_ws(s[0]) {
        if cur.len() == 0 {
            tokens_after(s.drop_first(), seq![])
        } else {
            seq![cur] + tokens_after(s.drop_first(), seq![])
        }
    } else {
        tokens_after(s.drop_first(), cur.push(s[0]))
    }
}

/// The maximal runs of non-whitespace characters of `s`, in order: what
/// `str::split_ascii_whitespace` yields.
pub open spec fn tokens(s: Seq<char>) -> Seq<Seq<char>> {
    tokens_after(s, seq![])
}

pub open spec fn views(v: Seq<String>) -> Seq<Seq<char>> {
    v.map_values(|x: String| x@)
}

/// The characters of `s`, in order.
pub fn chars_of(s: &str) -> (r: Vec<char>)
    ensures
        r@ == s@,
{
    let mut r: Vec<char> = Vec::new();
    for c in it: s.chars()
        invariant
            r@ == it.seq().take(it.index() as int),
            it.seq() == s@,
    {
        r.push(c);
    }
    r
}

/// Splits `s` into its whitespace-separated tokens.
pub fn split_ascii_ws(s: &str) -> (r: Vec<String>)
    ensures
        views(r@) == tokens(s@),
{
    let cs = chars_of(s);
    let n = cs.len();
    let mut out: Vec<String> = Vec::new();
    let mut start: usize = 0;
    let mut i: usize = 0;
    proof {
        assert(cs@.skip(0) =~= cs@);
        assert(cs@.subrange(0, 0) =~= Seq::<char>::empty());
        assert(views(out@) + tokens(s@) =~= tokens(s@));
    }
    while i < n
        invariant
            cs@ == s@,
            n == cs@.len(),
            start <= i <= n,
            views(out@) + tokens_after(cs@.skip(i as int), cs@.subrange(start as int, i as int))
                == tokens(s@),
        decreases n - i,
    {
        let c = cs[i];
        proof {
            let rest = cs@.skip(i as int);
            let cur = cs@.subrange(start as int, i as int);
            assert(rest[0] == c);
            assert(rest.drop_first() =~= cs@.skip(i + 1));
            assert(cur.push(c) =~= cs@.subrange(start as int, i + 1));
        }
        if c == ' ' || c == '\t' || c == '\n' || c == '\x0C' || c == '\r' {
            if start < i {
                let tok = s.substring_char(start, i).to_owned();
                proof {
                    assert(views(out@.push(tok)) =~= views(out@).push(tok@));
                    assert(views(out@).push(tok@) + tokens_after(cs@.skip(i + 1), seq![])
                        =~= views(out@) + (seq![tok@] + tokens_after(
                        cs@.skip(i + 1),
                        seq![],
                    )));
                }
                out.push(tok);
            }
            start = i + 1;
            proof {
                assert(cs@.subrange(start as int, i + 1) =~= Seq::<char>::empty());
            }
        }
        i = i + 1;
    }
    proof {
        assert(cs@.skip(n as int) =~= Seq::<char>::empty());
    }
    if start < n {
        let tok = s.substring_char(start, n).to_owned();
        proof {
            assert(views(out@.push(tok)) =~= views(out@).push(tok@));
            assert(views(out@) + seq![tok@] =~= views(out@).push(tok@));
        }
        out.push(tok);
    } else {
        proof {
            assert(views(out@) + Seq::<Seq<char>>::empty() =~= views(out@));
        }
    }
    out
}

/// `suffix` ends `s`.
pub open spec fn ends_with(s: Seq<char>, suffix: Seq<char>) -> bool {
    suffix.len() <= s.len() && s.skip(s.len() - suffix.len()) == suffix
}

/// What follows the final `/` of `p`; all of `p` when it has none.
pub open spec fn last_component(p: Seq<char>) -> Seq<char>
    decreases p.len(),
{
    if p.len() == 0 {
        p
    } else if p.last() == '/' {
        seq![]
    } else {
        last_component(p.drop_last()).push(p.last())
    }
}

/// Whether `prefix` begins `s`.
pub fn starts_with(s: &str, prefix: &str) -> (r: bool)
    ensures
        r == prefix@.is_prefix_of(s@),
{
    let a = chars_of(s);
    let b = chars_of(prefix);
    if b.len() > a.len() {
        return false;
    }
    let mut i: usize = 0;
    while i < b.len()
        invariant
            a@ == s@,
            b@ == prefix@,
            b@.len() <= a@.len(),
            i <= b@.len(),
            forall|k: int| 0 <= k < i ==> a@[k] == b@[k],
        decreases b@.len() - i,
    {
        if a[i] != b[i] {
            assert(a@.subrange(0, b@.len() as int)[i as int] != b@[i as int]);
            return false;
        }
        i = i + 1;
    }
    assert(a@.subrange(0, b@.len() as int) =~= b@);
    true
}

/// Whether `s` and `t` hold the same characters.
pub fn same_text(s: &str, t: &str) -> (r: bool)
    ensures
        r == (s@ == t@),
{
    let same = starts_with(s, t) && s.unicode_len() == t.unicode_len();
    proof {
        if same {
            assert(s@ =~= t@);
        }
    }
    same
}

/// Whether `suffix` ends `s`.
pub fn ends_with_text(s: &str, suffix: &str) -> (r: bool)
    ensures
        r == ends_with(s@, suffix@),
{
    let n = s.unicode_len();
    let m = suffix.unicode_len();
    if m > n {
        return false;
    }
    let tail = s.substring_char(n - m, n);
    same_text(tail, suffix)
}

/// The text after the final `/` of `p`.
pub fn last_component_of(p: &str) -> (r: String)
    ensures
        r@ == last_component(p@),
{
    let cs = chars_of(p);
    let n = cs.len();
    let mut k: usize = n;
    proof {
        assert(p@.take(n as int) =~= p@);
        assert(p@ + p@.subrange(n as int, n as int) =~= p@);
    }
    while k > 0 && cs[k - 1] != '/'
        invariant
            cs@ == p@,
            n == cs@.len(),
            k <= n,
            last_component(p@) == last_component(p@.take(k as int)) + p@.subrange(k as int, n as int),
        decreases k,
    {
        proof {
            let q = p@.take(k as int);
            assert(q.drop_last() =~= p@.take(k - 1));
            assert(q.last() == p@[k - 1]);
            assert(p@.subrange(k - 1, n as int) =~= seq![p@[k - 1]] + p@.subrange(k as int, n as int));
            assert(last_component(p@.take(k - 1)).push(p@[k - 1]) + p@.subrange(k as int, n as int)
                =~= last_component(p@.take(k - 1)) + p@.subrange(k - 1, n as int));
        }
        k = k - 1;
    }
    proof {
        let q = p@.take(k as int);
        if k > 0 {
            assert(q.last() == p@[k - 1]);
        } else {
            assert(q =~= Seq::<char>::empty());
        }
        assert(last_component(q) =~= Seq::<char>::empty());
        assert(Seq::<char>::empty() + p@.subrange(k as int, n as int) =~= p@.subrange(k as int, n as int));
    }
    p.substring_char(k, n).to_owned()
}

pub open spec fn digit_char(d: nat) -> char {
    if d == 0 {
        '0'
    } else if d == 1 {
        '1'
    } else if d == 2 {
        '2'
    } else if d == 3 {
        '3'
    } else if d == 4 {
        '4'
    } else if d == 5 {
        '5'
    } else if d == 6 {
        '6'
    } else if d == 7 {
        '7'
    } else if d == 8 {
        '8'
    } else {
        '9'
    }
}

/// `n` written in decimal, without leading zeros.
pub open spec fn decimal(n: nat) -> Seq<char>
    decreases n,
{
    if n < 10 {
        seq![digit_char(n)]
    } else {
        decimal(n / 10).push(digit_char(n % 10))
    }
}

fn digit_str(d: u32) -> (r: &'static str)
    requires
        d < 10,
    ensures
        r@ == seq![digit_char(d as nat)],
{
    proof {
        reveal_strlit("0");
        reveal_strlit("1");
        reveal_strlit("2");
        reveal_strlit("3");
        reveal_strlit("4");
        reveal_strlit("5");
        reveal_strlit("6");
        reveal_strlit("7");
        reveal_strlit("8");
        reveal_strlit("9");
    }
    if d == 0 {
        "0"
    } else if d == 1 {
        "1"
    } else if d == 2 {
        "2"
    } else if d == 3 {
        "3"
    } else if d == 4 {
        "4"
    } else if d == 5 {
        "5"
    } else if d == 6 {
        "6"
    } else if d == 7 {
        "7"
    } else if d == 8 {
        "8"
    } else {
        "9"
    }
}

/// `n` in decimal, as `Display for u32` writes it.
pub fn decimal_string(n: u32) -> (r: String)
    ensures
        r@ == decimal(n as nat),
    decreases n,
{
    if n < 10 {
        digit_str(n).to_owned()
    } else {
        let mut s = decimal_string(n / 10);
        s.append(digit_str(n % 10));
        s
    }
}

} // verus!
