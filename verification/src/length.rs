//! The `Content-Length` header: which lines state a length, what length
//! they state, and what a header block announces for the body.

use crate::text::{substring, to_chars, trim, trimmed};
use vstd::prelude::*;

verus! {

/// Whether `c` is an ASCII decimal digit.
pub open spec fn is_digit(c: char) -> bool {
    0x30 <= c as u32 <= 0x39
}

/// Whether `s` holds decimal digits only.
pub open spec fn all_digits(s: Seq<char>) -> bool {
    forall|i: int| 0 <= i < s.len() ==> is_digit(#[trigger] s[i])
}

/// The number that the digits of `s` write.
pub open spec fn digits_value(s: Seq<char>) -> nat
    decreases s.len(),
{
    if s.len() == 0 {
        0
    } else {
        digits_value(s.drop_last()) * 10 + (s.last() as u32 - 0x30) as nat
    }
}

/// The length that a text states: an optional `+`, then at least one
/// digit and digits only, writing a number that fits in `usize`.
pub open spec fn parse_length(s: Seq<char>) -> Option<usize> {
    let d = if s.len() > 0 && s[0] == '+' {
        s.skip(1)
    } else {
        s
    };
    if d.len() > 0 && all_digits(d) && digits_value(d) <= usize::MAX {
        Some(digits_value(d) as usize)
    } else {
        None
    }
}

/// A number written by digits is at least the number written by any
/// prefix of them.
pub proof fn lemma_digits_monotonic(s: Seq<char>, k: int)
    requires
        0 <= k <= s.len(),
    ensures
        digits_value(s.take(k)) <= digits_value(s),
    decreases s.len(),
{
    if k == s.len() {
        assert(s.take(k) =~= s);
    } else {
        let t = s.drop_last();
        lemma_digits_monotonic(t, k);
        assert(t.take(k) =~= s.take(k));
    }
}

/// Reads a length as `parse_length` defines it.
pub fn parse_content_length(text: &str) -> (res: Option<usize>)
    ensures
        res == parse_length(text@),
{
    let cs = to_chars(text);
    let start: usize = if cs.len() > 0 && cs[0] == '+' {
        1
    } else {
        0
    };
    let ghost d = cs@.skip(start as int);
    if start >= cs.len() {
        return None;
    }
    let mut value: usize = 0;
    let mut i: usize = start;
    assert(d.take(0) =~= Seq::<char>::empty());
    while i < cs.len()
        invariant
            start <= i <= cs.len(),
            start < cs.len(),
            cs@ == text@,
            d == cs@.skip(start as int),
            start == (if text@.len() > 0 && text@[0] == '+' {
                1int
            } else {
                0int
            }),
            all_digits(d.take(i - start)),
            value == digits_value(d.take(i - start)),
        decreases cs.len() - i,
    {
        let c = cs[i];
        let n: u32 = c as u32;
        let ghost done = d.take(i - start);
        let ghost next = d.take(i - start + 1);
        assert(next.drop_last() =~= done);
        assert(next.last() == c);
        if n < 0x30 || n > 0x39 {
            assert(!is_digit(d[i - start]));
            return None;
        }
        let digit: usize = (n - 0x30) as usize;
        proof {
            lemma_digits_monotonic(d, i - start + 1);
            assert(digits_value(next) == value * 10 + digit);
            assert(cs@.skip(0) =~= cs@);
        }
        match value.checked_mul(10) {
            Some(tens) => match tens.checked_add(digit) {
                Some(sum) => {
                    value = sum;
                },
                None => {
                    return None;
                },
            },
            None => {
                return None;
            },
        }
        i += 1;
    }
    assert(d.take(i - start) =~= d);
    assert(cs@.skip(0) =~= cs@);
    Some(value)
}

/// What follows the prefix `p` in `s`, where `s` begins with `p`.
pub open spec fn after_prefix(s: Seq<char>, p: Seq<char>) -> Option<Seq<char>> {
    if p.len() <= s.len() && s.take(p.len() as int) == p {
        Some(s.skip(p.len() as int))
    } else {
        None
    }
}

/// What follows the prefix in `s`, where `s` begins with it.
pub fn strip_prefix(s: &str, prefix: &str) -> (res: Option<String>)
    ensures
        crate::utils::option_view(res) == after_prefix(s@, prefix@),
{
    let cs = to_chars(s);
    let ps = to_chars(prefix);
    if ps.len() > cs.len() {
        return None;
    }
    let mut i: usize = 0;
    while i < ps.len()
        invariant
            i <= ps.len() <= cs.len(),
            cs@ == s@,
            ps@ == prefix@,
            cs@.take(i as int) == ps@.take(i as int),
        decreases ps.len() - i,
    {
        if cs[i] != ps[i] {
            assert(cs@.take(ps.len() as int)[i as int] != ps@[i as int]);
            return None;
        }
        i += 1;
        assert(cs@.take(i as int) =~= cs@.take(i - 1).push(cs@[i - 1]));
        assert(ps@.take(i as int) =~= ps@.take(i - 1).push(ps@[i - 1]));
    }
    assert(ps@.take(i as int) =~= ps@);
    let rest = substring(&cs, ps.len(), cs.len());
    assert(cs@.subrange(ps.len() as int, cs.len() as int) =~= cs@.skip(ps.len() as int));
    Some(rest)
}

/// What a line says of the length of the body: nothing where it is no
/// `Content-Length` line; else the length that it states, if it states
/// one.
pub open spec fn declared_length(line: Seq<char>) -> Option<Option<usize>> {
    match after_prefix(line, "Content-Length: "@) {
        Some(rest) => Some(parse_length(trim(rest))),
        None => None,
    }
}

/// Reads what a line says of the length of the body.
pub fn read_declared_length(line: &str) -> (res: Option<Option<usize>>)
    ensures
        res == declared_length(line@),
{
    match strip_prefix(line, "Content-Length: ") {
        Some(rest) => {
            let value = trimmed(rest.as_str());
            Some(parse_content_length(value.as_str()))
        },
        None => None,
    }
}

/// The length that the first `n` lines announce: what the last
/// `Content-Length` line among them states, and 0 where there is none.
pub open spec fn announced(lines: Seq<Seq<char>>, n: int) -> usize
    decreases n,
{
    if n <= 0 {
        0
    } else {
        match declared_length(lines[n - 1]) {
            Some(Some(k)) => k,
            _ => announced(lines, n - 1),
        }
    }
}

/// What lines announce depends only on the lines themselves.
pub proof fn lemma_announced_prefix(a: Seq<Seq<char>>, b: Seq<Seq<char>>, n: int)
    requires
        n <= a.len(),
        n <= b.len(),
        forall|i: int| 0 <= i < n ==> a[i] == b[i],
    ensures
        announced(a, n) == announced(b, n),
    decreases n,
{
    if n > 0 {
        assert(a[n - 1] == b[n - 1]);
        lemma_announced_prefix(a, b, n - 1);
    }
}

/// Lines without a `Content-Length` line announce no body.
pub proof fn law_nothing_announced(lines: Seq<Seq<char>>, n: int)
    requires
        n <= lines.len(),
        forall|i: int| 0 <= i < n ==> declared_length(#[trigger] lines[i]).is_none(),
    ensures
        announced(lines, n) == 0,
    decreases n,
{
    if n > 0 {
        assert(declared_length(lines[n - 1]).is_none());
        law_nothing_announced(lines, n - 1);
    }
}

} // verus!
