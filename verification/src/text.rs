//! Text handling: the mathematical meaning of trimming, splitting and
//! tokenising over sequences of characters, and executable functions that
//! compute them on strings.

use vstd::prelude::*;

verus! {

/// `String::push` appends one character to the end of the string.
pub assume_specification[ String::push ](s: &mut String, c: char)
    ensures
        final(s)@ == old(s)@.push(c),
;

/// Whether `c` has the Unicode `White_Space` property.
pub open spec fn is_whitespace(c: char) -> bool {
    let n = c as u32;
    ||| 0x09 <= n <= 0x0D
    ||| n == 0x20
    ||| n == 0x85
    ||| n == 0xA0
    ||| n == 0x1680
    ||| 0x2000 <= n <= 0x200A
    ||| n == 0x2028
    ||| n == 0x2029
    ||| n == 0x202F
    ||| n == 0x205F
    ||| n == 0x3000
}

/// Position of the first `c` in `s`, or `s.len()` where there is none.
pub open spec fn index_of(s: Seq<char>, c: char) -> int
    decreases s.len(),
{
    if s.len() == 0 || s[0] == c {
        0
    } else {
        1 + index_of(s.drop_first(), c)
    }
}

/// Whether `c` occurs in `s`.
pub open spec fn contains_char(s: Seq<char>, c: char) -> bool {
    index_of(s, c) < s.len()
}

/// Length of the longest prefix of `s` made of whitespace only.
pub open spec fn leading_whitespace(s: Seq<char>) -> int
    decreases s.len(),
{
    if s.len() > 0 && is_whitespace(s[0]) {
        1 + leading_whitespace(s.drop_first())
    } else {
        0
    }
}

/// Length of the longest suffix of `s` made of whitespace only.
pub open spec fn trailing_whitespace(s: Seq<char>) -> int
    decreases s.len(),
{
    if s.len() > 0 && is_whitespace(s.last()) {
        1 + trailing_whitespace(s.drop_last())
    } else {
        0
    }
}

/// `s` without its leading whitespace.
pub open spec fn trim_start(s: Seq<char>) -> Seq<char> {
    s.skip(leading_whitespace(s))
}

/// `s` without its trailing whitespace.
pub open spec fn trim_end(s: Seq<char>) -> Seq<char> {
    s.take(s.len() - trailing_whitespace(s))
}

/// `s` without leading and trailing whitespace.
pub open spec fn trim(s: Seq<char>) -> Seq<char> {
    trim_end(trim_start(s))
}

/// The pieces of `s` between occurrences of `sep`. There is always at
/// least one piece; `n` separators give `n + 1` pieces.
pub open spec fn split(s: Seq<char>, sep: char) -> Seq<Seq<char>>
    decreases s.len(),
    via split_decreases
{
    let i = index_of(s, sep);
    if i >= s.len() {
        seq![s]
    } else {
        seq![s.take(i)] + split(s.skip(i + 1), sep)
    }
}

#[via_fn]
proof fn split_decreases(s: Seq<char>, sep: char) {
    lemma_index_of(s, sep);
}

/// The part of `s` before the first `sep` (all of `s` where there is none).
pub open spec fn before_first(s: Seq<char>, sep: char) -> Seq<char> {
    s.take(index_of(s, sep))
}

/// The part of `s` after the first `sep`, where there is one.
pub open spec fn after_first(s: Seq<char>, sep: char) -> Option<Seq<char>> {
    if contains_char(s, sep) {
        Some(s.skip(index_of(s, sep) + 1))
    } else {
        None
    }
}

/// Length of the longest prefix of `s` that holds no whitespace.
pub open spec fn leading_word(s: Seq<char>) -> int
    decreases s.len(),
{
    if s.len() > 0 && !is_whitespace(s[0]) {
        1 + leading_word(s.drop_first())
    } else {
        0
    }
}

/// The maximal runs of non-whitespace characters in `s`, in order.
pub open spec fn tokens(s: Seq<char>) -> Seq<Seq<char>>
    decreases s.len(),
    via tokens_decreases
{
    let t = trim_start(s);
    if t.len() == 0 {
        Seq::empty()
    } else {
        let w = leading_word(t);
        seq![t.take(w)] + tokens(t.skip(w))
    }
}

#[via_fn]
proof fn tokens_decreases(s: Seq<char>) {
    let t = trim_start(s);
    lemma_leading_whitespace(s);
    if t.len() != 0 {
        lemma_leading_word(t);
    }
}

/// The view of each string of a sequence.
pub open spec fn views(v: Seq<String>) -> Seq<Seq<char>> {
    v.map_values(|s: String| s@)
}

/// `index_of` is within bounds, no earlier character is `c`, and the
/// character there is `c` where the index is inside `s`.
pub proof fn lemma_index_of(s: Seq<char>, c: char)
    ensures
        0 <= index_of(s, c) <= s.len(),
        forall|j: int| 0 <= j < index_of(s, c) ==> s[j] != c,
        index_of(s, c) < s.len() ==> s[index_of(s, c)] == c,
    decreases s.len(),
{
    if s.len() == 0 || s[0] == c {
    } else {
        let t = s.drop_first();
        lemma_index_of(t, c);
        assert forall|j: int| 0 <= j < index_of(s, c) implies s[j] != c by {
            if j > 0 {
                assert(s[j] == t[j - 1]);
            }
        }
        if index_of(t, c) < t.len() {
            assert(t[index_of(t, c)] == s[index_of(t, c) + 1]);
        }
    }
}

/// The first occurrence is the only position that has `c` with none before.
pub proof fn lemma_index_of_unique(s: Seq<char>, c: char, r: int)
    requires
        0 <= r <= s.len(),
        forall|j: int| 0 <= j < r ==> s[j] != c,
        r < s.len() ==> s[r] == c,
    ensures
        index_of(s, c) == r,
{
    lemma_index_of(s, c);
    let i = index_of(s, c);
    if i < r {
        assert(s[i] != c);
    } else if r < i {
        assert(s[r] != c);
    }
}

/// `leading_whitespace` is within bounds, every character before it
/// is whitespace, and the character there is not.
pub proof fn lemma_leading_whitespace(s: Seq<char>)
    ensures
        0 <= leading_whitespace(s) <= s.len(),
        forall|j: int| 0 <= j < leading_whitespace(s) ==> is_whitespace(s[j]),
        leading_whitespace(s) < s.len() ==> !is_whitespace(s[leading_whitespace(s)]),
    decreases s.len(),
{
    if s.len() > 0 && is_whitespace(s[0]) {
        let t = s.drop_first();
        lemma_leading_whitespace(t);
        assert forall|j: int| 0 <= j < leading_whitespace(s) implies is_whitespace(s[j]) by {
            if j > 0 {
                assert(s[j] == t[j - 1]);
            }
        }
        if leading_whitespace(s) < s.len() {
            assert(t[leading_whitespace(t)] == s[leading_whitespace(t) + 1]);
        }
    }
}

/// `leading_word` is within bounds, no character before it is
/// whitespace, and the character there is.
pub proof fn lemma_leading_word(s: Seq<char>)
    ensures
        0 <= leading_word(s) <= s.len(),
        forall|j: int| 0 <= j < leading_word(s) ==> !is_whitespace(s[j]),
        leading_word(s) < s.len() ==> is_whitespace(s[leading_word(s)]),
        s.len() > 0 && !is_whitespace(s[0]) ==> leading_word(s) > 0,
    decreases s.len(),
{
    if s.len() > 0 && !is_whitespace(s[0]) {
        let t = s.drop_first();
        lemma_leading_word(t);
        assert forall|j: int| 0 <= j < leading_word(s) implies !is_whitespace(s[j]) by {
            if j > 0 {
                assert(s[j] == t[j - 1]);
            }
        }
        if leading_word(s) < s.len() {
            assert(t[leading_word(t)] == s[leading_word(t) + 1]);
        }
    }
}

/// The only position with whitespace alone before it and none at it
/// is `leading_whitespace`.
pub proof fn lemma_leading_whitespace_unique(s: Seq<char>, r: int)
    requires
        0 <= r <= s.len(),
        forall|j: int| 0 <= j < r ==> is_whitespace(s[j]),
        r < s.len() ==> !is_whitespace(s[r]),
    ensures
        leading_whitespace(s) == r,
{
    lemma_leading_whitespace(s);
    let i = leading_whitespace(s);
    if i < r {
        assert(is_whitespace(s[i]));
    } else if r < i {
        assert(!is_whitespace(s[r]));
    }
}

/// The only position with no whitespace before it and whitespace at
/// it is `leading_word`.
pub proof fn lemma_leading_word_unique(s: Seq<char>, r: int)
    requires
        0 <= r <= s.len(),
        forall|j: int| 0 <= j < r ==> !is_whitespace(s[j]),
        r < s.len() ==> is_whitespace(s[r]),
    ensures
        leading_word(s) == r,
{
    lemma_leading_word(s);
    let i = leading_word(s);
    if i < r {
        assert(!is_whitespace(s[i]));
    } else if r < i {
        assert(is_whitespace(s[r]));
    }
}

/// `trailing_whitespace` is within bounds, every character of that
/// suffix is whitespace, and the character before it is not.
pub proof fn lemma_trailing_whitespace(s: Seq<char>)
    ensures
        0 <= trailing_whitespace(s) <= s.len(),
        forall|j: int| s.len() - trailing_whitespace(s) <= j < s.len() ==> is_whitespace(s[j]),
        trailing_whitespace(s) < s.len() ==> !is_whitespace(
            s[s.len() - trailing_whitespace(s) - 1],
        ),
    decreases s.len(),
{
    if s.len() > 0 && is_whitespace(s.last()) {
        let t = s.drop_last();
        lemma_trailing_whitespace(t);
        assert forall|j: int| s.len() - trailing_whitespace(s) <= j < s.len() implies is_whitespace(
            s[j],
        ) by {
            if j < s.len() - 1 {
                assert(s[j] == t[j]);
            }
        }
        if trailing_whitespace(s) < s.len() {
            assert(t[t.len() - trailing_whitespace(t) - 1] == s[s.len() - trailing_whitespace(s)
                - 1]);
        }
    }
}

/// The only length of a suffix of whitespace alone with none before
/// it is `trailing_whitespace`.
pub proof fn lemma_trailing_whitespace_unique(s: Seq<char>, r: int)
    requires
        0 <= r <= s.len(),
        forall|j: int| s.len() - r <= j < s.len() ==> is_whitespace(s[j]),
        r < s.len() ==> !is_whitespace(s[s.len() - r - 1]),
    ensures
        trailing_whitespace(s) == r,
{
    lemma_trailing_whitespace(s);
    let i = trailing_whitespace(s);
    if i < r {
        assert(is_whitespace(s[s.len() - i - 1]));
    } else if r < i {
        assert(!is_whitespace(s[s.len() - r - 1]));
    }
}

/// Whether `c` is a whitespace character.
pub fn is_whitespace_char(c: char) -> (b: bool)
    ensures
        b == is_whitespace(c),
{
    let n: u32 = c as u32;
    (0x09 <= n && n <= 0x0D) || n == 0x20 || n == 0x85 || n == 0xA0 || n == 0x1680 || (0x2000 <= n
        && n <= 0x200A) || n == 0x2028 || n == 0x2029 || n == 0x202F || n == 0x205F || n == 0x3000
}

/// The characters of `s`.
pub fn to_chars(s: &str) -> (v: Vec<char>)
    ensures
        v@ == s@,
{
    let mut v: Vec<char> = Vec::new();
    for c in it: s.chars()
        invariant
            it.seq() == s@,
            v@ == s@.take(it.index()),
    {
        v.push(c);
        assert(v@ =~= s@.take(it.index() + 1));
    }
    assert(v@ =~= s@);
    v
}

/// The string made of the characters of `cs` from `from` up to `to`.
pub fn substring(cs: &Vec<char>, from: usize, to: usize) -> (s: String)
    requires
        from <= to <= cs.len(),
    ensures
        s@ == cs@.subrange(from as int, to as int),
{
    let mut s = String::new();
    let mut i: usize = from;
    assert(s@ =~= cs@.subrange(from as int, i as int));
    while i < to
        invariant
            from <= i <= to <= cs.len(),
            s@ == cs@.subrange(from as int, i as int),
        decreases to - i,
    {
        s.push(cs[i]);
        i += 1;
        assert(s@ =~= cs@.subrange(from as int, i as int));
    }
    s
}

/// Position of the first `c` in `cs` at or after `from`, or `cs.len()`.
pub fn find_char(cs: &Vec<char>, from: usize, c: char) -> (r: usize)
    requires
        from <= cs.len(),
    ensures
        from <= r <= cs.len(),
        r == from + index_of(cs@.skip(from as int), c),
{
    let mut i: usize = from;
    while i < cs.len() && cs[i] != c
        invariant
            from <= i <= cs.len(),
            forall|j: int| from <= j < i ==> cs@[j] != c,
        decreases cs.len() - i,
    {
        i += 1;
    }
    proof {
        lemma_index_of_unique(cs@.skip(from as int), c, i - from);
    }
    i
}

/// `s` without leading and trailing whitespace.
pub fn trimmed(s: &str) -> (res: String)
    ensures
        res@ == trim(s@),
{
    let cs = to_chars(s);
    let mut a: usize = 0;
    while a < cs.len() && is_whitespace_char(cs[a])
        invariant
            a <= cs.len(),
            forall|j: int| 0 <= j < a ==> is_whitespace(cs@[j]),
        decreases cs.len() - a,
    {
        a += 1;
    }
    let mut b: usize = cs.len();
    while b > a && is_whitespace_char(cs[b - 1])
        invariant
            a <= b <= cs.len(),
            forall|j: int| b <= j < cs.len() ==> is_whitespace(cs@[j]),
        decreases b,
    {
        b -= 1;
    }
    proof {
        lemma_leading_whitespace_unique(cs@, a as int);
        let t = trim_start(cs@);
        assert(t.len() == cs.len() - a);
        lemma_trailing_whitespace_unique(t, cs.len() - b);
        assert(trim(cs@) =~= cs@.subrange(a as int, b as int));
    }
    substring(&cs, a, b)
}

/// The pieces of `s` between occurrences of `sep`.
pub fn pieces(s: &str, sep: char) -> (res: Vec<String>)
    ensures
        views(res@) == split(s@, sep),
{
    let cs = to_chars(s);
    let mut res: Vec<String> = Vec::new();
    let mut start: usize = 0;
    proof {
        assert(cs@.skip(0) =~= cs@);
        assert(views(res@) =~= Seq::<Seq<char>>::empty());
        assert(views(res@) + split(cs@, sep) =~= split(cs@, sep));
    }
    loop
        invariant_except_break
            views(res@) + split(cs@.skip(start as int), sep) == split(s@, sep),
        invariant
            start <= cs.len(),
            cs@ == s@,
        ensures
            views(res@) == split(s@, sep),
        decreases cs.len() - start,
    {
        let end = find_char(&cs, start, sep);
        let piece = substring(&cs, start, end);
        let ghost rest = cs@.skip(start as int);
        let ghost before = res@;
        res.push(piece);
        proof {
            assert(rest.take(end - start) =~= cs@.subrange(start as int, end as int));
            assert(views(res@) =~= views(before) + seq![piece@]);
        }
        if end >= cs.len() {
            proof {
                assert(rest.take(end - start) =~= rest);
                assert(views(res@) =~= split(s@, sep));
            }
            break;
        }
        proof {
            assert(rest.skip(end - start + 1) =~= cs@.skip(end + 1));
            assert(views(res@) + split(cs@.skip(end + 1), sep) =~= views(before) + split(
                rest,
                sep,
            ));
        }
        start = end + 1;
    }
    res
}

/// The maximal runs of non-whitespace characters of `s`, in order.
pub fn words(s: &str) -> (res: Vec<String>)
    ensures
        views(res@) == tokens(s@),
{
    let cs = to_chars(s);
    let mut res: Vec<String> = Vec::new();
    let mut pos: usize = 0;
    proof {
        assert(cs@.skip(0) =~= cs@);
        assert(views(res@) =~= Seq::<Seq<char>>::empty());
        assert(views(res@) + tokens(cs@) =~= tokens(cs@));
    }
    loop
        invariant_except_break
            views(res@) + tokens(cs@.skip(pos as int)) == tokens(s@),
        invariant
            pos <= cs.len(),
            cs@ == s@,
        ensures
            views(res@) == tokens(s@),
        decreases cs.len() - pos,
    {
        let mut a: usize = pos;
        while a < cs.len() && is_whitespace_char(cs[a])
            invariant
                pos <= a <= cs.len(),
                forall|j: int| pos <= j < a ==> is_whitespace(cs@[j]),
            decreases cs.len() - a,
        {
            a += 1;
        }
        let ghost rest = cs@.skip(pos as int);
        proof {
            lemma_leading_whitespace_unique(rest, a - pos);
            assert(trim_start(rest) =~= cs@.skip(a as int));
        }
        if a >= cs.len() {
            proof {
                assert(tokens(rest) =~= Seq::<Seq<char>>::empty());
                assert(views(res@) =~= tokens(s@));
            }
            break;
        }
        let mut b: usize = a;
        while b < cs.len() && !is_whitespace_char(cs[b])
            invariant
                a <= b <= cs.len(),
                forall|j: int| a <= j < b ==> !is_whitespace(cs@[j]),
            decreases cs.len() - b,
        {
            b += 1;
        }
        let word = substring(&cs, a, b);
        let ghost before = res@;
        res.push(word);
        proof {
            let t = cs@.skip(a as int);
            lemma_leading_word_unique(t, b - a);
            assert(t.take(b - a) =~= cs@.subrange(a as int, b as int));
            assert(t.skip(b - a) =~= cs@.skip(b as int));
            assert(views(res@) =~= views(before) + seq![word@]);
            assert(views(res@) + tokens(cs@.skip(b as int)) =~= views(before) + tokens(rest));
        }
        pos = b;
    }
    res
}

/// The part of `s` before the first `sep`, and the part after it where
/// `sep` occurs.
pub fn split_first(s: &str, sep: char) -> (res: (String, Option<String>))
    ensures
        res.0@ == before_first(s@, sep),
        res.1.is_some() == contains_char(s@, sep),
        res.1.is_some() ==> Some(res.1.unwrap()@) == after_first(s@, sep),
{
    let cs = to_chars(s);
    let i = find_char(&cs, 0, sep);
    assert(cs@.skip(0) =~= cs@);
    let head = substring(&cs, 0, i);
    assert(cs@.subrange(0, i as int) =~= cs@.take(i as int));
    if i < cs.len() {
        let tail = substring(&cs, i + 1, cs.len());
        assert(cs@.subrange(i + 1, cs.len() as int) =~= cs@.skip(i + 1));
        (head, Some(tail))
    } else {
        (head, None)
    }
}

} // verus!
