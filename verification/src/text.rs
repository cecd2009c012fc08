//! Rules on character sequences: equality and order of strings, and the
//! conversions between strings and vectors of characters.

use vstd::prelude::*;
use vstd::std_specs::iter::IteratorSpec;

verus! {

/// The characters of `s`, in order.
pub fn chars_of(s: &str) -> (v: Vec<char>)
    ensures
        v@ == s@,
{
    let mut v: Vec<char> = Vec::new();
    for c in it: s.chars()
        invariant
            it.seq() == s@,
            v@ == s@.take(it.index()),
    {
        v.push(c);
    }
    assert(v@ == s@);
    v
}

/// Appends the characters `chars[from..to]` to `out`.
pub(crate) fn push_chars(out: &mut String, chars: &Vec<char>, from: usize, to: usize)
    requires
        from <= to <= chars.len(),
    ensures
        final(out)@ == old(out)@ + chars@.subrange(from as int, to as int),
{
    let mut i: usize = from;
    while i < to
        invariant
            from <= i <= to <= chars.len(),
            out@ == old(out)@ + chars@.subrange(from as int, i as int),
        decreases to - i,
    {
        out.push(chars[i]);
        i += 1;
    }
}

/// Whether `a` and `b` hold the same characters.
pub fn str_eq(a: &str, b: &str) -> (same: bool)
    ensures
        same == (a@ == b@),
{
    let mut rest_a = a.chars();
    let mut rest_b = b.chars();
    let ghost mut k: int = 0;
    loop
        invariant
            0 <= k <= a@.len(),
            k <= b@.len(),
            rest_a.remaining() == a@.skip(k),
            rest_b.remaining() == b@.skip(k),
            a@.take(k) == b@.take(k),
        decreases a@.len() - k,
    {
        match (rest_a.next(), rest_b.next()) {
            (None, None) => {
                assert(a@ == a@.take(k));
                assert(b@ == b@.take(k));
                return true;
            },
            (Some(c), Some(d)) => {
                if c != d {
                    assert(a@[k] != b@[k]);
                    return false;
                }
                proof {
                    assert(a@.take(k + 1) == a@.take(k).push(a@[k]));
                    assert(b@.take(k + 1) == b@.take(k).push(b@[k]));
                    assert(a@.skip(k).drop_first() == a@.skip(k + 1));
                    assert(b@.skip(k).drop_first() == b@.skip(k + 1));
                    k = k + 1;
                }
            },
            _ => {
                assert(a@.len() != b@.len());
                return false;
            },
        }
    }
}

/// Lexicographic order of character sequences by code point: a proper prefix
/// comes before its extensions, and otherwise the first differing character
/// decides.
pub open spec fn lex_le(a: Seq<char>, b: Seq<char>) -> bool
    decreases a.len(),
{
    if a.len() == 0 {
        true
    } else if b.len() == 0 {
        false
    } else if a[0] != b[0] {
        (a[0] as u32) < (b[0] as u32)
    } else {
        lex_le(a.drop_first(), b.drop_first())
    }
}

/// Different characters have different code points.
proof fn lemma_code_points_differ(c: char, d: char)
    ensures
        c != d ==> c as u32 != d as u32,
{
}

/// Every sequence is at most itself.
pub proof fn lemma_lex_le_reflexive(a: Seq<char>)
    ensures
        lex_le(a, a),
    decreases a.len(),
{
    if a.len() > 0 {
        lemma_lex_le_reflexive(a.drop_first());
    }
}

/// Of two sequences one is at most the other.
pub proof fn lemma_lex_le_total(a: Seq<char>, b: Seq<char>)
    ensures
        lex_le(a, b) || lex_le(b, a),
    decreases a.len(),
{
    if a.len() > 0 && b.len() > 0 {
        if a[0] == b[0] {
            lemma_lex_le_total(a.drop_first(), b.drop_first());
        } else {
            lemma_code_points_differ(a[0], b[0]);
        }
    }
}

/// The order is transitive.
pub proof fn lemma_lex_le_transitive(a: Seq<char>, b: Seq<char>, c: Seq<char>)
    requires
        lex_le(a, b),
        lex_le(b, c),
    ensures
        lex_le(a, c),
    decreases a.len(),
{
    if a.len() > 0 && b.len() > 0 && c.len() > 0 && a[0] == b[0] && b[0] == c[0] {
        lemma_lex_le_transitive(a.drop_first(), b.drop_first(), c.drop_first());
    }
}

/// Two sequences that are each at most the other are equal.
pub proof fn lemma_lex_le_antisymmetric(a: Seq<char>, b: Seq<char>)
    requires
        lex_le(a, b),
        lex_le(b, a),
    ensures
        a == b,
    decreases a.len(),
{
    if a.len() > 0 && b.len() > 0 {
        lemma_lex_le_antisymmetric(a.drop_first(), b.drop_first());
        assert(a == seq![a[0]] + a.drop_first());
        assert(b == seq![b[0]] + b.drop_first());
    } else {
        assert(a == b);
    }
}

/// Whether `a` comes at or before `b` in the order [`lex_le`].
pub fn str_le(a: &str, b: &str) -> (le: bool)
    ensures
        le == lex_le(a@, b@),
{
    let mut rest_a = a.chars();
    let mut rest_b = b.chars();
    let ghost mut k: int = 0;
    loop
        invariant
            0 <= k <= a@.len(),
            k <= b@.len(),
            rest_a.remaining() == a@.skip(k),
            rest_b.remaining() == b@.skip(k),
            lex_le(a@, b@) == lex_le(a@.skip(k), b@.skip(k)),
        decreases a@.len() - k,
    {
        match (rest_a.next(), rest_b.next()) {
            (None, _) => {
                return true;
            },
            (Some(_), None) => {
                return false;
            },
            (Some(c), Some(d)) => {
                if c != d {
                    return (c as u32) < (d as u32);
                }
                proof {
                    assert(a@.skip(k).drop_first() == a@.skip(k + 1));
                    assert(b@.skip(k).drop_first() == b@.skip(k + 1));
                    k = k + 1;
                }
            },
        }
    }
}


/// Whether `needle` stands in `line` at position `at`.
pub open spec fn occurs_at(line: Seq<char>, needle: Seq<char>, at: int) -> bool {
    0 <= at && at + needle.len() <= line.len() && line.subrange(at, at + needle.len()) == needle
}

/// Whether `needle` stands somewhere in `line`, character for character. The
/// empty needle stands in every line.
pub open spec fn contains(line: Seq<char>, needle: Seq<char>) -> bool {
    exists|at: int| occurs_at(line, needle, at)
}

/// Whether `needle` stands somewhere in `chars[from..to]`.
pub(crate) fn contains_in(chars: &Vec<char>, from: usize, to: usize, needle: &Vec<char>) -> (found: bool)
    requires
        from <= to <= chars.len(),
    ensures
        found == contains(chars@.subrange(from as int, to as int), needle@),
{
    let ghost line = chars@.subrange(from as int, to as int);
    let m = needle.len();
    if to - from < m {
        assert(forall|at: int| !occurs_at(line, needle@, at));
        return false;
    }
    let last = to - m;
    let mut start: usize = from;
    while start <= last
        invariant
            from <= start <= last + 1,
            last == to - m,
            from <= to <= chars.len(),
            m == needle.len(),
            line == chars@.subrange(from as int, to as int),
            forall|at: int| 0 <= at < start - from ==> !occurs_at(line, needle@, at),
        decreases last + 1 - start,
    {
        let mut k: usize = 0;
        while k < m && chars[start + k] == needle[k]
            invariant
                k <= m,
                m == needle.len(),
                start + m <= chars.len(),
                forall|t: int| 0 <= t < k ==> chars@[start + t] == needle@[t],
            decreases m - k,
        {
            k += 1;
        }
        if k == m {
            assert(line.subrange(start - from, start - from + m) == needle@);
            assert(occurs_at(line, needle@, start - from));
            return true;
        }
        assert(!occurs_at(line, needle@, start - from)) by {
            if occurs_at(line, needle@, start - from) {
                assert(line.subrange(start - from, start - from + m)[k as int] == needle@[k as int]);
            }
        }
        start += 1;
    }
    assert(forall|at: int| !occurs_at(line, needle@, at));
    false
}

/// The position of the first line feed in `text`, or the length of `text`
/// where it holds none.
pub open spec fn first_newline(text: Seq<char>) -> int
    decreases text.len(),
{
    if text.len() == 0 || text[0] == '\n' {
        0
    } else {
        1 + first_newline(text.drop_first())
    }
}

/// `first_newline` lies within the text, nothing before it is a line feed,
/// and it is one unless it is the end of the text.
pub proof fn lemma_first_newline(text: Seq<char>)
    ensures
        0 <= first_newline(text) <= text.len(),
        forall|j: int| 0 <= j < first_newline(text) ==> text[j] != '\n',
        first_newline(text) < text.len() ==> text[first_newline(text)] == '\n',
    decreases text.len(),
{
    if !(text.len() == 0 || text[0] == '\n') {
        let rest = text.drop_first();
        lemma_first_newline(rest);
        assert forall|j: int| 0 <= j < first_newline(text) implies text[j] != '\n' by {
            if j > 0 {
                assert(text[j] == rest[j - 1]);
            }
        }
    }
}

/// A position that holds a line feed, or is the end of the text, and has no
/// line feed before it is `first_newline`.
pub proof fn lemma_first_newline_is(text: Seq<char>, end: int)
    requires
        0 <= end <= text.len(),
        forall|j: int| 0 <= j < end ==> text[j] != '\n',
        end < text.len() ==> text[end] == '\n',
    ensures
        first_newline(text) == end,
{
    lemma_first_newline(text);
}

/// A line as it is handed out: without the carriage return that may stand
/// before its line feed.
pub open spec fn without_return(line: Seq<char>) -> Seq<char> {
    if line.len() > 0 && line.last() == '\r' {
        line.drop_last()
    } else {
        line
    }
}

/// The lines of a text. A line ends at a line feed, or at a carriage return
/// followed by a line feed, and neither belongs to the line. What follows the
/// last line feed is a line of its own unless it is empty; it keeps a
/// carriage return at its end.
pub open spec fn lines(text: Seq<char>) -> Seq<Seq<char>>
    decreases text.len(),
{
    let end = first_newline(text);
    if text.len() == 0 {
        Seq::empty()
    } else if end == text.len() {
        seq![text]
    } else {
        proof {
            lemma_first_newline(text);
        }
        seq![without_return(text.take(end))] + lines(text.skip(end + 1))
    }
}

/// The character of the decimal digit `d`.
pub open spec fn digit(d: nat) -> char {
    ('0' as nat + d) as char
}

/// The decimal numeral of `n`, without leading zeros.
pub open spec fn decimal(n: nat) -> Seq<char>
    decreases n,
{
    if n < 10 {
        seq![digit(n)]
    } else {
        decimal(n / 10).push(digit(n % 10))
    }
}

/// Appends the decimal numeral of `n` to `out`.
pub fn push_decimal(out: &mut String, n: usize)
    ensures
        final(out)@ == old(out)@ + decimal(n as nat),
    decreases n,
{
    if n >= 10 {
        push_decimal(out, n / 10);
    }
    let d: u8 = (n % 10) as u8;
    out.push((48u8 + d) as char);
    proof {
        assert((48u8 + d) as char == digit((n % 10) as nat));
        if n >= 10 {
            assert(old(out)@ + decimal((n / 10) as nat).push(digit((n % 10) as nat)) == (old(out)@
                + decimal((n / 10) as nat)).push(digit((n % 10) as nat)));
        } else {
            assert(old(out)@ + seq![digit(n as nat)] == old(out)@.push(digit(n as nat)));
        }
    }
}

} // verus!
