//! Small operations on text: lines, trimming, searching for a character.

use vstd::prelude::*;
use vstd::std_specs::iter::IteratorSpec;
use vstd::string::StrSliceExecFns;
use vstd::string::StringExecFns;

verus! {

/// The contents of a list of strings.
pub open spec fn texts(strings: Seq<String>) -> Seq<Seq<char>> {
    strings.map_values(|s: String| s@)
}

/// Whether `c` is white space in the sense of the Unicode property
/// `White_Space`.
pub uninterp spec fn whitespace(c: char) -> bool;

/// `char::is_whitespace` of the standard library: whether the character has
/// the Unicode property `White_Space`.  The contract only names that
/// answer.
#[verifier::external_body]
fn is_whitespace(c: char) -> (b: bool)
    ensures
        b == whitespace(c),
{
    c.is_whitespace()
}

/// The index of the first `c` in `s`, or the length of `s` if there is
/// none.
pub open spec fn first_index(s: Seq<char>, c: char) -> int
    decreases s.len(),
{
    if s.len() == 0 || s[0] == c {
        0
    } else {
        1 + first_index(s.drop_first(), c)
    }
}

/// The number of white-space characters at the start of `s`.
pub open spec fn leading_space(s: Seq<char>) -> int
    decreases s.len(),
{
    if s.len() > 0 && whitespace(s[0]) {
        1 + leading_space(s.drop_first())
    } else {
        0
    }
}

/// The number of white-space characters at the end of `s`.
pub open spec fn trailing_space(s: Seq<char>) -> int
    decreases s.len(),
{
    if s.len() > 0 && whitespace(s.last()) {
        1 + trailing_space(s.drop_last())
    } else {
        0
    }
}

/// `s` without the white space at its start and at its end.
pub open spec fn trimmed(s: Seq<char>) -> Seq<char> {
    let rest = s.skip(leading_space(s));
    rest.take(rest.len() - trailing_space(rest))
}

/// A line without the carriage return that stood before its line feed.
pub open spec fn without_cr(line: Seq<char>) -> Seq<char> {
    if line.len() > 0 && line.last() == '\r' {
        line.drop_last()
    } else {
        line
    }
}

/// The lines of a text.  A line ends at a line feed; a carriage return
/// right before the line feed belongs to the line ending.  The last line
/// needs no line feed, and a text that ends in one has no empty line after
/// it.
pub open spec fn lines_of(s: Seq<char>) -> Seq<Seq<char>>
    decreases s.len(),
{
    if s.len() == 0 {
        Seq::empty()
    } else {
        let k = first_index(s, '\n');
        if k >= s.len() {
            seq![s]
        } else {
            proof {
                lemma_first_index(s, '\n');
            }
            seq![without_cr(s.take(k))] + lines_of(s.skip(k + 1))
        }
    }
}

/// The first index is an index of `s` or its length, no `c` stands before
/// it, and a `c` stands at it unless it is the length.
pub proof fn lemma_first_index(s: Seq<char>, c: char)
    ensures
        0 <= first_index(s, c) <= s.len(),
        forall|j: int| 0 <= j < first_index(s, c) ==> s[j] != c,
        first_index(s, c) < s.len() ==> s[first_index(s, c)] == c,
    decreases s.len(),
{
    if s.len() > 0 && s[0] != c {
        lemma_first_index(s.drop_first(), c);
        assert forall|j: int| 0 <= j < first_index(s, c) implies s[j] != c by {
            if j > 0 {
                assert(s[j] == s.drop_first()[j - 1]);
            }
        }
    }
}

proof fn lemma_first_index_is(s: Seq<char>, c: char, k: int)
    requires
        0 <= k <= s.len(),
        forall|j: int| 0 <= j < k ==> s[j] != c,
        k < s.len() ==> s[k] == c,
    ensures
        first_index(s, c) == k,
    decreases s.len(),
{
    if k > 0 {
        assert(s[0] != c);
        assert forall|j: int| 0 <= j < k - 1 implies s.drop_first()[j] != c by {
            assert(s.drop_first()[j] == s[j + 1]);
        }
        lemma_first_index_is(s.drop_first(), c, k - 1);
    }
}

proof fn lemma_leading_space_is(s: Seq<char>, k: int)
    requires
        0 <= k <= s.len(),
        forall|j: int| 0 <= j < k ==> whitespace(s[j]),
        k < s.len() ==> !whitespace(s[k]),
    ensures
        leading_space(s) == k,
    decreases s.len(),
{
    if k > 0 {
        assert(whitespace(s[0]));
        assert forall|j: int| 0 <= j < k - 1 implies whitespace(s.drop_first()[j]) by {
            assert(s.drop_first()[j] == s[j + 1]);
        }
        lemma_leading_space_is(s.drop_first(), k - 1);
    }
}

proof fn lemma_trailing_space_is(s: Seq<char>, k: int)
    requires
        0 <= k <= s.len(),
        forall|j: int| s.len() - k <= j < s.len() ==> whitespace(s[j]),
        k < s.len() ==> !whitespace(s[s.len() - k - 1]),
    ensures
        trailing_space(s) == k,
    decreases s.len(),
{
    if k > 0 {
        assert(whitespace(s.last()));
        lemma_trailing_space_is(s.drop_last(), k - 1);
    }
}

/// The characters of a string slice.
pub fn chars_of(s: &str) -> (chars: Vec<char>)
    ensures
        chars@ == s@,
{
    let n = s.unicode_len();
    let mut chars: Vec<char> = Vec::new();
    let mut it = s.chars();
    let mut i: usize = 0;
    while i < n
        invariant
            i <= n,
            n == s@.len(),
            chars@ == s@.take(i as int),
            it.remaining() == s@.skip(i as int),
            it.obeys_prophetic_iter_laws(),
        decreases n - i,
    {
        let ghost before = it;
        let next = it.next();
        proof {
            vstd::string::next_postcondition(&before, &it, next);
        }
        match next {
            Some(c) => {
                chars.push(c);
                proof {
                    assert(s@.skip(i as int)[0] == s@[i as int]);
                    assert(s@.skip(i as int).drop_first() =~= s@.skip(i as int + 1));
                    assert(s@.take(i as int + 1) =~= s@.take(i as int).push(c));
                }
            },
            None => {
                proof {
                    assert(false);
                }
            },
        }
        i = i + 1;
    }
    assert(s@.take(n as int) =~= s@);
    chars
}

/// The position of the first `c` at or after `start`, or the length of
/// `chars` if there is none, as also where `start` lies beyond the end.
pub fn position(chars: &Vec<char>, start: usize, c: char) -> (k: usize)
    ensures
        start <= chars.len() ==> k == start + first_index(chars@.skip(start as int), c),
        start <= chars.len() ==> start <= k,
        start > chars.len() ==> k == chars.len(),
        k <= chars.len(),
{
    if start > chars.len() {
        return chars.len();
    }
    let mut k: usize = start;
    while k < chars.len() && chars[k] != c
        invariant
            start <= k <= chars.len(),
            forall|j: int| start <= j < k ==> chars@[j] != c,
        decreases chars.len() - k,
    {
        k = k + 1;
    }
    proof {
        lemma_first_index_is(chars@.skip(start as int), c, k - start);
    }
    k
}

/// The part of `s` between its leading and its trailing white space.
pub fn trim<'a>(s: &'a str) -> (res: &'a str)
    ensures
        res@ == trimmed(s@),
{
    let chars = chars_of(s);
    let n = chars.len();
    let mut from: usize = 0;
    while from < n && is_whitespace(chars[from])
        invariant
            from <= n,
            n == chars.len(),
            forall|j: int| 0 <= j < from ==> whitespace(chars@[j]),
        decreases n - from,
    {
        from = from + 1;
    }
    let mut to: usize = n;
    while to > from && is_whitespace(chars[to - 1])
        invariant
            from <= to <= n,
            n == chars.len(),
            forall|j: int| to <= j < n ==> whitespace(chars@[j]),
        decreases to,
    {
        to = to - 1;
    }
    proof {
        lemma_leading_space_is(s@, from as int);
        lemma_trailing_space_is(s@.skip(from as int), n - to);
        assert(s@.skip(from as int).take(to - from) =~= s@.subrange(from as int, to as int));
    }
    s.substring_char(from, to)
}

/// The lines of `s`.
pub fn lines(s: &str) -> (res: Vec<String>)
    ensures
        texts(res@) == lines_of(s@),
{
    let chars = chars_of(s);
    let n = chars.len();
    let mut res: Vec<String> = Vec::new();
    let mut start: usize = 0;
    assert(texts(res@) =~= Seq::<Seq<char>>::empty());
    assert(s@.skip(0) =~= s@);
    while start < n
        invariant
            start <= n,
            n == chars.len(),
            chars@ == s@,
            lines_of(s@) == texts(res@) + lines_of(s@.skip(start as int)),
        decreases n - start,
    {
        let k = position(&chars, start, '\n');
        let ghost rest = s@.skip(start as int);
        let ghost done = texts(res@);
        proof {
            lemma_first_index(rest, '\n');
        }
        if k >= n {
            res.push(String::from_str(s.substring_char(start, n)));
            proof {
                assert(s@.subrange(start as int, n as int) =~= rest);
                assert(texts(res@) =~= done.push(rest));
                assert(lines_of(s@.skip(n as int)) =~= Seq::<Seq<char>>::empty());
                assert(lines_of(rest) =~= seq![rest]);
            }
            start = n;
        } else {
            let end = if k > start && chars[k - 1] == '\r' {
                k - 1
            } else {
                k
            };
            res.push(String::from_str(s.substring_char(start, end)));
            proof {
                let line = rest.take(k - start);
                assert(line =~= s@.subrange(start as int, k as int));
                assert(s@.subrange(start as int, end as int) =~= without_cr(line));
                assert(texts(res@) =~= done.push(without_cr(line)));
                assert(rest.skip(k - start + 1) =~= s@.skip(k as int + 1));
            }
            start = k + 1;
        }
    }
    proof {
        assert(lines_of(s@.skip(start as int)) =~= Seq::<Seq<char>>::empty());
    }
    res
}

/// Whether `s` begins with the character `c`.
pub fn starts_with_char(s: &str, c: char) -> (b: bool)
    ensures
        b == (s@.len() > 0 && s@[0] == c),
{
    let mut it = s.chars();
    let ghost before = it;
    let first = it.next();
    proof {
        vstd::string::next_postcondition(&before, &it, first);
    }
    match first {
        Some(found) => found == c,
        None => false,
    }
}

} // verus!
