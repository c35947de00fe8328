//! Characters and strings: ASCII case folding, prefixes, subsequences and
//! splitting, all stated over sequences of characters.

use vstd::prelude::*;
use vstd::utf8::{decode_utf8, valid_utf8};

verus! {

/// The ASCII lowercase equivalent of a character; other characters stay.
pub open spec fn fold_char(c: char) -> char {
    if 'A' <= c && c <= 'Z' {
        ((c as u8) + 32u8) as char
    } else {
        c
    }
}

/// A string with every character folded to ASCII lowercase.
pub open spec fn fold(s: Seq<char>) -> Seq<char> {
    Seq::new(s.len(), |i: int| fold_char(s[i]))
}

/// The characters of `p` occur in `t` in the same order, not necessarily
/// next to each other.
pub open spec fn is_subsequence(p: Seq<char>, t: Seq<char>) -> bool
    decreases t.len(),
{
    if p.len() == 0 {
        true
    } else if t.len() == 0 {
        false
    } else if p[0] == t[0] {
        is_subsequence(p.drop_first(), t.drop_first())
    } else {
        is_subsequence(p, t.drop_first())
    }
}

/// `at` says where each character of `p` is found in `t`: one position for
/// each character, the positions in rising order.
pub open spec fn is_embedding(at: Seq<int>, p: Seq<char>, t: Seq<char>) -> bool {
    &&& at.len() == p.len()
    &&& forall|i: int| 0 <= i < at.len() ==> 0 <= #[trigger] at[i] < t.len() && t[at[i]] == p[i]
    &&& forall|i: int, j: int| 0 <= i < j < at.len() ==> #[trigger] at[i] < #[trigger] at[j]
}

/// The characters of `p` are found in `t` at positions in rising order.
pub open spec fn occurs_in_order(p: Seq<char>, t: Seq<char>) -> bool {
    exists|at: Seq<int>| is_embedding(at, p, t)
}

/// A subsequence is found at positions in rising order.
pub proof fn lemma_subsequence_embeds(p: Seq<char>, t: Seq<char>)
    requires
        is_subsequence(p, t),
    ensures
        occurs_in_order(p, t),
    decreases t.len(),
{
    if p.len() == 0 {
        assert(is_embedding(Seq::<int>::empty(), p, t));
    } else if p[0] == t[0] {
        lemma_subsequence_embeds(p.drop_first(), t.drop_first());
        let rest = choose|at: Seq<int>| is_embedding(at, p.drop_first(), t.drop_first());
        let at = Seq::new(
            p.len(),
            |i: int|
                if i == 0 {
                    0
                } else {
                    rest[i - 1] + 1
                },
        );
        assert forall|i: int| 0 <= i < at.len() implies 0 <= #[trigger] at[i] < t.len() && t[at[i]]
            == p[i] by {
            if i > 0 {
                assert(t.drop_first()[rest[i - 1]] == p.drop_first()[i - 1]);
            }
        }
        assert forall|i: int, j: int| 0 <= i < j < at.len() implies #[trigger] at[i]
            < #[trigger] at[j] by {
            if i > 0 {
                assert(rest[i - 1] < rest[j - 1]);
            } else {
                assert(rest[j - 1] >= 0);
            }
        }
        assert(is_embedding(at, p, t));
    } else {
        lemma_subsequence_embeds(p, t.drop_first());
        let rest = choose|at: Seq<int>| is_embedding(at, p, t.drop_first());
        let at = Seq::new(p.len(), |i: int| rest[i] + 1);
        assert forall|i: int| 0 <= i < at.len() implies 0 <= #[trigger] at[i] < t.len() && t[at[i]]
            == p[i] by {
            assert(t.drop_first()[rest[i]] == p[i]);
        }
        assert forall|i: int, j: int| 0 <= i < j < at.len() implies #[trigger] at[i]
            < #[trigger] at[j] by {
            assert(rest[i] < rest[j]);
        }
        assert(is_embedding(at, p, t));
    }
}

/// What is found at positions in rising order is a subsequence.
pub proof fn lemma_embedding_is_subsequence(at: Seq<int>, p: Seq<char>, t: Seq<char>)
    requires
        is_embedding(at, p, t),
    ensures
        is_subsequence(p, t),
    decreases t.len(),
{
    if p.len() > 0 {
        assert(0 <= at[0] < t.len());
        if p[0] == t[0] {
            let rest = Seq::new((p.len() - 1) as nat, |i: int| at[i + 1] - 1);
            assert forall|i: int| 0 <= i < rest.len() implies 0 <= #[trigger] rest[i]
                < t.drop_first().len() && t.drop_first()[rest[i]] == p.drop_first()[i] by {
                assert(at[0] < at[i + 1]);
                assert(t[at[i + 1]] == p[i + 1]);
            }
            assert forall|i: int, j: int| 0 <= i < j < rest.len() implies #[trigger] rest[i]
                < #[trigger] rest[j] by {
                assert(at[i + 1] < at[j + 1]);
            }
            lemma_embedding_is_subsequence(rest, p.drop_first(), t.drop_first());
        } else {
            let rest = Seq::new(p.len(), |i: int| at[i] - 1);
            assert forall|i: int| 0 <= i < rest.len() implies 0 <= #[trigger] rest[i]
                < t.drop_first().len() && t.drop_first()[rest[i]] == p[i] by {
                if i > 0 {
                    assert(at[0] < at[i]);
                }
                assert(t[at[i]] == p[i]);
            }
            assert forall|i: int, j: int| 0 <= i < j < rest.len() implies #[trigger] rest[i]
                < #[trigger] rest[j] by {
                assert(at[i] < at[j]);
            }
            lemma_embedding_is_subsequence(rest, p, t.drop_first());
        }
    }
}

/// Every character is a dot, and there is at least one.
pub open spec fn only_dots(s: Seq<char>) -> bool {
    s.len() > 0 && forall|i: int| 0 <= i < s.len() ==> s[i] == '.'
}

/// The pieces of a text between the occurrences of a separator. There is
/// always at least one piece; a piece is empty where two separators meet and
/// where the text begins or ends with one.
pub open spec fn split(s: Seq<char>, separator: char) -> Seq<Seq<char>>
    decreases s.len(),
{
    if s.len() == 0 {
        seq![Seq::<char>::empty()]
    } else {
        let before = split(s.drop_last(), separator);
        if s.last() == separator {
            before.push(Seq::<char>::empty())
        } else {
            before.drop_last().push(before.last().push(s.last()))
        }
    }
}

/// A split text has at least one piece.
pub proof fn lemma_split_nonempty(s: Seq<char>, separator: char)
    ensures
        split(s, separator).len() >= 1,
    decreases s.len(),
{
    if s.len() > 0 {
        lemma_split_nonempty(s.drop_last(), separator);
    }
}

/// A text that does not begin with the separator begins with a piece that
/// is not empty.
pub proof fn lemma_split_first_piece(s: Seq<char>, separator: char)
    requires
        s.len() > 0,
        s[0] != separator,
    ensures
        split(s, separator).len() >= 1,
        split(s, separator)[0].len() > 0,
    decreases s.len(),
{
    lemma_split_nonempty(s.drop_last(), separator);
    if s.len() > 1 {
        assert(s.drop_last()[0] == s[0]);
        lemma_split_first_piece(s.drop_last(), separator);
    }
}

/// The views of a list of lists.
pub open spec fn rows(v: Seq<Vec<char>>) -> Seq<Seq<char>> {
    Seq::new(v.len(), |i: int| v[i]@)
}

/// The views of a list of strings.
pub open spec fn views(v: Seq<String>) -> Seq<Seq<char>> {
    Seq::new(v.len(), |i: int| v[i]@)
}

pub assume_specification[ String::push ](s: &mut String, c: char)
    ensures
        final(s)@ == old(s)@.push(c),
;

/// Calls `std::str::from_utf8`, which accepts the bytes where they are valid
/// UTF-8 and then gives the text that they encode.
#[verifier::external_body]
pub(crate) fn decode(bytes: &[u8]) -> (r: Option<&str>)
    ensures
        r is Some <==> valid_utf8(bytes@),
        r matches Some(text) ==> text@ == decode_utf8(bytes@),
{
    std::str::from_utf8(bytes).ok()
}

/// The characters of a string, in order.
pub fn to_chars(s: &str) -> (r: Vec<char>)
    ensures
        r@ == s@,
{
    let mut out: Vec<char> = Vec::new();
    for c in it: s.chars()
        invariant
            out@ == s@.take(it.index() as int),
            it.seq() == s@,
    {
        out.push(c);
    }
    out
}

/// The string made of the given characters.
pub fn from_chars(v: &Vec<char>) -> (r: String)
    ensures
        r@ == v@,
{
    let mut out = String::new();
    let mut i: usize = 0;
    while i < v.len()
        invariant
            i <= v.len(),
            out@ == v@.take(i as int),
        decreases v.len() - i,
    {
        out.push(v[i]);
        i += 1;
    }
    assert(v@.take(v.len() as int) =~= v@);
    out
}

/// Folds one character to ASCII lowercase.
pub fn fold_one(c: char) -> (r: char)
    ensures
        r == fold_char(c),
{
    if 'A' <= c && c <= 'Z' {
        ((c as u8) + 32u8) as char
    } else {
        c
    }
}

/// The characters of a string, folded to ASCII lowercase.
pub fn folded_chars(s: &str) -> (r: Vec<char>)
    ensures
        r@ == fold(s@),
{
    let chars = to_chars(s);
    let mut out: Vec<char> = Vec::new();
    let mut i: usize = 0;
    while i < chars.len()
        invariant
            i <= chars.len(),
            chars@ == s@,
            out@ == fold(s@).take(i as int),
        decreases chars.len() - i,
    {
        out.push(fold_one(chars[i]));
        assert(out@ =~= fold(s@).take(i + 1));
        i += 1;
    }
    assert(fold(s@).take(chars.len() as int) =~= fold(s@));
    out
}

/// A copy of the string with ASCII letters in lowercase.
pub fn to_lowercase(s: &str) -> (r: String)
    ensures
        r@ == fold(s@),
{
    let chars = folded_chars(s);
    from_chars(&chars)
}

/// Whether two lists of characters are the same.
pub fn same_chars(a: &Vec<char>, b: &Vec<char>) -> (r: bool)
    ensures
        r == (a@ == b@),
{
    if a.len() != b.len() {
        return false;
    }
    let mut i: usize = 0;
    while i < a.len()
        invariant
            i <= a.len(),
            a.len() == b.len(),
            a@.take(i as int) == b@.take(i as int),
        decreases a.len() - i,
    {
        if a[i] != b[i] {
            return false;
        }
        assert(a@.take(i + 1) =~= a@.take(i as int).push(a@[i as int]));
        assert(b@.take(i + 1) =~= b@.take(i as int).push(b@[i as int]));
        i += 1;
    }
    assert(a@.take(a.len() as int) =~= a@);
    assert(b@.take(b.len() as int) =~= b@);
    true
}

/// Whether two strings hold the same characters.
pub fn same_text(a: &str, b: &str) -> (r: bool)
    ensures
        r == (a@ == b@),
{
    let x = to_chars(a);
    let y = to_chars(b);
    same_chars(&x, &y)
}

/// Whether `p` is what `t` begins with.
pub fn starts_with(t: &Vec<char>, p: &Vec<char>) -> (r: bool)
    ensures
        r == p@.is_prefix_of(t@),
{
    if p.len() > t.len() {
        return false;
    }
    let mut i: usize = 0;
    while i < p.len()
        invariant
            i <= p.len(),
            p.len() <= t.len(),
            forall|k: int| 0 <= k < i ==> p@[k] == t@[k],
        decreases p.len() - i,
    {
        if p[i] != t[i] {
            return false;
        }
        i += 1;
    }
    assert(p@ =~= t@.subrange(0, p@.len() as int));
    true
}

/// The subsequence test does not change when both strings lose a first
/// character that the pattern did not need, nor when a matched pair leaves.
proof fn lemma_subsequence_step(p: Seq<char>, t: Seq<char>, j: int, i: int)
    requires
        0 <= j < p.len(),
        0 <= i < t.len(),
    ensures
        is_subsequence(p.skip(j), t.skip(i)) == if p[j] == t[i] {
            is_subsequence(p.skip(j + 1), t.skip(i + 1))
        } else {
            is_subsequence(p.skip(j), t.skip(i + 1))
        },
{
    assert(p.skip(j).drop_first() =~= p.skip(j + 1));
    assert(t.skip(i).drop_first() =~= t.skip(i + 1));
}

/// Whether the characters of `p` occur in `t` in order.
pub fn subsequence_of(p: &Vec<char>, t: &Vec<char>) -> (r: bool)
    ensures
        r == is_subsequence(p@, t@),
{
    let mut i: usize = 0;
    let mut j: usize = 0;
    assert(p@.skip(0) =~= p@ && t@.skip(0) =~= t@);
    while i < t.len() && j < p.len()
        invariant
            i <= t.len(),
            j <= p.len(),
            is_subsequence(p@, t@) == is_subsequence(p@.skip(j as int), t@.skip(i as int)),
        decreases t.len() - i,
    {
        proof {
            lemma_subsequence_step(p@, t@, j as int, i as int);
        }
        if p[j] == t[i] {
            j += 1;
        }
        i += 1;
    }
    j == p.len()
}

/// Cuts a text at every occurrence of the separator.
pub fn split_chars(s: &Vec<char>, separator: char) -> (r: Vec<Vec<char>>)
    ensures
        rows(r@) == split(s@, separator),
        r.len() >= 1,
{
    let mut done: Vec<Vec<char>> = Vec::new();
    let mut piece: Vec<char> = Vec::new();
    let mut i: usize = 0;
    assert(s@.take(0) =~= Seq::<char>::empty());
    assert(rows(done@).push(piece@) =~= split(s@.take(0), separator));
    while i < s.len()
        invariant
            i <= s.len(),
            rows(done@).push(piece@) == split(s@.take(i as int), separator),
        decreases s.len() - i,
    {
        let ghost before = split(s@.take(i as int), separator);
        assert(s@.take(i + 1).drop_last() =~= s@.take(i as int));
        assert(s@.take(i + 1).last() == s@[i as int]);
        assert(before.last() == piece@);
        assert(before.drop_last() =~= rows(done@));
        if s[i] == separator {
            done.push(piece);
            piece = Vec::new();
            assert(rows(done@).push(piece@) =~= before.push(Seq::<char>::empty()));
        } else {
            piece.push(s[i]);
            assert(rows(done@).push(piece@) =~= before.drop_last().push(
                before.last().push(s@[i as int]),
            ));
        }
        i += 1;
    }
    assert(s@.take(s.len() as int) =~= s@);
    done.push(piece);
    assert(rows(done@) =~= split(s@, separator));
    done
}

/// Whether the string is made of dots alone, at least one.
pub fn all_dots(s: &Vec<char>) -> (r: bool)
    ensures
        r == only_dots(s@),
{
    if s.len() == 0 {
        return false;
    }
    let mut i: usize = 0;
    while i < s.len()
        invariant
            i <= s.len(),
            forall|k: int| 0 <= k < i ==> s@[k] == '.',
        decreases s.len() - i,
    {
        if s[i] != '.' {
            return false;
        }
        i += 1;
    }
    true
}

} // verus!
