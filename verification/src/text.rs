//! Small text operations on which the command grammar is built: comparing,
//! testing for a prefix, and splitting into pieces.
//!
//! Strings are modelled as sequences of characters. Positions count
//! characters, not bytes.

use vstd::prelude::*;

verus! {

/// Whether `c` is white space: one of the characters with the Unicode
/// property `White_Space`.
pub open spec fn is_whitespace_spec(c: char) -> bool {
    let u = c as u32;
    ||| 0x9 <= u <= 0xd
    ||| u == 0x20
    ||| u == 0x85
    ||| u == 0xa0
    ||| u == 0x1680
    ||| 0x2000 <= u <= 0x200a
    ||| u == 0x2028
    ||| u == 0x2029
    ||| u == 0x202f
    ||| u == 0x205f
    ||| u == 0x3000
}

/// Whether `c` is white space.
pub fn is_whitespace(c: char) -> (r: bool)
    ensures
        r == is_whitespace_spec(c),
{
    let u: u32 = c as u32;
    (0x9 <= u && u <= 0xd) || u == 0x20 || u == 0x85 || u == 0xa0 || u == 0x1680 || (0x2000 <= u
        && u <= 0x200a) || u == 0x2028 || u == 0x2029 || u == 0x202f || u == 0x205f || u == 0x3000
}

/// The models of a sequence of strings.
pub open spec fn strings_view(strings: Seq<String>) -> Seq<Seq<char>> {
    strings.map_values(|s: String| s@)
}

/// Whether `a` and `b` hold the same characters.
pub fn str_eq(a: &str, b: &str) -> (r: bool)
    ensures
        r == (a@ == b@),
{
    let n: usize = a.unicode_len();
    if b.unicode_len() != n {
        return false;
    }
    let mut i: usize = 0;
    while i < n
        invariant
            n == a@.len(),
            n == b@.len(),
            i <= n,
            forall|j: int| 0 <= j < i ==> a@[j] == b@[j],
        decreases n - i,
    {
        if a.get_char(i) != b.get_char(i) {
            return false;
        }
        i = i + 1;
    }
    assert(a@ =~= b@);
    true
}

/// Whether `s` begins with `prefix`.
pub fn starts_with(s: &str, prefix: &str) -> (r: bool)
    ensures
        r == prefix@.is_prefix_of(s@),
{
    let n: usize = prefix.unicode_len();
    if s.unicode_len() < n {
        return false;
    }
    let mut i: usize = 0;
    while i < n
        invariant
            n == prefix@.len(),
            n <= s@.len(),
            i <= n,
            forall|j: int| 0 <= j < i ==> s@[j] == prefix@[j],
        decreases n - i,
    {
        if s.get_char(i) != prefix.get_char(i) {
            return false;
        }
        i = i + 1;
    }
    true
}

/// The pieces of `s` between occurrences of `separator`, in order. There is
/// one piece more than there are separators; a piece is empty where two
/// separators meet and where `s` begins or ends with one.
pub open spec fn split_spec(s: Seq<char>, separator: char) -> Seq<Seq<char>>
    decreases s.len(),
{
    if s.len() == 0 {
        seq![Seq::empty()]
    } else {
        let before = split_spec(s.drop_last(), separator);
        if s.last() == separator {
            before.push(Seq::empty())
        } else {
            before.update(before.len() - 1, before.last().push(s.last()))
        }
    }
}

/// The words of `s`: its maximal runs of characters that are not white
/// space, in order.
pub open spec fn words_spec(s: Seq<char>) -> Seq<Seq<char>>
    decreases s.len(),
{
    if s.len() == 0 {
        Seq::empty()
    } else {
        let before = words_spec(s.drop_last());
        if is_whitespace_spec(s.last()) {
            before
        } else if s.len() >= 2 && !is_whitespace_spec(s[s.len() - 2]) {
            before.update(before.len() - 1, before.last().push(s.last()))
        } else {
            before.push(seq![s.last()])
        }
    }
}

/// The pieces `pieces` written one after the other with `separator` between
/// neighbours.
pub open spec fn join_spec(pieces: Seq<Seq<char>>, separator: char) -> Seq<char>
    decreases pieces.len(),
{
    if pieces.len() == 0 {
        Seq::empty()
    } else if pieces.len() == 1 {
        pieces[0]
    } else {
        join_spec(pieces.drop_last(), separator).push(separator) + pieces.last()
    }
}

/// Splitting loses nothing and leaves no separator behind: there is at least
/// one piece, no piece holds the separator, and the pieces joined with the
/// separator give back the text.
pub proof fn lemma_split_rejoins(s: Seq<char>, separator: char)
    ensures
        split_spec(s, separator).len() >= 1,
        join_spec(split_spec(s, separator), separator) == s,
        forall|i: int, j: int|
            0 <= i < split_spec(s, separator).len() && 0 <= j < split_spec(s, separator)[i].len()
                ==> #[trigger] split_spec(s, separator)[i][j] != separator,
    decreases s.len(),
{
    let pieces = split_spec(s, separator);
    if s.len() > 0 {
        let before = split_spec(s.drop_last(), separator);
        lemma_split_rejoins(s.drop_last(), separator);
        if s.last() == separator {
            assert(pieces.drop_last() =~= before);
        } else if before.len() > 1 {
            assert(pieces.drop_last() =~= before.drop_last());
            assert(join_spec(pieces, separator) =~= join_spec(before, separator).push(s.last()));
        }
    }
}

/// The test that keeps the characters that are not white space.
pub open spec fn non_whitespace() -> spec_fn(char) -> bool {
    |c: char| !is_whitespace_spec(c)
}

/// The words of a text are its characters other than white space, cut into
/// runs: no word is empty, no word holds white space, and the words written
/// one after the other are the text with its white space taken out.
pub proof fn lemma_words_are_runs(s: Seq<char>)
    ensures
        forall|i: int| 0 <= i < words_spec(s).len() ==> (#[trigger] words_spec(s)[i]).len() > 0,
        forall|i: int, j: int|
            0 <= i < words_spec(s).len() && 0 <= j < words_spec(s)[i].len()
                ==> !is_whitespace_spec(#[trigger] words_spec(s)[i][j]),
        words_spec(s).flatten() == s.filter(non_whitespace()),
        s.len() > 0 && !is_whitespace_spec(s.last()) ==> words_spec(s).len() > 0,
    decreases s.len(),
{
    reveal(Seq::filter);
    let words = words_spec(s);
    if s.len() > 0 {
        let before = words_spec(s.drop_last());
        let c = s.last();
        lemma_words_are_runs(s.drop_last());
        if is_whitespace_spec(c) {
        } else if s.len() >= 2 && !is_whitespace_spec(s[s.len() - 2]) {
            let grown = before.last().push(c);
            assert(words =~= before.drop_last().push(grown));
            assert(before =~= before.drop_last().push(before.last()));
            before.drop_last().lemma_flatten_push(grown);
            before.drop_last().lemma_flatten_push(before.last());
        } else {
            before.lemma_flatten_push(seq![c]);
        }
    }
}

/// Splits `s` at every occurrence of `separator`.
pub fn split(s: &str, separator: char) -> (pieces: Vec<String>)
    ensures
        strings_view(pieces@) == split_spec(s@, separator),
{
    let n: usize = s.unicode_len();
    let mut pieces: Vec<String> = Vec::new();
    let mut start: usize = 0;
    let mut i: usize = 0;
    assert(s@.take(0) =~= Seq::<char>::empty());
    while i < n
        invariant
            n == s@.len(),
            start <= i <= n,
            split_spec(s@.take(i as int), separator) == strings_view(pieces@).push(
                s@.subrange(start as int, i as int),
            ),
        decreases n - i,
    {
        assert(s@.take(i + 1).drop_last() =~= s@.take(i as int));
        if s.get_char(i) == separator {
            pieces.push(s.substring_char(start, i).to_owned());
            start = i + 1;
            assert(s@.subrange(start as int, i + 1) =~= Seq::<char>::empty());
        } else {
            assert(s@.subrange(start as int, i + 1) =~= s@.subrange(start as int, i as int).push(
                s@[i as int],
            ));
        }
        i = i + 1;
    }
    pieces.push(s.substring_char(start, n).to_owned());
    assert(s@.take(n as int) =~= s@);
    pieces
}

/// Splits `s` into its words, dropping all white space.
pub fn split_whitespace(s: &str) -> (words: Vec<String>)
    ensures
        strings_view(words@) == words_spec(s@),
{
    let n: usize = s.unicode_len();
    let mut words: Vec<String> = Vec::new();
    let mut start: usize = 0;
    let mut in_word: bool = false;
    let mut i: usize = 0;
    while i < n
        invariant
            n == s@.len(),
            start <= i <= n,
            in_word ==> start < i && !is_whitespace_spec(s@[i - 1]) && words_spec(
                s@.take(i as int),
            ) == strings_view(words@).push(s@.subrange(start as int, i as int)),
            !in_word ==> (i == 0 || is_whitespace_spec(s@[i - 1])) && words_spec(
                s@.take(i as int),
            ) == strings_view(words@),
        decreases n - i,
    {
        assert(s@.take(i + 1).drop_last() =~= s@.take(i as int));
        if is_whitespace(s.get_char(i)) {
            if in_word {
                words.push(s.substring_char(start, i).to_owned());
                in_word = false;
            }
        } else if in_word {
            assert(s@.subrange(start as int, i + 1) =~= s@.subrange(start as int, i as int).push(
                s@[i as int],
            ));
        } else {
            start = i;
            in_word = true;
            assert(s@.subrange(i as int, i + 1) =~= seq![s@[i as int]]);
        }
        i = i + 1;
    }
    assert(s@.take(n as int) =~= s@);
    if in_word {
        words.push(s.substring_char(start, n).to_owned());
    }
    words
}

} // verus!
