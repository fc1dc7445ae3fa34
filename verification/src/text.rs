//! Cutting text into pieces: at a separator character, and at white space.
//!
//! Text is modelled as `Seq<char>`. `split` gives the pieces between the
//! occurrences of a separator, and `join` puts them back together; the two
//! are inverse to each other on pieces that hold no separator. `words` gives
//! the maximal runs of characters that are not white space.

use vstd::prelude::*;

verus! {

/// The views of a run of strings.
pub open spec fn texts(items: Seq<String>) -> Seq<Seq<char>> {
    Seq::new(items.len(), |i: int| items[i]@)
}

/// The pieces of `s` between the occurrences of `sep`. A separator closes
/// the piece before it and opens a new, empty one; every other character
/// extends the last piece. There is always at least one piece, and `n`
/// separators give `n + 1` pieces.
pub open spec fn split(s: Seq<char>, sep: char) -> Seq<Seq<char>>
    decreases s.len(),
{
    if s.len() == 0 {
        seq![Seq::<char>::empty()]
    } else {
        let before = split(s.drop_last(), sep);
        if s.last() == sep {
            before.push(Seq::<char>::empty())
        } else {
            before.drop_last().push(before.last().push(s.last()))
        }
    }
}

/// The pieces put together again, with one `sep` between neighbours.
pub open spec fn join(pieces: Seq<Seq<char>>, sep: char) -> Seq<char>
    decreases pieces.len(),
{
    if pieces.len() == 0 {
        Seq::<char>::empty()
    } else if pieces.len() == 1 {
        pieces[0]
    } else {
        join(pieces.drop_last(), sep).push(sep) + pieces.last()
    }
}

/// How often `c` occurs in `s`.
pub open spec fn count(s: Seq<char>, c: char) -> nat
    decreases s.len(),
{
    if s.len() == 0 {
        0
    } else {
        count(s.drop_last(), c) + if s.last() == c {
            1nat
        } else {
            0nat
        }
    }
}

/// Whether no character of `s` is `c`.
pub open spec fn free_of(s: Seq<char>, c: char) -> bool {
    forall|i: int| 0 <= i < s.len() ==> s[i] != c
}

/// A text with `n` separators has `n + 1` pieces.
pub proof fn lemma_split_len(s: Seq<char>, sep: char)
    ensures
        split(s, sep).len() == count(s, sep) + 1,
    decreases s.len(),
{
    if s.len() > 0 {
        lemma_split_len(s.drop_last(), sep);
    }
}

/// No piece of a split holds the separator.
pub proof fn lemma_split_pieces_free(s: Seq<char>, sep: char)
    ensures
        forall|k: int| 0 <= k < split(s, sep).len() ==> free_of(#[trigger] split(s, sep)[k], sep),
    decreases s.len(),
{
    if s.len() > 0 {
        lemma_split_len(s.drop_last(), sep);
        lemma_split_pieces_free(s.drop_last(), sep);
        let before = split(s.drop_last(), sep);
        assert forall|k: int| 0 <= k < split(s, sep).len() implies free_of(
            #[trigger] split(s, sep)[k],
            sep,
        ) by {
            if k < before.len() - 1 {
                assert(split(s, sep)[k] == before[k]);
            } else if s.last() != sep {
                assert(free_of(before.last(), sep));
            }
        }
    }
}

/// Joining the pieces of a split gives the text back.
pub proof fn lemma_join_split(s: Seq<char>, sep: char)
    ensures
        join(split(s, sep), sep) == s,
    decreases s.len(),
{
    if s.len() == 0 {
        assert(split(s, sep)[0] =~= s);
    } else {
        let head = s.drop_last();
        let before = split(head, sep);
        lemma_split_len(head, sep);
        lemma_join_split(head, sep);
        if s.last() == sep {
            let now = before.push(Seq::<char>::empty());
            assert(now.drop_last() =~= before);
            assert(join(now, sep) =~= head.push(sep));
            assert(head.push(sep) =~= s);
        } else {
            let now = before.drop_last().push(before.last().push(s.last()));
            if before.len() == 1 {
                assert(join(before, sep) == before[0]);
                assert(now[0] =~= head.push(s.last()));
            } else {
                assert(now.drop_last() =~= before.drop_last());
                assert(join(now, sep) =~= join(before, sep).push(s.last()));
            }
            assert(head.push(s.last()) =~= s);
        }
    }
}

/// Splitting a join gives the pieces back, when there is at least one piece
/// and none of them holds the separator.
pub proof fn lemma_split_join(pieces: Seq<Seq<char>>, sep: char)
    requires
        pieces.len() >= 1,
        forall|k: int| 0 <= k < pieces.len() ==> free_of(#[trigger] pieces[k], sep),
    ensures
        split(join(pieces, sep), sep) == pieces,
    decreases pieces.len(),
{
    if pieces.len() == 1 {
        lemma_split_free(pieces[0], sep);
        assert(seq![pieces[0]] =~= pieces);
    } else {
        let front = pieces.drop_last();
        assert forall|k: int| 0 <= k < front.len() implies free_of(#[trigger] front[k], sep) by {
            assert(front[k] == pieces[k]);
        }
        lemma_split_join(front, sep);
        lemma_split_append_free(join(front, sep).push(sep), pieces.last(), sep);
        let opened = join(front, sep).push(sep);
        assert(opened.drop_last() =~= join(front, sep));
        assert(split(opened, sep) == front.push(Seq::<char>::empty()));
        assert(front.push(Seq::<char>::empty()).drop_last() =~= front);
        assert(Seq::<char>::empty() + pieces.last() =~= pieces.last());
        assert(front.push(pieces.last()) =~= pieces);
    }
}

/// A text without the separator is its own single piece.
pub proof fn lemma_split_free(s: Seq<char>, sep: char)
    requires
        free_of(s, sep),
    ensures
        split(s, sep) == seq![s],
    decreases s.len(),
{
    if s.len() == 0 {
        assert(s =~= Seq::<char>::empty());
    } else {
        let head = s.drop_last();
        lemma_split_free(head, sep);
        assert(head.push(s.last()) =~= s);
        assert(seq![head].drop_last().push(head.push(s.last())) =~= seq![s]);
    }
}

/// Text without the separator, added at the end, only extends the last piece.
pub proof fn lemma_split_append_free(s: Seq<char>, tail: Seq<char>, sep: char)
    requires
        free_of(tail, sep),
    ensures
        split(s + tail, sep) == split(s, sep).drop_last().push(split(s, sep).last() + tail),
    decreases tail.len(),
{
    lemma_split_len(s, sep);
    let pieces = split(s, sep);
    if tail.len() == 0 {
        assert(s + tail =~= s);
        assert(pieces.last() + tail =~= pieces.last());
        assert(pieces.drop_last().push(pieces.last()) =~= pieces);
    } else {
        let shorter = tail.drop_last();
        lemma_split_append_free(s, shorter, sep);
        assert((s + tail).drop_last() =~= s + shorter);
        assert((s + tail).last() == tail.last());
        let mid = pieces.drop_last().push(pieces.last() + shorter);
        assert(mid.drop_last() =~= pieces.drop_last());
        assert((pieces.last() + shorter).push(tail.last()) =~= pieces.last() + tail);
    }
}

/// The characters of `s`, one by one.
pub fn chars_of(s: &str) -> (chars: Vec<char>)
    ensures
        chars@ == s@,
{
    let mut chars: Vec<char> = Vec::new();
    for c in it: s.chars()
        invariant
            it.seq() == s@,
            chars@ == it.seq().take(it.index() as int),
    {
        chars.push(c);
    }
    chars
}

/// Cuts `s` at every `sep`; see `split`.
pub fn split_text(s: &str, sep: char) -> (pieces: Vec<String>)
    ensures
        texts(pieces@) == split(s@, sep),
{
    let chars = chars_of(s);
    let n: usize = chars.len();
    let mut pieces: Vec<String> = Vec::new();
    let mut start: usize = 0;
    let mut i: usize = 0;
    assert(s@.take(0) =~= Seq::<char>::empty());
    assert(texts(pieces@).push(s@.subrange(0, 0)) =~= seq![Seq::<char>::empty()]);
    while i < n
        invariant
            chars@ == s@,
            n == s@.len(),
            start <= i <= n,
            split(s@.take(i as int), sep) == texts(pieces@).push(s@.subrange(start as int, i as int)),
        decreases n - i,
    {
        let ghost before = texts(pieces@);
        let ghost open = s@.subrange(start as int, i as int);
        assert(s@.take(i + 1).drop_last() =~= s@.take(i as int));
        assert(s@.take(i + 1).last() == s@[i as int]);
        if chars[i] == sep {
            pieces.push(s.substring_char(start, i).to_owned());
            assert(texts(pieces@) =~= before.push(open));
            start = i + 1;
            assert(s@.subrange(start as int, i + 1) =~= Seq::<char>::empty());
        } else {
            assert(before.push(open).drop_last() =~= before);
            assert(open.push(s@[i as int]) =~= s@.subrange(start as int, i + 1));
        }
        i += 1;
    }
    let ghost before = texts(pieces@);
    pieces.push(s.substring_char(start, n).to_owned());
    assert(texts(pieces@) =~= before.push(s@.subrange(start as int, n as int)));
    assert(s@.take(n as int) =~= s@);
    pieces
}

/// Whether `c` has the Unicode property `White_Space`.
pub open spec fn is_whitespace(c: char) -> bool {
    let u = c as u32;
    ||| 0x09 <= u <= 0x0d
    ||| u == 0x20
    ||| u == 0x85
    ||| u == 0xa0
    ||| u == 0x1680
    ||| 0x2000 <= u <= 0x200a
    ||| u == 0x2028
    ||| u == 0x2029
    ||| u == 0x202f
    ||| u == 0x205f
    ||| u == 0x3000
}

/// The words of `s`: its maximal runs of characters that are not white
/// space, in order. A character that is not white space extends the last
/// word if the character before it belongs to one, and opens a new word
/// otherwise.
pub open spec fn words(s: Seq<char>) -> Seq<Seq<char>>
    decreases s.len(),
{
    if s.len() == 0 {
        Seq::<Seq<char>>::empty()
    } else {
        let before = words(s.drop_last());
        if is_whitespace(s.last()) {
            before
        } else if s.len() >= 2 && !is_whitespace(s[s.len() - 2]) {
            before.drop_last().push(before.last().push(s.last()))
        } else {
            before.push(seq![s.last()])
        }
    }
}

/// Whether `w` is not empty and holds no white space.
pub open spec fn is_word(w: Seq<char>) -> bool {
    w.len() > 0 && forall|i: int| 0 <= i < w.len() ==> !is_whitespace(w[i])
}

/// Every word is a word: not empty, and without white space. A text that
/// ends in a character that is not white space has at least one word.
pub proof fn lemma_words_are_words(s: Seq<char>)
    ensures
        forall|k: int| 0 <= k < words(s).len() ==> is_word(#[trigger] words(s)[k]),
        s.len() > 0 && !is_whitespace(s.last()) ==> words(s).len() > 0,
    decreases s.len(),
{
    if s.len() > 0 {
        let head = s.drop_last();
        lemma_words_are_words(head);
        let before = words(head);
        assert forall|k: int| 0 <= k < words(s).len() implies is_word(#[trigger] words(s)[k]) by {
            if is_whitespace(s.last()) {
            } else if s.len() >= 2 && !is_whitespace(s[s.len() - 2]) {
                assert(head.last() == s[s.len() - 2]);
                if k < before.len() - 1 {
                    assert(words(s)[k] == before[k]);
                } else {
                    assert(is_word(before.last()));
                }
            } else {
                if k < before.len() {
                    assert(words(s)[k] == before[k]);
                }
            }
        }
        if s.len() >= 2 && !is_whitespace(s[s.len() - 2]) {
            assert(head.last() == s[s.len() - 2]);
        }
    }
}

/// Whether `c` is white space; see `is_whitespace`.
pub fn whitespace(c: char) -> (b: bool)
    ensures
        b == is_whitespace(c),
{
    let u: u32 = c as u32;
    (0x09 <= u && u <= 0x0d) || u == 0x20 || u == 0x85 || u == 0xa0 || u == 0x1680 || (0x2000 <= u
        && u <= 0x200a) || u == 0x2028 || u == 0x2029 || u == 0x202f || u == 0x205f || u == 0x3000
}

/// Cuts `s` into its words; see `words`.
pub fn split_words(s: &str) -> (found: Vec<String>)
    ensures
        texts(found@) == words(s@),
{
    let chars = chars_of(s);
    let n: usize = chars.len();
    let mut found: Vec<String> = Vec::new();
    let mut start: usize = 0;
    let mut in_word: bool = false;
    let mut i: usize = 0;
    assert(s@.take(0) =~= Seq::<char>::empty());
    assert(texts(found@) =~= Seq::<Seq<char>>::empty());
    while i < n
        invariant
            chars@ == s@,
            n == s@.len(),
            start <= i <= n,
            in_word ==> start < i && !is_whitespace(s@[i - 1]),
            !in_word ==> i == 0 || is_whitespace(s@[i - 1]),
            words(s@.take(i as int)) == if in_word {
                texts(found@).push(s@.subrange(start as int, i as int))
            } else {
                texts(found@)
            },
        decreases n - i,
    {
        let ghost before = texts(found@);
        let ghost open = s@.subrange(start as int, i as int);
        let ghost now = s@.take(i + 1);
        assert(now.drop_last() =~= s@.take(i as int));
        assert(now.last() == s@[i as int]);
        assert(i >= 1 ==> now[now.len() - 2] == s@[i - 1]);
        if whitespace(chars[i]) {
            if in_word {
                found.push(s.substring_char(start, i).to_owned());
                assert(texts(found@) =~= before.push(open));
                in_word = false;
            }
        } else {
            if in_word {
                assert(before.push(open).drop_last() =~= before);
                assert(open.push(s@[i as int]) =~= s@.subrange(start as int, i + 1));
            } else {
                start = i;
                in_word = true;
                assert(seq![s@[i as int]] =~= s@.subrange(i as int, i + 1));
            }
        }
        i += 1;
    }
    assert(s@.take(n as int) =~= s@);
    if in_word {
        let ghost before = texts(found@);
        found.push(s.substring_char(start, n).to_owned());
        assert(texts(found@) =~= before.push(s@.subrange(start as int, n as int)));
    }
    found
}

} // verus!
