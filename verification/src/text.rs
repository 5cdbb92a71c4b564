//! Character-level text utilities: splitting on a separator, joining,
//! substring search, and comparison against a fixed word.
//!
//! Every function here works on the sequence of characters of a string
//! (`s@`), never on its bytes.

use vstd::prelude::*;

verus! {

/// The position of the first occurrence of `c` in `s`, or `s.len()` when
/// `c` does not occur.
pub open spec fn first_index(s: Seq<char>, c: char) -> int
    decreases s.len(),
{
    if s.len() == 0 {
        0
    } else if s[0] == c {
        0
    } else {
        1 + first_index(s.skip(1), c)
    }
}

/// `c` occurs nowhere in `s`.
pub open spec fn free_of(s: Seq<char>, c: char) -> bool {
    forall|i: int| 0 <= i < s.len() ==> s[i] != c
}

/// The pieces of `s` between occurrences of `sep`, in order: the text before
/// the first separator, followed by the pieces of what comes after it. A
/// string with `n` separators has `n + 1` pieces; pieces may be empty.
pub open spec fn split(s: Seq<char>, sep: char) -> Seq<Seq<char>>
    decreases s.len(),
{
    let i = first_index(s, sep);
    if 0 <= i < s.len() {
        seq![s.take(i)] + split(s.skip(i + 1), sep)
    } else {
        seq![s]
    }
}

/// The pieces `parts` written one after another with `sep` between
/// neighbours. The inverse of [`split`] on pieces that are free of `sep`.
pub open spec fn join(parts: Seq<Seq<char>>, sep: char) -> Seq<char>
    decreases parts.len(),
{
    if parts.len() == 0 {
        Seq::empty()
    } else if parts.len() == 1 {
        parts[0]
    } else {
        parts[0] + seq![sep] + join(parts.skip(1), sep)
    }
}

/// The character sequences held by a list of character vectors.
pub open spec fn piece_views(pieces: Seq<Vec<char>>) -> Seq<Seq<char>> {
    pieces.map_values(|piece: Vec<char>| piece@)
}

/// `pattern` occurs in `text` starting at position `at`.
pub open spec fn occurs_at(text: Seq<char>, pattern: Seq<char>, at: int) -> bool {
    &&& 0 <= at
    &&& at + pattern.len() <= text.len()
    &&& text.subrange(at, at + pattern.len()) == pattern
}

/// `pattern` occurs somewhere in `text` as a contiguous run of characters.
pub open spec fn contains(text: Seq<char>, pattern: Seq<char>) -> bool {
    exists|at: int| occurs_at(text, pattern, at)
}

/// `first_index` is within bounds, everything before it differs from `c`,
/// and the character at it, if any, is `c`.
pub proof fn lemma_first_index(s: Seq<char>, c: char)
    ensures
        0 <= first_index(s, c) <= s.len(),
        free_of(s.take(first_index(s, c)), c),
        first_index(s, c) < s.len() ==> s[first_index(s, c)] == c,
        first_index(s, c) == s.len() <==> free_of(s, c),
    decreases s.len(),
{
    if s.len() > 0 && s[0] != c {
        let rest = s.skip(1);
        lemma_first_index(rest, c);
        let k = first_index(rest, c);
        let head = s.take(k + 1);
        assert forall|i: int| 0 <= i < head.len() implies head[i] != c by {
            if i > 0 {
                assert(rest.take(k)[i - 1] == s[i]);
            }
        }
        if k == rest.len() {
            assert forall|i: int| 0 <= i < s.len() implies s[i] != c by {
                if i > 0 {
                    assert(rest[i - 1] == s[i]);
                }
            }
        } else {
            assert(rest[k] == s[k + 1]);
        }
    }
}

/// A position holding `c` with nothing equal to `c` before it is the first
/// index of `c`.
pub proof fn lemma_first_index_is(s: Seq<char>, c: char, at: int)
    requires
        0 <= at <= s.len(),
        free_of(s.take(at), c),
        at < s.len() ==> s[at] == c,
    ensures
        first_index(s, c) == at,
{
    lemma_first_index(s, c);
    let k = first_index(s, c);
    if k < at {
        assert(s.take(at)[k] == s[k]);
    } else if at < k {
        assert(s.take(k)[at] == s[at]);
    }
}

/// Splitting never yields an empty list, and no piece holds the separator.
pub proof fn lemma_split_pieces(s: Seq<char>, sep: char)
    ensures
        split(s, sep).len() >= 1,
        forall|k: int| 0 <= k < split(s, sep).len() ==> free_of(#[trigger] split(s, sep)[k], sep),
    decreases s.len(),
{
    lemma_first_index(s, sep);
    let i = first_index(s, sep);
    if i < s.len() {
        lemma_split_pieces(s.skip(i + 1), sep);
    }
}

/// Joining the pieces of a split gives the text back as it was.
pub proof fn lemma_join_split(s: Seq<char>, sep: char)
    ensures
        join(split(s, sep), sep) == s,
    decreases s.len(),
{
    lemma_first_index(s, sep);
    let i = first_index(s, sep);
    if i < s.len() {
        let rest = s.skip(i + 1);
        lemma_join_split(rest, sep);
        lemma_split_pieces(rest, sep);
        let pieces = split(s, sep);
        assert(pieces.skip(1) =~= split(rest, sep));
        assert(s =~= s.take(i) + seq![sep] + rest);
    }
}

/// Splitting a join of separator-free pieces gives exactly those pieces.
pub proof fn lemma_split_join(parts: Seq<Seq<char>>, sep: char)
    requires
        parts.len() >= 1,
        forall|k: int| 0 <= k < parts.len() ==> free_of(#[trigger] parts[k], sep),
    ensures
        split(join(parts, sep), sep) == parts,
    decreases parts.len(),
{
    let joined = join(parts, sep);
    if parts.len() == 1 {
        lemma_first_index(joined, sep);
        assert(split(joined, sep) =~= parts);
    } else {
        let head = parts[0];
        let tail = parts.skip(1);
        assert forall|k: int| 0 <= k < tail.len() implies free_of(#[trigger] tail[k], sep) by {
            assert(tail[k] == parts[k + 1]);
        }
        lemma_split_join(tail, sep);
        let at = head.len() as int;
        assert(joined.take(at) =~= head);
        assert(joined[at] == sep);
        lemma_first_index_is(joined, sep, at);
        assert(joined.skip(at + 1) =~= join(tail, sep));
        assert(split(joined, sep) =~= parts);
    }
}

/// The characters of `s`, in order.
pub fn chars_of(s: &str) -> (chars: Vec<char>)
    ensures
        chars@ == s@,
{
    let mut chars: Vec<char> = Vec::new();
    for c in it: s.chars()
        invariant
            chars@ == it.seq().take(it.index() as int),
            it.seq() == s@,
    {
        chars.push(c);
    }
    chars
}

/// Whether `token` spells exactly `word`.
pub fn is_word(token: &Vec<char>, word: &str) -> (same: bool)
    ensures
        same == (token@ == word@),
{
    let letters = chars_of(word);
    if token.len() != letters.len() {
        return false;
    }
    let mut i: usize = 0;
    while i < token.len()
        invariant
            i <= token.len(),
            token.len() == letters.len(),
            letters@ == word@,
            token@.take(i as int) == letters@.take(i as int),
        decreases token.len() - i,
    {
        if token[i] != letters[i] {
            return false;
        }
        assert(token@.take(i + 1) =~= token@.take(i as int).push(token@[i as int]));
        assert(letters@.take(i + 1) =~= letters@.take(i as int).push(letters@[i as int]));
        i += 1;
    }
    assert(token@ =~= token@.take(i as int));
    assert(letters@ =~= letters@.take(i as int));
    true
}

/// The position of the first `c` in `s` at or after `from`, or `s.len()`
/// when there is none.
pub fn find_from(s: &Vec<char>, c: char, from: usize) -> (at: usize)
    requires
        from <= s.len(),
    ensures
        at == from + first_index(s@.skip(from as int), c),
        from <= at <= s.len(),
{
    let mut i: usize = from;
    while i < s.len() && s[i] != c
        invariant
            from <= i <= s.len(),
            free_of(s@.skip(from as int).take(i - from), c),
        decreases s.len() - i,
    {
        proof {
            let seen = s@.skip(from as int).take(i + 1 - from);
            assert forall|k: int| 0 <= k < seen.len() implies seen[k] != c by {
                if k < i - from {
                    assert(s@.skip(from as int).take(i - from)[k] == s@[from + k]);
                }
            }
        }
        i += 1;
    }
    proof {
        lemma_first_index_is(s@.skip(from as int), c, i - from);
    }
    i
}

/// Cuts `s` at every `sep`.
pub fn split_chars(s: &Vec<char>, sep: char) -> (pieces: Vec<Vec<char>>)
    ensures
        piece_views(pieces@) == split(s@, sep),
{
    let mut pieces: Vec<Vec<char>> = Vec::new();
    let mut start: usize = 0;
    proof {
        assert(s@.skip(0) =~= s@);
        assert(piece_views(pieces@) + split(s@, sep) =~= split(s@, sep));
    }
    loop
        invariant_except_break
            start <= s.len(),
            split(s@, sep) == piece_views(pieces@) + split(s@.skip(start as int), sep),
        ensures
            piece_views(pieces@) == split(s@, sep),
        decreases s.len() - start,
    {
        let end = find_from(s, sep, start);
        let mut piece: Vec<char> = Vec::new();
        let mut i: usize = start;
        while i < end
            invariant
                start <= i <= end <= s.len(),
                piece@ == s@.subrange(start as int, i as int),
            decreases end - i,
        {
            piece.push(s[i]);
            assert(s@.subrange(start as int, i + 1) =~= s@.subrange(start as int, i as int).push(
                s@[i as int],
            ));
            i += 1;
        }
        let ghost before = piece_views(pieces@);
        let ghost rest = s@.skip(start as int);
        pieces.push(piece);
        proof {
            assert(piece@ =~= rest.take(end - start));
            assert(piece_views(pieces@) =~= before.push(piece@));
        }
        if end == s.len() {
            proof {
                assert(split(rest, sep) =~= seq![rest]);
                assert(rest =~= rest.take(end - start));
            }
            break;
        }
        proof {
            assert(rest.skip(end - start + 1) =~= s@.skip(end + 1));
            assert(before + split(rest, sep) =~= piece_views(pieces@) + split(
                s@.skip(end + 1),
                sep,
            ));
        }
        start = end + 1;
    }
    pieces
}

/// Whether `pattern` occurs somewhere in `text`.
pub fn contains_chars(text: &Vec<char>, pattern: &Vec<char>) -> (found: bool)
    ensures
        found == contains(text@, pattern@),
{
    if pattern.len() > text.len() {
        return false;
    }
    let last = text.len() - pattern.len();
    let mut at: usize = 0;
    while at <= last
        invariant
            last == text.len() - pattern.len(),
            at <= last + 1,
            forall|k: int| 0 <= k < at ==> !occurs_at(text@, pattern@, k),
        decreases last + 1 - at,
    {
        let mut j: usize = 0;
        while j < pattern.len() && text[at + j] == pattern[j]
            invariant
                at <= last,
                last == text.len() - pattern.len(),
                j <= pattern.len(),
                text@.subrange(at as int, at + j) == pattern@.take(j as int),
            decreases pattern.len() - j,
        {
            assert(text@.subrange(at as int, at + j + 1) =~= text@.subrange(
                at as int,
                at + j,
            ).push(text@[at + j]));
            assert(pattern@.take(j + 1) =~= pattern@.take(j as int).push(pattern@[j as int]));
            j += 1;
        }
        if j == pattern.len() {
            assert(pattern@.take(j as int) =~= pattern@);
            assert(occurs_at(text@, pattern@, at as int));
            return true;
        }
        assert(!occurs_at(text@, pattern@, at as int)) by {
            if occurs_at(text@, pattern@, at as int) {
                assert(text@.subrange(at as int, at + pattern.len())[j as int] == text@[at + j]);
            }
        }
        at += 1;
    }
    false
}

} // verus!
