//! Byte-level text handling: separators, fields and whitespace-delimited words.
//!
//! Everything here works on raw bytes. The separators of interest are all
//! ASCII, and an ASCII byte never occurs inside a multi-byte UTF-8 sequence,
//! so cutting UTF-8 text at these bytes is the same as cutting it at the
//! corresponding characters.

use crate::sequence::{first_index, lemma_first_index, lemma_first_index_is};
use vstd::prelude::*;

verus! {

/// Line feed, the line separator.
pub const NEWLINE: u8 = 10;

/// Slash, the separator inside a face corner.
pub const SLASH: u8 = 47;

/// ASCII whitespace: space, tab, line feed, form feed and carriage return.
pub open spec fn is_space(b: u8) -> bool {
    b == 32 || b == 9 || b == 10 || b == 12 || b == 13
}

/// Decides [`is_space`].
pub fn is_space_byte(b: u8) -> (r: bool)
    ensures
        r == is_space(b),
{
    b == 32 || b == 9 || b == 10 || b == 12 || b == 13
}

/// The views of the rows of a table of byte strings.
pub open spec fn rows(v: Seq<Vec<u8>>) -> Seq<Seq<u8>> {
    Seq::new(v.len(), |i: int| v[i]@)
}

/// The fields of `s` between occurrences of `sep`.
///
/// There is always one field more than there are separators, so the empty
/// string has one (empty) field and a trailing separator is followed by an
/// empty field.
pub open spec fn split(s: Seq<u8>, sep: u8) -> Seq<Seq<u8>>
    decreases s.len(),
{
    let n = first_index(s, sep);
    if 0 <= n < s.len() {
        seq![s.take(n)] + split(s.skip(n + 1), sep)
    } else {
        seq![s]
    }
}

/// The fields with `sep` put between them.
pub open spec fn join(fields: Seq<Seq<u8>>, sep: u8) -> Seq<u8>
    decreases fields.len(),
{
    if fields.len() == 0 {
        Seq::empty()
    } else if fields.len() == 1 {
        fields[0]
    } else {
        fields[0] + seq![sep] + join(fields.drop_first(), sep)
    }
}

/// Splitting and joining again gives the text back, and no field holds a
/// separator. There is one way only to cut a text like that.
pub proof fn lemma_split_is_exact(s: Seq<u8>, sep: u8)
    ensures
        split(s, sep).len() >= 1,
        join(split(s, sep), sep) == s,
        forall|k: int, i: int|
            0 <= k < split(s, sep).len() && 0 <= i < split(s, sep)[k].len() ==> #[trigger] split(
                s,
                sep,
            )[k][i] != sep,
    decreases s.len(),
{
    let n = first_index(s, sep);
    lemma_first_index(s, sep);
    if n < s.len() {
        let rest = s.skip(n + 1);
        let fields = split(s, sep);
        lemma_split_is_exact(rest, sep);
        assert(fields.drop_first() =~= split(rest, sep));
        assert(fields[0] == s.take(n));
        assert(join(fields, sep) =~= s);
        assert forall|k: int, i: int|
            0 <= k < fields.len() && 0 <= i < fields[k].len() implies #[trigger] fields[k][i]
            != sep by {
            if k > 0 {
                assert(fields[k] == split(rest, sep)[k - 1]);
            }
        }
    }
}

/// The length of the text that the fields were cut from, plus one: every
/// field counts with its length and one separator.
pub open spec fn joined_len(fields: Seq<Seq<u8>>) -> nat
    decreases fields.len(),
{
    if fields.len() == 0 {
        0
    } else {
        joined_len(fields.drop_last()) + fields.last().len() + 1
    }
}

/// `joined_len` with a field put in front.
pub proof fn lemma_joined_len_front(first: Seq<u8>, rest: Seq<Seq<u8>>)
    ensures
        joined_len(seq![first] + rest) == first.len() + 1 + joined_len(rest),
    decreases rest.len(),
{
    let all = seq![first] + rest;
    if rest.len() == 0 {
        assert(all.drop_last() =~= Seq::<Seq<u8>>::empty());
        assert(all.last() == first);
        assert(joined_len(all.drop_last()) == 0);
        assert(joined_len(rest) == 0);
    } else {
        assert(all.drop_last() =~= seq![first] + rest.drop_last());
        assert(all.last() == rest.last());
        lemma_joined_len_front(first, rest.drop_last());
        assert(joined_len(all) == joined_len(all.drop_last()) + all.last().len() + 1);
        assert(joined_len(rest) == joined_len(rest.drop_last()) + rest.last().len() + 1);
    }
}

/// Splitting loses nothing but the separators: the fields and one
/// separator each add up to the length of the text plus one.
pub proof fn lemma_split_joined_len(s: Seq<u8>, sep: u8)
    ensures
        joined_len(split(s, sep)) == s.len() + 1,
    decreases s.len(),
{
    let n = first_index(s, sep);
    lemma_first_index(s, sep);
    if n < s.len() {
        lemma_split_joined_len(s.skip(n + 1), sep);
        lemma_joined_len_front(s.take(n), split(s.skip(n + 1), sep));
    } else {
        assert(seq![s].drop_last() =~= Seq::<Seq<u8>>::empty());
        assert(seq![s].last() == s);
        assert(joined_len(seq![s].drop_last()) == 0);
    }
}

/// The first `n` fields take up no more than all of them; and one field
/// more adds its length and a separator.
pub proof fn lemma_joined_len_take(fields: Seq<Seq<u8>>, n: int)
    requires
        0 <= n <= fields.len(),
    ensures
        joined_len(fields.take(n)) <= joined_len(fields),
        n < fields.len() ==> joined_len(fields.take(n + 1)) == joined_len(fields.take(n))
            + fields[n].len() + 1,
    decreases fields.len(),
{
    if n < fields.len() {
        assert(fields.drop_last().take(n) =~= fields.take(n));
        lemma_joined_len_take(fields.drop_last(), n);
        assert(fields.take(n + 1).drop_last() =~= fields.take(n));
    } else {
        assert(fields.take(n) =~= fields);
    }
}

/// Copies `s[from..to]` into a fresh vector.
pub fn copy_range(s: &[u8], from: usize, to: usize) -> (out: Vec<u8>)
    requires
        from <= to <= s@.len(),
    ensures
        out@ == s@.subrange(from as int, to as int),
{
    let mut out: Vec<u8> = Vec::new();
    let mut i: usize = from;
    while i < to
        invariant
            from <= i <= to <= s@.len(),
            out@ == s@.subrange(from as int, i as int),
        decreases to - i,
    {
        out.push(s[i]);
        i += 1;
        assert(out@ =~= s@.subrange(from as int, i as int));
    }
    out
}

/// Splits `s` at every `sep`; see [`split`].
pub fn split_bytes(s: &[u8], sep: u8) -> (fields: Vec<Vec<u8>>)
    ensures
        rows(fields@) == split(s@, sep),
{
    let mut fields: Vec<Vec<u8>> = Vec::new();
    let mut start: usize = 0;
    let mut i: usize = 0;
    proof {
        assert(s@.skip(0) =~= s@);
        assert(rows(fields@) + split(s@, sep) =~= split(s@, sep));
    }
    while i < s.len()
        invariant
            start <= i <= s@.len(),
            forall|k: int| start <= k < i ==> s@[k] != sep,
            split(s@, sep) == rows(fields@) + split(s@.skip(start as int), sep),
        decreases s@.len() - i,
    {
        if s[i] == sep {
            let field = copy_range(s, start, i);
            proof {
                let rest = s@.skip(start as int);
                lemma_first_index_is(rest, sep, i - start);
                assert(rest.take(i - start) =~= field@);
                assert(rest.skip(i - start + 1) =~= s@.skip(i + 1));
                assert(rows(fields@.push(field)) =~= rows(fields@) + seq![field@]);
            }
            fields.push(field);
            start = i + 1;
        }
        i += 1;
    }
    let field = copy_range(s, start, i);
    proof {
        let rest = s@.skip(start as int);
        lemma_first_index_is(rest, sep, rest.len() as int);
        assert(rest =~= field@);
        assert(rows(fields@.push(field)) =~= rows(fields@) + seq![field@]);
    }
    fields.push(field);
    fields
}

/// Length of the run of non-whitespace bytes at the start of `s`.
pub open spec fn word_len(s: Seq<u8>) -> int
    decreases s.len(),
{
    if s.len() == 0 || is_space(s[0]) {
        0
    } else {
        1 + word_len(s.drop_first())
    }
}

/// The maximal runs of non-whitespace bytes of `s`, in order.
pub open spec fn words(s: Seq<u8>) -> Seq<Seq<u8>>
    decreases s.len(),
{
    if s.len() == 0 {
        Seq::empty()
    } else if is_space(s[0]) {
        words(s.drop_first())
    } else {
        let n = word_len(s);
        if 0 < n <= s.len() {
            seq![s.take(n)] + words(s.skip(n))
        } else {
            Seq::empty()
        }
    }
}

/// `word_len` stops at the first whitespace byte, or at the end.
pub proof fn lemma_word_len(s: Seq<u8>)
    ensures
        0 <= word_len(s) <= s.len(),
        forall|i: int| 0 <= i < word_len(s) ==> !is_space(s[i]),
        word_len(s) < s.len() ==> is_space(s[word_len(s)]),
        s.len() > 0 && !is_space(s[0]) ==> word_len(s) > 0,
    decreases s.len(),
{
    if s.len() == 0 || is_space(s[0]) {
    } else {
        let t = s.drop_first();
        lemma_word_len(t);
        assert forall|i: int| 0 <= i < word_len(s) implies !is_space(s[i]) by {
            if i > 0 {
                assert(s[i] == t[i - 1]);
            }
        }
        assert(word_len(t) < t.len() ==> t[word_len(t)] == s[word_len(s)]);
    }
}

/// Any position up to which `s` is free of whitespace, and which is the end
/// or holds whitespace, is what `word_len` returns.
pub proof fn lemma_word_len_is(s: Seq<u8>, n: int)
    requires
        0 <= n <= s.len(),
        forall|i: int| 0 <= i < n ==> !is_space(s[i]),
        n < s.len() ==> is_space(s[n]),
    ensures
        word_len(s) == n,
{
    lemma_word_len(s);
    let m = word_len(s);
    if m < n {
        assert(is_space(s[m]));
    } else if m > n {
        assert(!is_space(s[n]));
    }
}

/// Every word is non-empty and free of whitespace.
pub proof fn lemma_words_are_solid(s: Seq<u8>)
    ensures
        forall|k: int| 0 <= k < words(s).len() ==> (#[trigger] words(s)[k]).len() > 0,
        forall|k: int, i: int|
            0 <= k < words(s).len() && 0 <= i < words(s)[k].len() ==> !is_space(
                #[trigger] words(s)[k][i],
            ),
    decreases s.len(),
{
    if s.len() == 0 {
        assert(words(s).len() == 0);
    } else if is_space(s[0]) {
        lemma_words_are_solid(s.drop_first());
        assert(words(s) == words(s.drop_first()));
    } else {
        lemma_word_len(s);
        let n = word_len(s);
        let all = words(s);
        let rest = words(s.skip(n));
        lemma_words_are_solid(s.skip(n));
        assert(all == seq![s.take(n)] + rest);
        assert(all[0] == s.take(n));
        assert forall|k: int| 0 <= k < all.len() implies (#[trigger] all[k]).len() > 0 by {
            if k > 0 {
                assert(all[k] == rest[k - 1]);
            }
        }
        assert forall|k: int, i: int| 0 <= k < all.len() && 0 <= i < all[k].len() implies !is_space(
            #[trigger] all[k][i],
        ) by {
            if k > 0 {
                assert(all[k] == rest[k - 1]);
            } else {
                assert(all[0][i] == s[i]);
            }
        }
    }
}

/// Words need room: `k` words take at least `2k - 1` bytes, since each is
/// non-empty and neighbours are separated by whitespace.
pub proof fn lemma_words_need_room(s: Seq<u8>)
    ensures
        2 * words(s).len() <= s.len() + 1,
    decreases s.len(),
{
    if s.len() == 0 {
    } else if is_space(s[0]) {
        lemma_words_need_room(s.drop_first());
    } else {
        lemma_word_len(s);
        let n = word_len(s);
        let rest = s.skip(n);
        lemma_words_need_room(rest);
        if rest.len() > 0 {
            // the run stopped at whitespace, which no word of the rest uses
            assert(is_space(rest[0]));
            assert(words(rest) == words(rest.drop_first()));
            lemma_words_need_room(rest.drop_first());
        }
    }
}

/// Splits `s` into its whitespace-delimited words; see [`words`].
pub fn split_words(s: &[u8]) -> (out: Vec<Vec<u8>>)
    ensures
        rows(out@) == words(s@),
{
    let mut out: Vec<Vec<u8>> = Vec::new();
    let mut i: usize = 0;
    proof {
        assert(s@.skip(0) =~= s@);
        assert(rows(out@) + words(s@) =~= words(s@));
    }
    while i < s.len()
        invariant
            i <= s@.len(),
            words(s@) == rows(out@) + words(s@.skip(i as int)),
        decreases s@.len() - i,
    {
        if is_space_byte(s[i]) {
            proof {
                assert(s@.skip(i as int).drop_first() =~= s@.skip(i + 1));
            }
            i += 1;
        } else {
            let start = i;
            while i < s.len() && !is_space_byte(s[i])
                invariant
                    start <= i <= s@.len(),
                    forall|k: int| start <= k < i ==> !is_space(s@[k]),
                decreases s@.len() - i,
            {
                i += 1;
            }
            let word = copy_range(s, start, i);
            proof {
                let rest = s@.skip(start as int);
                lemma_word_len_is(rest, i - start);
                assert(rest.take(i - start) =~= word@);
                assert(rest.skip(i - start) =~= s@.skip(i as int));
                assert(rows(out@.push(word)) =~= rows(out@) + seq![word@]);
            }
            out.push(word);
        }
    }
    proof {
        assert(rows(out@) + Seq::<Seq<u8>>::empty() =~= rows(out@));
    }
    out
}

/// Whether `s` begins with `p`.
pub open spec fn has_prefix(s: Seq<u8>, p: Seq<u8>) -> bool {
    p.len() <= s.len() && s.take(p.len() as int) == p
}

/// Decides [`has_prefix`].
pub fn starts_with(s: &[u8], p: &[u8]) -> (r: bool)
    ensures
        r == has_prefix(s@, p@),
{
    if p.len() > s.len() {
        return false;
    }
    let mut i: usize = 0;
    while i < p.len()
        invariant
            i <= p@.len() <= s@.len(),
            forall|k: int| 0 <= k < i ==> s@[k] == p@[k],
        decreases p@.len() - i,
    {
        if s[i] != p[i] {
            proof {
                assert(s@.take(p@.len() as int)[i as int] != p@[i as int]);
            }
            return false;
        }
        i += 1;
    }
    proof {
        assert(s@.take(p@.len() as int) =~= p@);
    }
    true
}

/// Whether two byte strings hold the same bytes.
pub fn same_bytes(a: &[u8], b: &[u8]) -> (r: bool)
    ensures
        r == (a@ == b@),
{
    if a.len() != b.len() {
        return false;
    }
    let mut i: usize = 0;
    while i < a.len()
        invariant
            i <= a@.len(),
            a@.len() == b@.len(),
            forall|k: int| 0 <= k < i ==> a@[k] == b@[k],
        decreases a@.len() - i,
    {
        if a[i] != b[i] {
            return false;
        }
        i += 1;
    }
    proof {
        assert(a@ =~= b@);
    }
    true
}

} // verus!
