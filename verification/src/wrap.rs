//! Word wrapping over byte strings.
//!
//! A message is wrapped to a maximum column count, breaking only at
//! whitespace, preserving explicit line breaks and never splitting a word.
//! The specification is built on `words_of`, the sequence of maximal
//! whitespace-free runs of a byte string: wrapping preserves exactly that
//! sequence.

use vstd::prelude::*;

verus! {

/// Bytes at which text may be broken: space and newline.
pub open spec fn is_break(b: u8) -> bool {
    b == 32u8 || b == 10u8
}

/// The index just past the word starting at `i`: the first index `>= i`
/// holding a break byte, or the length of `s`.
pub open spec fn word_end(s: Seq<u8>, i: int) -> int
    decreases s.len() - i,
{
    if i < 0 || i >= s.len() || is_break(s[i]) {
        i
    } else {
        word_end(s, i + 1)
    }
}

/// The words of `s` from index `i` on: maximal runs of non-break bytes.
pub open spec fn words_from(s: Seq<u8>, i: int) -> Seq<Seq<u8>>
    decreases s.len() - i,
    when 0 <= i
    via words_from_dec
{
    if i >= s.len() {
        Seq::empty()
    } else if is_break(s[i]) {
        words_from(s, i + 1)
    } else {
        seq![s.subrange(i, word_end(s, i))] + words_from(s, word_end(s, i))
    }
}

#[via_fn]
proof fn words_from_dec(s: Seq<u8>, i: int) {
    if 0 <= i < s.len() && !is_break(s[i]) {
        lemma_word_end_bounds(s, i);
    }
}

/// The words of a byte string.
pub open spec fn words_of(s: Seq<u8>) -> Seq<Seq<u8>> {
    words_from(s, 0)
}

/// Views of a sequence of byte vectors.
pub open spec fn views_of(v: Seq<Vec<u8>>) -> Seq<Seq<u8>> {
    v.map_values(|x: Vec<u8>| x@)
}

/// The words of a sequence of lines, in order.
pub open spec fn lines_words(ls: Seq<Seq<u8>>) -> Seq<Seq<u8>>
    decreases ls.len(),
{
    if ls.len() == 0 {
        Seq::empty()
    } else {
        lines_words(ls.drop_last()) + words_of(ls.last())
    }
}

/// `ws` is a proper word list: every word is non-empty and break-free.
pub open spec fn good_words(ws: Seq<Seq<u8>>) -> bool {
    forall|k: int|
        0 <= k < ws.len() ==> ws[k].len() > 0 && (forall|j: int|
            0 <= j < ws[k].len() ==> !is_break(ws[k][j]))
}

/// Words joined by single spaces.
pub open spec fn join_space(ws: Seq<Seq<u8>>) -> Seq<u8>
    decreases ws.len(),
{
    if ws.len() == 0 {
        Seq::empty()
    } else if ws.len() == 1 {
        ws[0]
    } else {
        join_space(ws.drop_last()) + seq![32u8] + ws.last()
    }
}

/// The index of the first newline byte at or after `i`, or the length of `s`.
pub open spec fn par_end(s: Seq<u8>, i: int) -> int
    decreases s.len() - i,
{
    if i < 0 || i >= s.len() || s[i] == 10u8 {
        i
    } else {
        par_end(s, i + 1)
    }
}

pub proof fn lemma_par_end_bounds(s: Seq<u8>, i: int)
    requires
        0 <= i <= s.len(),
    ensures
        i <= par_end(s, i) <= s.len(),
        forall|j: int| i <= j < par_end(s, i) ==> s[j] != 10u8,
        par_end(s, i) < s.len() ==> s[par_end(s, i)] == 10u8,
    decreases s.len() - i,
{
    if i < s.len() && s[i] != 10u8 {
        lemma_par_end_bounds(s, i + 1);
    }
}

/// The greedy line-packing of the words `ws[i..]`, with `cur` the line built
/// so far: the specification mirror of `pack_words`.
pub open spec fn pack_rec(ws: Seq<Seq<u8>>, i: int, cur: Seq<u8>, maxcols: int) -> Seq<Seq<u8>>
    decreases ws.len() - i,
{
    if i < 0 || i >= ws.len() {
        if cur.len() == 0 {
            Seq::empty()
        } else {
            seq![cur]
        }
    } else {
        let w = ws[i];
        if cur.len() == 0 {
            pack_rec(ws, i + 1, w, maxcols)
        } else if w.len() <= maxcols && cur.len() + 1 + w.len() <= maxcols {
            pack_rec(ws, i + 1, cur + seq![32u8] + w, maxcols)
        } else {
            seq![cur] + pack_rec(ws, i + 1, w, maxcols)
        }
    }
}

/// The wrapped lines of the text from `pos` on: the specification mirror of
/// `wrap_text`, one paragraph (up to the next newline) at a time.
pub open spec fn wrap_rec(s: Seq<u8>, pos: int, maxcols: int) -> Seq<Seq<u8>>
    decreases s.len() - pos,
    when 0 <= pos <= s.len()
    via wrap_rec_dec
{
    let e = par_end(s, pos);
    let pw = pack_rec(words_of(s.subrange(pos, e)), 0, Seq::empty(), maxcols);
    let pl = if pw.len() == 0 {
        seq![Seq::<u8>::empty()]
    } else {
        pw
    };
    if e >= s.len() {
        pl
    } else {
        pl + wrap_rec(s, e + 1, maxcols)
    }
}

#[via_fn]
proof fn wrap_rec_dec(s: Seq<u8>, pos: int, maxcols: int) {
    if 0 <= pos <= s.len() {
        lemma_par_end_bounds(s, pos);
    }
}

/// The wrapped lines of a whole text: what `wrap_text` returns.
pub open spec fn wrap_spec(s: Seq<u8>, maxcols: int) -> Seq<Seq<u8>> {
    wrap_rec(s, 0, maxcols)
}

pub proof fn lemma_word_end_bounds(s: Seq<u8>, i: int)
    requires
        0 <= i <= s.len(),
    ensures
        i <= word_end(s, i) <= s.len(),
        forall|j: int| i <= j < word_end(s, i) ==> !is_break(s[j]),
        word_end(s, i) < s.len() ==> is_break(s[word_end(s, i)]),
        i < s.len() && !is_break(s[i]) ==> word_end(s, i) > i,
    decreases s.len() - i,
{
    if i < s.len() && !is_break(s[i]) {
        lemma_word_end_bounds(s, i + 1);
    }
}

pub proof fn lemma_word_end_shift(s: Seq<u8>, off: int, k: int)
    requires
        0 <= off,
        0 <= k,
        off + k <= s.len(),
    ensures
        word_end(s, off + k) == off + word_end(s.skip(off), k),
    decreases s.len() - off - k,
{
    if off + k < s.len() && !is_break(s[off + k]) {
        lemma_word_end_shift(s, off, k + 1);
    }
}

pub proof fn lemma_words_from_shift(s: Seq<u8>, off: int, k: int)
    requires
        0 <= off,
        0 <= k,
        off + k <= s.len(),
    ensures
        words_from(s, off + k) == words_from(s.skip(off), k),
    decreases s.len() - off - k,
{
    let t = s.skip(off);
    if off + k >= s.len() {
    } else if is_break(s[off + k]) {
        lemma_words_from_shift(s, off, k + 1);
    } else {
        lemma_word_end_bounds(s, off + k);
        lemma_word_end_shift(s, off, k);
        let e = word_end(s, off + k);
        assert(s.subrange(off + k, e) =~= t.subrange(k, e - off));
        lemma_words_from_shift(s, off, e - off);
    }
}

proof fn lemma_word_end_prefix(a: Seq<u8>, r: Seq<u8>, i: int)
    requires
        0 <= i <= a.len(),
        r.len() > 0,
        is_break(r[0]),
    ensures
        word_end(a + r, i) == word_end(a, i),
    decreases a.len() - i,
{
    if i < a.len() && !is_break(a[i]) {
        lemma_word_end_prefix(a, r, i + 1);
    }
}

/// Inserting a break byte between two byte strings splits their words
/// cleanly: no word spans the separator.
pub proof fn lemma_words_sep(a: Seq<u8>, sep: u8, b: Seq<u8>)
    requires
        is_break(sep),
    ensures
        words_of(a + seq![sep] + b) == words_of(a) + words_of(b),
    decreases a.len(),
{
    let t = a + seq![sep] + b;
    if a.len() == 0 {
        assert(is_break(t[0]));
        lemma_words_from_shift(t, 1, 0);
        assert(t.skip(1) =~= b);
        assert(words_of(a) + words_of(b) =~= words_of(b));
    } else if is_break(a[0]) {
        lemma_words_from_shift(t, 1, 0);
        assert(t.skip(1) =~= a.skip(1) + seq![sep] + b);
        lemma_words_sep(a.skip(1), sep, b);
        lemma_words_from_shift(a, 1, 0);
    } else {
        lemma_word_end_bounds(a, 0);
        let e = word_end(a, 0);
        assert(a + (seq![sep] + b) =~= t);
        lemma_word_end_prefix(a, seq![sep] + b, 0);
        assert(word_end(t, 0) == e);
        assert(t.subrange(0, e) =~= a.subrange(0, e));
        lemma_words_from_shift(t, e, 0);
        assert(t.skip(e) =~= a.skip(e) + seq![sep] + b);
        lemma_words_sep(a.skip(e), sep, b);
        lemma_words_from_shift(a, e, 0);
        assert(words_of(t) == seq![a.subrange(0, e)] + (words_of(a.skip(e)) + words_of(b)));
        assert(words_of(a) == seq![a.subrange(0, e)] + words_of(a.skip(e)));
        assert(seq![a.subrange(0, e)] + (words_of(a.skip(e)) + words_of(b)) =~= (seq![
            a.subrange(0, e),
        ] + words_of(a.skip(e))) + words_of(b));
    }
}

/// A non-empty, break-free byte string is its own single word.
pub proof fn lemma_words_single(w: Seq<u8>)
    requires
        w.len() > 0,
        forall|j: int| 0 <= j < w.len() ==> !is_break(w[j]),
    ensures
        words_of(w) == seq![w],
{
    lemma_word_end_bounds(w, 0);
    assert(word_end(w, 0) == w.len());
    assert(w.subrange(0, w.len() as int) =~= w);
    assert(seq![w] + words_from(w, w.len() as int) =~= seq![w]);
}

/// Joining a proper word list with single spaces yields a line whose words
/// are exactly that list.
pub proof fn lemma_words_join(ws: Seq<Seq<u8>>)
    requires
        good_words(ws),
    ensures
        words_of(join_space(ws)) == ws,
    decreases ws.len(),
{
    if ws.len() == 0 {
        assert(words_of(join_space(ws)) =~= ws);
    } else if ws.len() == 1 {
        lemma_words_single(ws[0]);
        assert(seq![ws[0]] =~= ws);
    } else {
        lemma_words_join(ws.drop_last());
        lemma_words_sep(join_space(ws.drop_last()), 32u8, ws.last());
        lemma_words_single(ws.last());
        assert(words_of(join_space(ws)) == ws.drop_last() + seq![ws.last()]);
        assert(ws.drop_last() + seq![ws.last()] =~= ws);
    }
}

/// `lines_words` distributes over concatenation of line lists.
pub proof fn lemma_lines_words_concat(a: Seq<Seq<u8>>, b: Seq<Seq<u8>>)
    ensures
        lines_words(a + b) == lines_words(a) + lines_words(b),
    decreases b.len(),
{
    if b.len() == 0 {
        assert(a + b =~= a);
        assert(lines_words(a) + lines_words(b) =~= lines_words(a));
    } else {
        assert((a + b).drop_last() =~= a + b.drop_last());
        assert((a + b).last() == b.last());
        lemma_lines_words_concat(a, b.drop_last());
        assert(lines_words(a) + lines_words(b.drop_last()) + words_of(b.last()) =~= lines_words(a)
            + (lines_words(b.drop_last()) + words_of(b.last())));
    }
}

fn is_break_b(b: u8) -> (r: bool)
    ensures
        r == is_break(b),
{
    b == 32 || b == 10
}

/// Copies `text[a..b]` into a fresh vector.
fn subvec(text: &[u8], a: usize, b: usize) -> (v: Vec<u8>)
    requires
        a <= b && b <= text@.len(),
    ensures
        v@ == text@.subrange(a as int, b as int),
{
    let mut v: Vec<u8> = Vec::new();
    let mut k: usize = a;
    while k < b
        invariant
            a <= k <= b <= text@.len(),
            v@ == text@.subrange(a as int, k as int),
        decreases b - k,
    {
        v.push(text[k]);
        assert(v@ =~= text@.subrange(a as int, (k + 1) as int));
        k += 1;
    }
    v
}

/// Copies the first `n` bytes of a slice.
pub fn take_bytes(src: &[u8], n: usize) -> (v: Vec<u8>)
    requires
        n <= src@.len(),
    ensures
        v@ == src@.take(n as int),
{
    let v = subvec(src, 0, n);
    assert(v@ =~= src@.take(n as int));
    v
}

/// Copies a byte vector.
pub fn copy_bytes(src: &Vec<u8>) -> (v: Vec<u8>)
    ensures
        v@ == src@,
{
    let v = subvec(src.as_slice(), 0, src.len());
    assert(v@ =~= src@);
    v
}

/// Appends the bytes of `src` to `dst`.
fn append_bytes(dst: &mut Vec<u8>, src: &Vec<u8>)
    ensures
        final(dst)@ == old(dst)@ + src@,
{
    let mut k: usize = 0;
    while k < src.len()
        invariant
            k <= src@.len(),
            dst@ == old(dst)@ + src@.subrange(0, k as int),
        decreases src@.len() - k,
    {
        dst.push(src[k]);
        assert(dst@ =~= old(dst)@ + src@.subrange(0, (k + 1) as int));
        k += 1;
    }
    assert(dst@ =~= old(dst)@ + src@);
}

/// Splits a byte string into its words.
pub fn split_words(text: &[u8]) -> (ws: Vec<Vec<u8>>)
    ensures
        views_of(ws@) == words_of(text@),
        good_words(views_of(ws@)),
        ws@.len() <= text@.len(),
        forall|k: int| 0 <= k < ws@.len() ==> ws@[k]@.len() <= text@.len(),
{
    let ghost s = text@;
    let mut ws: Vec<Vec<u8>> = Vec::new();
    let mut i: usize = 0;
    while i < text.len()
        invariant
            i <= s.len(),
            s == text@,
            views_of(ws@) + words_from(s, i as int) == words_of(s),
            good_words(views_of(ws@)),
            ws@.len() <= i,
            forall|k: int| 0 <= k < ws@.len() ==> ws@[k]@.len() <= s.len(),
        decreases s.len() - i,
    {
        if is_break_b(text[i]) {
            i += 1;
        } else {
            proof {
                lemma_word_end_bounds(s, i as int);
            }
            let mut j: usize = i;
            while j < text.len() && !is_break_b(text[j])
                invariant
                    i <= j <= s.len(),
                    s == text@,
                    word_end(s, i as int) == word_end(s, j as int),
                decreases s.len() - j,
            {
                j += 1;
            }
            assert(word_end(s, j as int) == j);
            let w = subvec(text, i, j);
            proof {
                assert(views_of(ws@.push(w)) =~= views_of(ws@).push(w@));
                assert(words_from(s, i as int) == seq![s.subrange(i as int, j as int)]
                    + words_from(s, j as int));
                assert(views_of(ws@).push(w@) + words_from(s, j as int) =~= views_of(ws@) + (seq![
                    w@,
                ] + words_from(s, j as int)));
                assert(forall|m: int| 0 <= m < w@.len() ==> w@[m] == s[i + m]);
            }
            ws.push(w);
            i = j;
        }
    }
    ws
}

/// Greedily packs a word list into lines of at most `maxcols` bytes; a word
/// longer than `maxcols` stands alone on its own (overlong) line. The words
/// of the produced lines are exactly the input words, in order.
pub fn pack_words(ws: &Vec<Vec<u8>>, maxcols: usize) -> (lines: Vec<Vec<u8>>)
    requires
        1 <= maxcols <= 1000000,
        good_words(views_of(ws@)),
        ws@.len() <= 65536,
        forall|k: int| 0 <= k < ws@.len() ==> ws@[k]@.len() <= 65536,
    ensures
        lines_words(views_of(lines@)) == views_of(ws@),
        views_of(lines@) == pack_rec(views_of(ws@), 0, Seq::<u8>::empty(), maxcols as int),
        forall|t: int| 0 <= t < lines@.len() ==> lines@[t]@.len() <= maxcols + 65536,
        (forall|k: int| 0 <= k < ws@.len() ==> ws@[k]@.len() <= maxcols) ==> (forall|t: int|
            0 <= t < lines@.len() ==> lines@[t]@.len() <= maxcols),
        lines@.len() <= ws@.len(),
        forall|t: int| 0 <= t < lines@.len() ==> lines@[t]@.len() > 0,
{
    let ghost all = views_of(ws@);
    proof {
        assert(Seq::<Seq<u8>>::empty() + pack_rec(all, 0, Seq::<u8>::empty(), maxcols as int)
            =~= pack_rec(all, 0, Seq::<u8>::empty(), maxcols as int));
    }
    let mut lines: Vec<Vec<u8>> = Vec::new();
    let mut cur: Vec<u8> = Vec::new();
    let ghost mut cur_ws: Seq<Seq<u8>> = Seq::empty();
    let mut k: usize = 0;
    while k < ws.len()
        invariant
            k <= ws@.len(),
            all == views_of(ws@),
            ws@.len() <= 65536,
            forall|m: int| 0 <= m < ws@.len() ==> ws@[m]@.len() <= 65536,
            good_words(all),
            1 <= maxcols <= 1000000,
            cur@ == join_space(cur_ws),
            good_words(cur_ws),
            cur_ws.len() <= k,
            cur@.len() <= maxcols + 65536,
            lines_words(views_of(lines@)) + cur_ws =~= all.take(k as int),
            pack_rec(all, 0, Seq::<u8>::empty(), maxcols as int) == views_of(lines@) + pack_rec(
                all,
                k as int,
                cur@,
                maxcols as int,
            ),
            forall|t: int| 0 <= t < lines@.len() ==> lines@[t]@.len() <= maxcols + 65536,
            (forall|m: int| 0 <= m < ws@.len() ==> ws@[m]@.len() <= maxcols) ==> ((forall|t: int|
                0 <= t < lines@.len() ==> lines@[t]@.len() <= maxcols) && cur@.len() <= maxcols),
            forall|t: int| 0 <= t < lines@.len() ==> lines@[t]@.len() > 0,
            lines@.len() + cur_ws.len() <= k,
        decreases ws@.len() - k,
    {
        let w = &ws[k];
        assert(all[k as int] == w@);
        proof {
            lemma_join_space_nonempty(cur_ws);
        }
        if cur.len() == 0 {
            assert(cur_ws.len() == 0);
            cur = subvec(w.as_slice(), 0, w.len());
            assert(cur@ =~= w@);
            proof {
                assert(lines_words(views_of(lines@)) + cur_ws =~= lines_words(views_of(lines@)));
                cur_ws = seq![w@];
                assert(join_space(cur_ws) == w@);
                assert(all.take((k + 1) as int) =~= all.take(k as int).push(w@));
                assert(lines_words(views_of(lines@)) + cur_ws =~= all.take(k as int).push(w@));
                assert(pack_rec(all, k as int, Seq::<u8>::empty(), maxcols as int) == pack_rec(
                    all,
                    k as int + 1,
                    w@,
                    maxcols as int,
                ));
            }
        } else if w.len() <= maxcols && cur.len() + 1 + w.len() <= maxcols {
            let ghost old_ws = cur_ws;
            cur.push(32);
            append_bytes(&mut cur, w);
            proof {
                cur_ws = cur_ws.push(w@);
                assert(cur_ws.drop_last() =~= old_ws);
                assert(cur_ws.last() == w@);
                assert(cur_ws.len() >= 2);
                assert(join_space(cur_ws) == join_space(old_ws) + seq![32u8] + w@);
                assert(cur@ =~= join_space(old_ws) + seq![32u8] + w@);
                assert(all.take((k + 1) as int) =~= all.take(k as int).push(w@));
                assert(lines_words(views_of(lines@)) + cur_ws =~= (lines_words(views_of(lines@))
                    + old_ws).push(w@));
                assert(pack_rec(all, k as int, join_space(old_ws), maxcols as int) == pack_rec(
                    all,
                    k as int + 1,
                    join_space(old_ws) + seq![32u8] + w@,
                    maxcols as int,
                ));
            }
        } else {
            proof {
                lemma_words_join(cur_ws);
                assert(views_of(lines@.push(cur)) =~= views_of(lines@).push(cur@));
                assert(views_of(lines@).push(cur@).drop_last() =~= views_of(lines@));
                assert(lines_words(views_of(lines@.push(cur))) == lines_words(views_of(lines@))
                    + cur_ws);
            }
            lines.push(cur);
            cur = subvec(w.as_slice(), 0, w.len());
            assert(cur@ =~= w@);
            proof {
                let ghost prev = views_of(lines@).drop_last();
                cur_ws = seq![w@];
                assert(join_space(cur_ws) == w@);
                assert(all.take((k + 1) as int) =~= all.take(k as int).push(w@));
                assert(lines_words(views_of(lines@)) + cur_ws =~= all.take(k as int).push(w@));
                assert(prev + (seq![views_of(lines@).last()] + pack_rec(
                    all,
                    k as int + 1,
                    w@,
                    maxcols as int,
                )) =~= views_of(lines@) + pack_rec(all, k as int + 1, w@, maxcols as int));
            }
        }
        k += 1;
    }
    assert(all.take(ws@.len() as int) =~= all);
    proof {
        if cur@.len() == 0 {
            assert(views_of(lines@) + pack_rec(all, ws@.len() as int, cur@, maxcols as int)
                =~= views_of(lines@));
        } else {
            assert(views_of(lines@) + pack_rec(all, ws@.len() as int, cur@, maxcols as int)
                =~= views_of(lines@).push(cur@));
            assert(views_of(lines@.push(cur)) =~= views_of(lines@).push(cur@));
        }
    }
    if cur.len() > 0 {
        proof {
            lemma_join_space_nonempty(cur_ws);
            lemma_words_join(cur_ws);
            assert(views_of(lines@.push(cur)) =~= views_of(lines@).push(cur@));
            assert(views_of(lines@).push(cur@).drop_last() =~= views_of(lines@));
            assert(lines_words(views_of(lines@.push(cur))) == lines_words(views_of(lines@))
                + cur_ws);
        }
        lines.push(cur);
    } else {
        assert(cur_ws.len() == 0) by {
            lemma_join_space_nonempty(cur_ws);
        }
        assert(lines_words(views_of(lines@)) + cur_ws =~= lines_words(views_of(lines@)));
    }
    lines
}

/// Wraps a byte string into display lines of at most `maxcols` bytes each,
/// breaking only at whitespace, keeping explicit line breaks (each newline
/// byte ends a line, an empty paragraph yields an empty line) and never
/// splitting a word: the words of the produced lines are exactly the words
/// of the input, in order. A word longer than `maxcols` overflows its own
/// line rather than being split.
pub fn wrap_text(text: &[u8], maxcols: usize) -> (lines: Vec<Vec<u8>>)
    requires
        1 <= maxcols <= 1000000,
        text@.len() <= 65536,
    ensures
        lines_words(views_of(lines@)) == words_of(text@),
        views_of(lines@) == wrap_spec(text@, maxcols as int),
        forall|t: int| 0 <= t < lines@.len() ==> lines@[t]@.len() <= maxcols + 65536,
        (forall|m: int| 0 <= m < words_of(text@).len() ==> words_of(text@)[m].len() <= maxcols)
            ==> (forall|t: int| 0 <= t < lines@.len() ==> lines@[t]@.len() <= maxcols),
        1 <= lines@.len() <= text@.len() + 2,
{
    let ghost s = text@;
    let ghost fits = forall|m: int|
        0 <= m < words_of(s).len() ==> words_of(s)[m].len() <= maxcols;
    let mut lines: Vec<Vec<u8>> = Vec::new();
    let mut pos: usize = 0;
    proof {
        assert(views_of(lines@) =~= Seq::<Seq<u8>>::empty());
        assert(Seq::<Seq<u8>>::empty() + wrap_rec(s, 0, maxcols as int) =~= wrap_rec(
            s,
            0,
            maxcols as int,
        ));
    }
    loop
        invariant_except_break
            lines_words(views_of(lines@)) + words_from(s, pos as int) == words_of(s),
            wrap_spec(s, maxcols as int) == views_of(lines@) + wrap_rec(
                s,
                pos as int,
                maxcols as int,
            ),
            forall|t: int| 0 <= t < lines@.len() ==> lines@[t]@.len() <= maxcols + 65536,
            fits ==> (forall|t: int| 0 <= t < lines@.len() ==> lines@[t]@.len() <= maxcols),
            lines@.len() <= pos + 1,
        invariant
            pos <= s.len(),
            s == text@,
            s.len() <= 65536,
            1 <= maxcols <= 1000000,
            fits == (forall|m: int|
                0 <= m < words_of(s).len() ==> words_of(s)[m].len() <= maxcols),
        ensures
            lines_words(views_of(lines@)) == words_of(s),
            views_of(lines@) == wrap_spec(s, maxcols as int),
            forall|t: int| 0 <= t < lines@.len() ==> lines@[t]@.len() <= maxcols + 65536,
            fits ==> (forall|t: int| 0 <= t < lines@.len() ==> lines@[t]@.len() <= maxcols),
            1 <= lines@.len() <= s.len() + 2,
        decreases s.len() + 1 - pos,
    {
        let mut e: usize = pos;
        while e < text.len() && text[e] != 10
            invariant
                pos <= e <= s.len(),
                s == text@,
                forall|j: int| pos <= j < e ==> s[j] != 10u8,
                par_end(s, pos as int) == par_end(s, e as int),
            decreases s.len() - e,
        {
            e += 1;
        }
        assert(par_end(s, pos as int) == e);
        let para = subvec(text, pos, e);
        let ghost p = s.subrange(pos as int, e as int);
        let ws = split_words(para.as_slice());
        let pls = pack_words(&ws, maxcols);
        proof {
            // The words of this paragraph, then those of the rest of the
            // text, are exactly the unprocessed words.
            lemma_words_from_shift(s, pos as int, 0);
            if e < s.len() {
                assert(s[e as int] == 10u8);
                assert(s.skip(pos as int) =~= p + seq![10u8] + s.skip(e as int + 1));
                lemma_words_sep(p, 10u8, s.skip(e as int + 1));
                lemma_words_from_shift(s, e as int + 1, 0);
                assert(words_from(s, pos as int) == words_of(p) + words_from(s, e as int + 1));
            } else {
                assert(s.skip(pos as int) =~= p);
                assert(words_from(s, pos as int) == words_of(p));
                assert(words_from(s, s.len() as int) =~= Seq::<Seq<u8>>::empty());
                assert(words_of(p) + words_from(s, s.len() as int) =~= words_of(p));
            }
            // Under the global premise, every word of this paragraph fits.
            if fits {
                assert forall|m: int| 0 <= m < ws@.len() implies ws@[m]@.len() <= maxcols by {
                    let done = lines_words(views_of(lines@));
                    assert(views_of(ws@)[m] == ws@[m]@);
                    assert(views_of(ws@)[m] == words_of(p)[m]);
                    assert((done + words_from(s, pos as int))[done.len() + m] == words_of(
                        s,
                    )[done.len() + m]);
                    assert(words_of(s)[done.len() + m] == words_of(p)[m]);
                }
            }
        }
        let mut pls = pls;
        if pls.len() == 0 {
            proof {
                assert(views_of(pls@) =~= Seq::<Seq<u8>>::empty());
                assert(lines_words(views_of(pls@)) =~= Seq::<Seq<u8>>::empty());
                assert(words_of(p) =~= Seq::<Seq<u8>>::empty());
            }
            pls.push(Vec::new());
            proof {
                assert(views_of(pls@) =~= Seq::<Seq<u8>>::empty().push(Seq::<u8>::empty()));
                assert(views_of(pls@).drop_last() =~= Seq::<Seq<u8>>::empty());
                assert(words_of(Seq::<u8>::empty()) =~= Seq::<Seq<u8>>::empty());
                assert(lines_words(views_of(pls@)) =~= words_of(p));
            }
        }
        let ghost old_lines = views_of(lines@);
        let ghost n_pls = pls@.len();
        proof {
            assert(views_of(pls@) == (if pack_rec(
                words_of(p),
                0,
                Seq::<u8>::empty(),
                maxcols as int,
            ).len() == 0 {
                seq![Seq::<u8>::empty()]
            } else {
                pack_rec(words_of(p), 0, Seq::<u8>::empty(), maxcols as int)
            }));
            assert(forall|t: int| 0 <= t < old_lines.len() ==> old_lines[t] == lines@[t]@);
            assert(forall|t: int|
                0 <= t < old_lines.len() ==> old_lines[t].len() <= maxcols + 65536);
            assert(fits ==> forall|t: int|
                0 <= t < old_lines.len() ==> old_lines[t].len() <= maxcols);
            assert(forall|t: int| 0 <= t < n_pls ==> views_of(pls@)[t] == pls@[t]@);
            assert(forall|t: int|
                0 <= t < n_pls ==> views_of(pls@)[t].len() <= maxcols + 65536);
            assert(fits ==> forall|t: int|
                0 <= t < n_pls ==> views_of(pls@)[t].len() <= maxcols);
        }
        lines = append_lines(lines, &pls);
        proof {
            lemma_lines_words_concat(old_lines, views_of(pls@));
            assert(lines_words(views_of(lines@)) == lines_words(old_lines) + words_of(p));
            assert forall|t: int| 0 <= t < lines@.len() implies lines@[t]@.len() <= maxcols
                + 65536 by {
                assert(views_of(lines@)[t] == lines@[t]@);
                if t < old_lines.len() {
                    assert(views_of(lines@)[t] == old_lines[t]);
                } else {
                    assert(views_of(lines@)[t] == views_of(pls@)[t - old_lines.len()]);
                }
            }
            if fits {
                assert forall|t: int| 0 <= t < lines@.len() implies lines@[t]@.len()
                    <= maxcols by {
                    assert(views_of(lines@)[t] == lines@[t]@);
                    if t < old_lines.len() {
                        assert(views_of(lines@)[t] == old_lines[t]);
                    } else {
                        assert(views_of(lines@)[t] == views_of(pls@)[t - old_lines.len()]);
                    }
                }
            }
        }
        proof {
            if e < s.len() {
                assert(wrap_rec(s, pos as int, maxcols as int) == views_of(pls@) + wrap_rec(
                    s,
                    e as int + 1,
                    maxcols as int,
                ));
                assert(old_lines + (views_of(pls@) + wrap_rec(s, e as int + 1, maxcols as int))
                    =~= views_of(lines@) + wrap_rec(s, e as int + 1, maxcols as int));
            } else {
                assert(wrap_rec(s, pos as int, maxcols as int) == views_of(pls@));
                assert(old_lines + views_of(pls@) =~= views_of(lines@));
            }
        }
        if e == text.len() {
            proof {
                assert(words_from(s, pos as int) == words_of(p));
                assert(lines_words(views_of(lines@)) =~= words_of(s));
                assert(views_of(lines@) == wrap_spec(s, maxcols as int));
            }
            break ;
        }
        pos = e + 1;
    }
    lines
}

/// Copies every line of `src` onto the end of `dst`.
fn append_lines(dst: Vec<Vec<u8>>, src: &Vec<Vec<u8>>) -> (r: Vec<Vec<u8>>)
    ensures
        views_of(r@) == views_of(dst@) + views_of(src@),
{
    let mut r = dst;
    let ghost base = views_of(r@);
    let mut k: usize = 0;
    while k < src.len()
        invariant
            k <= src@.len(),
            views_of(r@) == base + views_of(src@).take(k as int),
        decreases src@.len() - k,
    {
        let w = subvec(src[k].as_slice(), 0, src[k].len());
        proof {
            assert(views_of(r@.push(w)) =~= views_of(r@).push(w@));
            assert(views_of(src@).take((k + 1) as int) =~= views_of(src@).take(k as int).push(
                src@[k as int]@,
            ));
            assert(w@ =~= src@[k as int]@);
            assert(views_of(r@).push(w@) =~= base + views_of(src@).take((k + 1) as int));
        }
        r.push(w);
        k += 1;
    }
    assert(views_of(src@).take(src@.len() as int) =~= views_of(src@));
    r
}

/// A proper word list joins to the empty line only when it is empty.
proof fn lemma_join_space_nonempty(ws: Seq<Seq<u8>>)
    requires
        good_words(ws),
    ensures
        ws.len() > 0 ==> join_space(ws).len() > 0,
        ws.len() == 0 ==> join_space(ws).len() == 0,
{
    if ws.len() == 1 {
        assert(ws[0].len() > 0);
    }
}

} // verus!
