//! Character-level helpers shared by the parsers and the renderers.

use vstd::prelude::*;
use vstd::string::StringExecFns;

verus! {

/// Appends one character to `s`. Wraps `String::push`, which adds exactly
/// the given character at the end and leaves the rest untouched.
#[verifier::external_body]
pub(crate) fn push_char(s: &mut String, c: char)
    ensures
        final(s)@ == old(s)@.push(c),
{
    s.push(c);
}

/// The characters of `s`, in order.
pub fn to_chars(s: &str) -> (v: Vec<char>)
    ensures
        v@ == s@,
{
    let mut v: Vec<char> = Vec::new();
    for c in it: s.chars()
        invariant
            it.seq() == s@,
            v@ == it.seq().take(it.index() as int),
    {
        v.push(c);
        assert(it.seq().take(it.index() + 1) == it.seq().take(it.index() as int).push(c));
    }
    assert(v@ == s@);
    v
}

/// The string made of the characters of `v`, in order.
pub fn from_chars(v: &Vec<char>) -> (s: String)
    ensures
        s@ == v@,
{
    let mut s = String::new();
    let mut i: usize = 0;
    while i < v.len()
        invariant
            i <= v.len(),
            s@ == v@.take(i as int),
        decreases v.len() - i,
    {
        push_char(&mut s, v[i]);
        assert(v@.take(i + 1) == v@.take(i as int).push(v@[i as int]));
        i += 1;
    }
    assert(v@.take(v.len() as int) == v@);
    s
}


/// The texts of a sequence of strings.
pub open spec fn texts(v: Seq<String>) -> Seq<Seq<char>> {
    Seq::new(v.len(), |i: int| v[i]@)
}

/// The pieces of `s` between occurrences of `sep`. A text without `sep` is
/// one piece; two separators in a row, or one at either end, give an empty
/// piece. The result is never empty.
pub open spec fn split(s: Seq<char>, sep: char) -> Seq<Seq<char>>
    decreases s.len(),
{
    if s.len() == 0 {
        seq![Seq::<char>::empty()]
    } else {
        let before = split(s.drop_last(), sep);
        if s.last() == sep {
            before.push(Seq::<char>::empty())
        } else {
            before.drop_last().push(before.last().push(s.last()))
        }
    }
}

/// The pieces written one after the other with `sep` between neighbours.
pub open spec fn join(parts: Seq<Seq<char>>, sep: char) -> Seq<char>
    decreases parts.len(),
{
    if parts.len() == 0 {
        Seq::<char>::empty()
    } else if parts.len() == 1 {
        parts[0]
    } else {
        join(parts.drop_last(), sep).push(sep) + parts.last()
    }
}

pub open spec fn is_space(c: char) -> bool {
    c == ' ' || c == '\t' || c == '\n' || c == '\r' || c == '\x0c'
}

/// The state of a left-to-right scan for words: the words that have ended,
/// and the characters of the word that has not ended yet.
pub open spec fn scan_words(s: Seq<char>) -> (Seq<Seq<char>>, Seq<char>)
    decreases s.len(),
{
    if s.len() == 0 {
        (Seq::<Seq<char>>::empty(), Seq::<char>::empty())
    } else {
        let (done, current) = scan_words(s.drop_last());
        if is_space(s.last()) {
            if current.len() > 0 {
                (done.push(current), Seq::<char>::empty())
            } else {
                (done, current)
            }
        } else {
            (done, current.push(s.last()))
        }
    }
}

/// The words of `s`: its maximal runs of characters other than ASCII
/// whitespace, in order.
pub open spec fn words(s: Seq<char>) -> Seq<Seq<char>> {
    let (done, current) = scan_words(s);
    if current.len() > 0 {
        done.push(current)
    } else {
        done
    }
}

pub proof fn lemma_split_nonempty(s: Seq<char>, sep: char)
    ensures
        split(s, sep).len() >= 1,
    decreases s.len(),
{
    if s.len() > 0 {
        lemma_split_nonempty(s.drop_last(), sep);
    }
}

/// Joining the pieces of a text with the separator gives the text back.
pub proof fn lemma_join_split(s: Seq<char>, sep: char)
    ensures
        join(split(s, sep), sep) == s,
    decreases s.len(),
{
    if s.len() == 0 {
    } else {
        let rest = s.drop_last();
        let before = split(rest, sep);
        lemma_split_nonempty(rest, sep);
        lemma_join_split(rest, sep);
        assert(rest.push(s.last()) == s);
        if s.last() == sep {
            let after = before.push(Seq::<char>::empty());
            assert(after.drop_last() == before);
            assert(join(after, sep) == join(before, sep).push(sep) + Seq::<char>::empty());
            assert(join(before, sep).push(sep) + Seq::<char>::empty() == join(before, sep).push(
                sep,
            ));
        } else {
            let grown = before.last().push(s.last());
            let after = before.drop_last().push(grown);
            assert(after.drop_last() == before.drop_last());
            if before.len() == 1 {
                assert(after[0] == grown);
                assert(before[0] == rest);
            } else {
                let head = join(before.drop_last(), sep).push(sep);
                assert(join(before, sep) == head + before.last());
                assert(join(after, sep) == head + grown);
                assert(head + grown == (head + before.last()).push(s.last()));
            }
        }
    }
}

/// No piece of a split text holds the separator.
pub proof fn lemma_split_pieces(s: Seq<char>, sep: char)
    ensures
        forall|i: int, j: int|
            0 <= i < split(s, sep).len() && 0 <= j < split(s, sep)[i].len() ==> split(
                s,
                sep,
            )[i][j] != sep,
    decreases s.len(),
{
    if s.len() > 0 {
        lemma_split_pieces(s.drop_last(), sep);
        lemma_split_nonempty(s.drop_last(), sep);
    }
}


/// No character of `s` is `sep`.
pub open spec fn free_of(s: Seq<char>, sep: char) -> bool {
    forall|i: int| 0 <= i < s.len() ==> s[i] != sep
}

/// No piece holds `sep`.
pub open spec fn all_free_of(parts: Seq<Seq<char>>, sep: char) -> bool {
    forall|i: int| 0 <= i < parts.len() ==> free_of(#[trigger] parts[i], sep)
}

/// Text without a separator, added at the end, only makes the last piece
/// longer.
pub proof fn lemma_split_append(x: Seq<char>, y: Seq<char>, sep: char)
    requires
        free_of(y, sep),
    ensures
        split(x + y, sep) == split(x, sep).drop_last().push(split(x, sep).last() + y),
    decreases y.len(),
{
    lemma_split_nonempty(x, sep);
    let pieces = split(x, sep);
    if y.len() == 0 {
        assert(x + y == x);
        assert(pieces.last() + y == pieces.last());
        assert(pieces.drop_last().push(pieces.last()) == pieces);
    } else {
        let shorter = y.drop_last();
        lemma_split_append(x, shorter, sep);
        lemma_split_nonempty(x + shorter, sep);
        assert((x + y).drop_last() == x + shorter);
        assert((x + y).last() == y.last());
        let before = split(x + shorter, sep);
        assert(before.drop_last() == pieces.drop_last());
        assert(before.last().push(y.last()) == pieces.last() + y) by {
            assert(shorter.push(y.last()) == y);
            assert((pieces.last() + shorter).push(y.last()) == pieces.last() + y);
        }
    }
}

/// Cutting a joined text at the separator gives the pieces back, where no
/// piece holds the separator.
pub proof fn lemma_split_join(parts: Seq<Seq<char>>, sep: char)
    requires
        parts.len() >= 1,
        all_free_of(parts, sep),
    ensures
        split(join(parts, sep), sep) == parts,
    decreases parts.len(),
{
    let empty = Seq::<char>::empty();
    if parts.len() == 1 {
        lemma_split_append(empty, parts[0], sep);
        assert(empty + parts[0] == parts[0]);
        assert(split(empty, sep) == seq![empty]);
        assert(seq![empty].drop_last().push(empty + parts[0]) == parts);
    } else {
        let init = parts.drop_last();
        assert(all_free_of(init, sep)) by {
            assert forall|i: int| 0 <= i < init.len() implies free_of(#[trigger] init[i], sep) by {
                assert(init[i] == parts[i]);
            }
        }
        lemma_split_join(init, sep);
        let head = join(init, sep).push(sep);
        assert(head.drop_last() == join(init, sep));
        assert(split(head, sep) == init.push(empty));
        lemma_split_append(head, parts.last(), sep);
        assert(init.push(empty).drop_last() == init);
        assert(empty + parts.last() == parts.last());
        assert(init.push(parts.last()) == parts);
    }
}

/// Two runs of pieces that join to the same text are the same run, where
/// no piece holds the separator.
pub proof fn lemma_join_injective(a: Seq<Seq<char>>, b: Seq<Seq<char>>, sep: char)
    requires
        a.len() >= 1,
        b.len() >= 1,
        all_free_of(a, sep),
        all_free_of(b, sep),
        join(a, sep) == join(b, sep),
    ensures
        a == b,
{
    lemma_split_join(a, sep);
    lemma_split_join(b, sep);
}


/// No character of `x` is ASCII whitespace.
pub open spec fn space_free(x: Seq<char>) -> bool {
    forall|i: int| 0 <= i < x.len() ==> !is_space(#[trigger] x[i])
}

/// A word is a non-empty text without ASCII whitespace.
pub open spec fn is_word(x: Seq<char>) -> bool {
    x.len() > 0 && space_free(x)
}

pub open spec fn all_words(ws: Seq<Seq<char>>) -> bool {
    forall|i: int| 0 <= i < ws.len() ==> is_word(#[trigger] ws[i])
}

/// Text without whitespace, added at the end, only makes the word in
/// progress longer.
pub proof fn lemma_scan_word(a: Seq<char>, x: Seq<char>)
    requires
        space_free(x),
    ensures
        scan_words(a + x) == (scan_words(a).0, scan_words(a).1 + x),
    decreases x.len(),
{
    if x.len() == 0 {
        assert(a + x == a);
        assert(scan_words(a).1 + x == scan_words(a).1);
    } else {
        let y = x.drop_last();
        lemma_scan_word(a, y);
        assert((a + x).drop_last() == a + y);
        assert((a + x).last() == x.last());
        assert(!is_space(x[x.len() - 1]));
        assert(y.push(x.last()) == x);
        assert((scan_words(a).1 + y).push(x.last()) == scan_words(a).1 + x);
    }
}

/// After a text with no word in progress at its end, any text is scanned
/// as it would be alone.
pub proof fn lemma_scan_after_gap(a: Seq<char>, x: Seq<char>)
    requires
        scan_words(a).1.len() == 0,
    ensures
        scan_words(a + x) == (scan_words(a).0 + scan_words(x).0, scan_words(x).1),
    decreases x.len(),
{
    let empty = Seq::<char>::empty();
    if x.len() == 0 {
        assert(a + x == a);
        assert(scan_words(a).0 + scan_words(x).0 == scan_words(a).0);
        assert(scan_words(a).1 == empty);
    } else {
        let y = x.drop_last();
        lemma_scan_after_gap(a, y);
        assert((a + x).drop_last() == a + y);
        assert((a + x).last() == x.last());
        let (d, c) = scan_words(y);
        if is_space(x.last()) && c.len() > 0 {
            assert((scan_words(a).0 + d).push(c) == scan_words(a).0 + d.push(c));
        }
    }
}

/// The words that have ended are words, and the word in progress has no
/// whitespace.
pub proof fn lemma_scan_gives_words(s: Seq<char>)
    ensures
        all_words(scan_words(s).0),
        space_free(scan_words(s).1),
    decreases s.len(),
{
    if s.len() > 0 {
        lemma_scan_gives_words(s.drop_last());
        let (d, c) = scan_words(s.drop_last());
        if is_space(s.last()) {
            if c.len() > 0 {
                assert forall|i: int| 0 <= i < d.push(c).len() implies is_word(
                    #[trigger] d.push(c)[i],
                ) by {
                    if i < d.len() {
                        assert(d.push(c)[i] == d[i]);
                    }
                }
            }
        } else {
            assert forall|i: int| 0 <= i < c.push(s.last()).len() implies !is_space(
                #[trigger] c.push(s.last())[i],
            ) by {
                if i < c.len() {
                    assert(c.push(s.last())[i] == c[i]);
                }
            }
        }
    }
}

/// Each of the words of a text is a word.
pub proof fn lemma_words_are_words(s: Seq<char>)
    ensures
        all_words(words(s)),
{
    lemma_scan_gives_words(s);
    let (d, c) = scan_words(s);
    if c.len() > 0 {
        assert forall|i: int| 0 <= i < d.push(c).len() implies is_word(#[trigger] d.push(c)[i]) by {
            if i < d.len() {
                assert(d.push(c)[i] == d[i]);
            }
        }
    }
}

/// At the end of words joined by single spaces, the last word is in
/// progress and the others have ended.
pub proof fn lemma_scan_join(ws: Seq<Seq<char>>)
    requires
        ws.len() >= 1,
        all_words(ws),
    ensures
        scan_words(join(ws, ' ')) == (ws.drop_last(), ws.last()),
    decreases ws.len(),
{
    let empty = Seq::<char>::empty();
    if ws.len() == 1 {
        assert(is_word(ws[0]));
        lemma_scan_word(empty, ws[0]);
        assert(empty + ws[0] == ws[0]);
        assert(ws.drop_last() == Seq::<Seq<char>>::empty());
    } else {
        let init = ws.drop_last();
        assert(all_words(init)) by {
            assert forall|i: int| 0 <= i < init.len() implies is_word(#[trigger] init[i]) by {
                assert(init[i] == ws[i]);
            }
        }
        lemma_scan_join(init);
        let head = join(init, ' ').push(' ');
        assert(head.drop_last() == join(init, ' '));
        assert(is_word(init[init.len() - 1]));
        assert(init.drop_last().push(init.last()) == init);
        assert(scan_words(head) == (init, empty));
        assert(is_word(ws[ws.len() - 1]));
        lemma_scan_word(head, ws.last());
        assert(empty + ws.last() == ws.last());
    }
}

/// Cutting words joined by single spaces into words gives the words
/// back.
pub proof fn lemma_words_join(ws: Seq<Seq<char>>)
    requires
        ws.len() >= 1,
        all_words(ws),
    ensures
        words(join(ws, ' ')) == ws,
{
    lemma_scan_join(ws);
    assert(is_word(ws[ws.len() - 1]));
    assert(ws.drop_last().push(ws.last()) == ws);
}

/// The words of a verb, a space, a key, a space and a rest are the verb,
/// the key and the words of the rest.
pub proof fn lemma_words_of_command(verb: Seq<char>, key: Seq<char>, rest: Seq<char>)
    requires
        is_word(verb),
        is_word(key),
    ensures
        words(verb.push(' ') + key + seq![' '] + rest) == seq![verb, key] + words(rest),
        words(verb.push(' ') + key) == seq![verb, key],
{
    let empty = Seq::<char>::empty();
    let none = Seq::<Seq<char>>::empty();
    lemma_scan_word(empty, verb);
    assert(empty + verb == verb);
    assert(scan_words(verb) == (none, verb));
    let a1 = verb.push(' ');
    assert(a1.drop_last() == verb);
    assert(scan_words(a1) == (none.push(verb), empty));
    let a2 = a1 + key;
    lemma_scan_word(a1, key);
    assert(empty + key == key);
    assert(scan_words(a2) == (none.push(verb), key));
    assert(none.push(verb).push(key) == seq![verb, key]);
    let a3 = a2.push(' ');
    assert(a3.drop_last() == a2);
    assert(scan_words(a3) == (seq![verb, key], empty));
    assert(a2 + seq![' '] == a3);
    lemma_scan_after_gap(a3, rest);
    let (d, c) = scan_words(rest);
    if c.len() > 0 {
        assert((seq![verb, key] + d).push(c) == seq![verb, key] + d.push(c));
    }
}

/// `s` cut at every `sep`.
pub fn split_str(s: &str, sep: char) -> (parts: Vec<String>)
    ensures
        texts(parts@) == split(s@, sep),
        parts.len() >= 1,
{
    let mut done: Vec<String> = Vec::new();
    let mut current = String::new();
    for c in it: s.chars()
        invariant
            it.seq() == s@,
            texts(done@).push(current@) == split(it.seq().take(it.index() as int), sep),
    {
        let ghost seen = it.seq().take(it.index() as int);
        let ghost next = it.seq().take(it.index() + 1);
        proof {
            assert(next.drop_last() == seen);
            assert(next.last() == c);
        }
        if c == sep {
            let ghost before = texts(done@).push(current@);
            done.push(current);
            current = String::new();
            assert(texts(done@) == before);
        } else {
            let ghost before = texts(done@).push(current@);
            push_char(&mut current, c);
            assert(texts(done@).push(current@) == before.drop_last().push(
                before.last().push(c),
            ));
        }
    }
    let ghost before = texts(done@).push(current@);
    assert(s@.take(s@.len() as int) == s@);
    done.push(current);
    assert(texts(done@) == before);
    done
}

/// The texts of `parts[from..to]` with `sep` between neighbours.
pub fn join_strs(parts: &Vec<String>, from: usize, to: usize, sep: char) -> (out: String)
    requires
        from <= to <= parts.len(),
    ensures
        out@ == join(texts(parts@).subrange(from as int, to as int), sep),
{
    let mut out = String::new();
    let mut i: usize = from;
    let ghost all = texts(parts@).subrange(from as int, to as int);
    while i < to
        invariant
            from <= i <= to <= parts.len(),
            all == texts(parts@).subrange(from as int, to as int),
            out@ == join(all.take(i - from), sep),
        decreases to - i,
    {
        let ghost seen = all.take(i - from);
        let ghost next = all.take(i - from + 1);
        proof {
            assert(next.drop_last() == seen);
            assert(next.last() == parts@[i as int]@);
        }
        if i > from {
            push_char(&mut out, sep);
        }
        out.append(parts[i].as_str());
        proof {
            if i == from {
                assert(seen.len() == 0);
                assert(out@ == parts@[i as int]@);
                assert(next.len() == 1);
            }
        }
        i += 1;
    }
    assert(all.take(to - from) == all);
    out
}

/// The words of `s`, in order.
pub fn split_words(s: &str) -> (out: Vec<String>)
    ensures
        texts(out@) == words(s@),
{
    let mut done: Vec<String> = Vec::new();
    let mut current = String::new();
    let mut pending: usize = 0;
    for c in it: s.chars()
        invariant
            it.seq() == s@,
            (texts(done@), current@) == scan_words(it.seq().take(it.index() as int)),
            (pending == 0) == (current@.len() == 0),
            pending <= 1,
    {
        let ghost seen = it.seq().take(it.index() as int);
        let ghost next = it.seq().take(it.index() + 1);
        proof {
            assert(next.drop_last() == seen);
            assert(next.last() == c);
        }
        if c == ' ' || c == '\t' || c == '\n' || c == '\r' || c == '\x0c' {
            if pending > 0 {
                let ghost before = texts(done@);
                let ghost word = current@;
                done.push(current);
                current = String::new();
                pending = 0;
                assert(texts(done@) == before.push(word));
            }
        } else {
            push_char(&mut current, c);
            pending = 1;
        }
    }
    assert(s@.take(s@.len() as int) == s@);
    if pending > 0 {
        let ghost before = texts(done@);
        let ghost word = current@;
        done.push(current);
        assert(texts(done@) == before.push(word));
    }
    done
}


/// Appends the characters `v[from..to]` to `out`.
pub fn push_range(out: &mut String, v: &Vec<char>, from: usize, to: usize)
    requires
        from <= to <= v.len(),
    ensures
        final(out)@ == old(out)@ + v@.subrange(from as int, to as int),
{
    let mut i: usize = from;
    while i < to
        invariant
            from <= i <= to <= v.len(),
            out@ == old(out)@ + v@.subrange(from as int, i as int),
        decreases to - i,
    {
        push_char(out, v[i]);
        assert(v@.subrange(from as int, i + 1) == v@.subrange(from as int, i as int).push(
            v@[i as int],
        ));
        i += 1;
    }
}


/// Whether two texts hold the same characters.
pub fn same_text(a: &str, b: &str) -> (r: bool)
    ensures
        r == (a@ == b@),
{
    String::from_str(a) == String::from_str(b)
}

} // verus!
