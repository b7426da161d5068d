//! Text utilities: the lines of a source text, splitting at a separator,
//! and turning bytes into strings.
use vstd::prelude::*;
use vstd::utf8::*;
use vstd::string::*;

verus! {

broadcast use vstd::string::group_string_axioms;

/// The pieces of `s` between occurrences of `sep`, in order; always at least one piece
/// (as `str::split` yields).
pub open spec fn split_seq<A>(s: Seq<A>, sep: A) -> Seq<Seq<A>>
    decreases s.len(),
{
    if s.len() == 0 {
        seq![Seq::<A>::empty()]
    } else {
        let prev = split_seq(s.drop_last(), sep);
        if s.last() == sep {
            prev.push(Seq::<A>::empty())
        } else {
            prev.update(prev.len() - 1, prev.last().push(s.last()))
        }
    }
}

pub proof fn lemma_split_seq_nonempty<A>(s: Seq<A>, sep: A)
    ensures
        split_seq(s, sep).len() >= 1,
    decreases s.len(),
{
    if s.len() > 0 {
        lemma_split_seq_nonempty(s.drop_last(), sep);
    }
}

/// A line without the carriage return that ended it.
pub open spec fn strip_cr(line: Seq<u8>) -> Seq<u8> {
    if line.len() > 0 && line.last() == 13u8 {
        line.drop_last()
    } else {
        line
    }
}

/// The lines of a byte text as `str::lines` yields them: split at `\n`, a `\r` right
/// before a `\n` removed, and no final empty line after a trailing `\n`.
pub open spec fn source_lines(bytes: Seq<u8>) -> Seq<Seq<u8>> {
    let pieces = split_seq(bytes, 10u8);
    let cleaned = Seq::new(
        pieces.len(),
        |i: int|
            if i + 1 < pieces.len() {
                strip_cr(pieces[i])
            } else {
                pieces[i]
            },
    );
    if cleaned.len() > 0 && cleaned.last().len() == 0 {
        cleaned.drop_last()
    } else {
        cleaned
    }
}

/// The lines of a source text, each as its UTF-8 bytes.
pub open spec fn lines_of(source: Seq<char>) -> Seq<Seq<u8>> {
    source_lines(encode_utf8(source))
}

pub open spec fn rows(v: Seq<Vec<u8>>) -> Seq<Seq<u8>> {
    v.map_values(|r: Vec<u8>| r@)
}

pub open spec fn views(v: Seq<String>) -> Seq<Seq<char>> {
    v.map_values(|s: String| s@)
}

/// The characters that a byte sequence encodes, when it is valid UTF-8.
pub open spec fn utf8_text(bytes: Seq<u8>) -> Option<Seq<char>> {
    if valid_utf8(bytes) {
        Some(decode_utf8(bytes))
    } else {
        None
    }
}

/// Splits bytes at every `sep`.
fn split_bytes(bytes: &[u8], sep: u8) -> (r: Vec<Vec<u8>>)
    ensures
        rows(r@) == split_seq(bytes@, sep),
{
    let mut done: Vec<Vec<u8>> = Vec::new();
    let mut cur: Vec<u8> = Vec::new();
    let mut i: usize = 0;
    while i < bytes.len()
        invariant
            i <= bytes.len(),
            split_seq(bytes@.take(i as int), sep) == rows(done@).push(cur@),
        decreases bytes.len() - i,
    {
        let b = bytes[i];
        proof {
            assert(bytes@.take(i + 1).drop_last() == bytes@.take(i as int));
            lemma_split_seq_nonempty(bytes@.take(i as int), sep);
        }
        if b == sep {
            let piece = cur;
            done.push(piece);
            cur = Vec::new();
            assert(rows(done@).push(cur@) == rows(done@.drop_last()).push(piece@).push(Seq::<u8>::empty()));
        } else {
            let ghost before = cur@;
            cur.push(b);
            assert(rows(done@).push(cur@) == rows(done@).push(before).update(
                done@.len() as int, before.push(b)));
        }
        i = i + 1;
    }
    assert(bytes@.take(i as int) == bytes@);
    done.push(cur);
    assert(rows(done@) == rows(done@.drop_last()).push(done@.last()@));
    done
}

/// The lines of `source`, as `str::lines` yields them, each as its UTF-8 bytes.
pub fn split_lines(source: &str) -> (r: Vec<Vec<u8>>)
    ensures
        rows(r@) == lines_of(source@),
{
    let bytes = source.as_bytes();
    let pieces = split_bytes(bytes, 10u8);
    let ghost p = split_seq(bytes@, 10u8);
    proof { lemma_split_seq_nonempty(bytes@, 10u8); }
    let mut lines: Vec<Vec<u8>> = Vec::new();
    let n = pieces.len();
    let mut i: usize = 0;
    while i < n
        invariant
            n == pieces@.len(),
            rows(pieces@) == p,
            p.len() >= 1,
            i <= n,
            lines@.len() == i,
            forall|j: int|
                0 <= j < i ==> (#[trigger] lines@[j])@ == (if j + 1 < p.len() {
                    strip_cr(p[j])
                } else {
                    p[j]
                }),
        decreases n - i,
    {
        let piece = &pieces[i];
        assert(piece@ == p[i as int]);
        let len = piece.len();
        let mut keep = len;
        if i + 1 < n && len > 0 && piece[len - 1] == 13u8 {
            keep = len - 1;
        }
        let mut line: Vec<u8> = Vec::new();
        let mut k: usize = 0;
        while k < keep
            invariant
                keep <= len == piece@.len(),
                k <= keep,
                line@ == piece@.take(k as int),
            decreases keep - k,
        {
            line.push(piece[k]);
            assert(piece@.take(k + 1) == piece@.take(k as int).push(piece@[k as int]));
            k = k + 1;
        }
        assert(line@ == (if i + 1 < p.len() { strip_cr(p[i as int]) } else { p[i as int] }));
        lines.push(line);
        i = i + 1;
    }
    let ghost cleaned = Seq::new(
        p.len(),
        |j: int|
            if j + 1 < p.len() {
                strip_cr(p[j])
            } else {
                p[j]
            },
    );
    assert(rows(lines@) == cleaned);
    if n > 0 && lines[n - 1].len() == 0 {
        lines.pop();
        assert(rows(lines@) == cleaned.drop_last());
    }
    lines
}

/// `String::from_utf8`: the string that the bytes encode, or `None` when they are not
/// valid UTF-8.
#[verifier::external_body]
fn string_from_utf8(bytes: Vec<u8>) -> (r: Option<String>)
    ensures
        r is Some <==> valid_utf8(bytes@),
        r matches Some(s) ==> s@ == decode_utf8(bytes@),
{
    String::from_utf8(bytes).ok()
}

/// The string that `bytes[start..end]` encodes, or `None` when that range is out of
/// bounds or does not hold valid UTF-8.
pub fn utf8_slice(bytes: &Vec<u8>, start: usize, end: usize) -> (r: Option<String>)
    ensures
        r matches Some(s) ==> start <= end <= bytes@.len() && Some(s@) == utf8_text(
            bytes@.subrange(start as int, end as int),
        ),
        r is None ==> !(start <= end <= bytes@.len()) || utf8_text(
            bytes@.subrange(start as int, end as int),
        ) is None,
{
    if start > end || end > bytes.len() {
        return None;
    }
    let mut piece: Vec<u8> = Vec::new();
    let mut k: usize = start;
    while k < end
        invariant
            start <= k <= end <= bytes@.len(),
            piece@ == bytes@.subrange(start as int, k as int),
        decreases end - k,
    {
        piece.push(bytes[k]);
        assert(bytes@.subrange(start as int, k + 1) == bytes@.subrange(start as int, k as int).push(bytes@[k as int]));
        k = k + 1;
    }
    string_from_utf8(piece)
}

/// `String::push`: appends one character.
#[verifier::external_body]
pub(crate) fn string_push(s: &mut String, c: char)
    ensures
        final(s)@ == old(s)@.push(c),
{
    s.push(c)
}

/// The characters of a string, in order.
pub fn chars_of(s: &str) -> (r: Vec<char>)
    ensures
        r@ == s@,
{
    let mut v: Vec<char> = Vec::new();
    for c in it: s.chars()
        invariant
            v@ == it.seq().take(it.index() as int),
    {
        v.push(c);
        assert(v@ == it.seq().take(it.index() + 1));
    }
    v
}

/// Splits a string at every occurrence of `sep`, as `str::split` with a character does.
pub fn split_string(s: &str, sep: char) -> (r: Vec<String>)
    ensures
        views(r@) == split_seq(s@, sep),
{
    let cs = chars_of(s);
    let mut done: Vec<String> = Vec::new();
    let mut cur = String::new();
    let mut i: usize = 0;
    while i < cs.len()
        invariant
            cs@ == s@,
            i <= cs.len(),
            split_seq(s@.take(i as int), sep) == views(done@).push(cur@),
        decreases cs.len() - i,
    {
        let c = cs[i];
        proof {
            assert(s@.take(i + 1).drop_last() == s@.take(i as int));
            lemma_split_seq_nonempty(s@.take(i as int), sep);
        }
        if c == sep {
            let piece = cur;
            done.push(piece);
            cur = String::new();
            assert(views(done@).push(cur@) == views(done@.drop_last()).push(piece@).push(Seq::<char>::empty()));
        } else {
            let ghost before = cur@;
            string_push(&mut cur, c);
            assert(views(done@).push(cur@) == views(done@).push(before).update(
                done@.len() as int, before.push(c)));
        }
        i = i + 1;
    }
    assert(s@.take(i as int) == s@);
    done.push(cur);
    assert(views(done@) == views(done@.drop_last()).push(done@.last()@));
    done
}

/// Whether a string equals a literal.
pub fn text_is(s: &str, lit: &str) -> (r: bool)
    ensures
        r == (s@ == lit@),
{
    s.to_owned() == lit.to_owned()
}

/// Joins two strings.
pub fn concat_str(a: &str, b: &str) -> (r: String)
    ensures
        r@ == a@ + b@,
{
    let mut s = a.to_owned();
    let bs = chars_of(b);
    let mut i: usize = 0;
    while i < bs.len()
        invariant
            bs@ == b@,
            i <= bs.len(),
            s@ == a@ + b@.take(i as int),
        decreases bs.len() - i,
    {
        string_push(&mut s, bs[i]);
        assert(b@.take(i + 1) == b@.take(i as int).push(b@[i as int]));
        i = i + 1;
    }
    assert(b@.take(i as int) == b@);
    s
}

proof fn lemma_split_pieces_lack_sep<A>(s: Seq<A>, sep: A)
    ensures
        forall|k: int| 0 <= k < split_seq(s, sep).len() ==> !(#[trigger] split_seq(s, sep)[k]).contains(sep),
    decreases s.len(),
{
    if s.len() > 0 {
        lemma_split_pieces_lack_sep(s.drop_last(), sep);
        lemma_split_seq_nonempty(s.drop_last(), sep);
        let prev = split_seq(s.drop_last(), sep);
        if s.last() != sep {
            let grown = prev.last().push(s.last());
            assert(!prev[prev.len() - 1].contains(sep));
            assert forall|j: int| 0 <= j < grown.len() implies grown[j] != sep by {
                if j < grown.len() - 1 {
                    assert(grown[j] == prev[prev.len() - 1][j]);
                }
            }
            assert forall|k: int| 0 <= k < split_seq(s, sep).len() implies !(#[trigger] split_seq(s, sep)[k]).contains(sep) by {
                if k < prev.len() - 1 {
                    assert(split_seq(s, sep)[k] == prev[k]);
                } else {
                    assert(split_seq(s, sep)[k] == grown);
                }
            }
        } else {
            assert forall|k: int| 0 <= k < split_seq(s, sep).len() implies !(#[trigger] split_seq(s, sep)[k]).contains(sep) by {
                if k < prev.len() {
                    assert(split_seq(s, sep)[k] == prev[k]);
                } else {
                    assert(split_seq(s, sep)[k] == Seq::<A>::empty());
                }
            }
        }
    }
}

/// No line of a text holds a line feed.
pub proof fn lines_hold_no_line_feed(source: Seq<char>)
    ensures
        forall|k: int| 0 <= k < lines_of(source).len() ==> !(#[trigger] lines_of(source)[k]).contains(10u8),
{
    let bytes = encode_utf8(source);
    let pieces = split_seq(bytes, 10u8);
    lemma_split_pieces_lack_sep(bytes, 10u8);
    assert forall|k: int| 0 <= k < lines_of(source).len() implies !(#[trigger] lines_of(source)[k]).contains(10u8) by {
        let line = lines_of(source)[k];
        let piece = pieces[k];
        assert(!piece.contains(10u8));
        assert forall|j: int| 0 <= j < line.len() implies line[j] != 10u8 by {
            assert(line[j] == piece[j]);
        }
    }
}

} // verus!
