//! The mathematical model of the five text metrics: line segmentation,
//! word runs, UTF-8 byte length, character count and maximum line length,
//! all stated over a text as a sequence of characters.

use vstd::prelude::*;
use vstd::utf8::encode_scalar;
use vstd::utf8::encode_utf8;
use vstd::utf8::char_is_scalar;

verus! {

/// True of the Unicode white space characters (the White_Space property):
/// the characters that separate words.
pub open spec fn is_space_char(c: char) -> bool {
    let u = c as u32;
    ||| (0x09 <= u && u <= 0x0D)
    ||| u == 0x20
    ||| u == 0x85
    ||| u == 0xA0
    ||| u == 0x1680
    ||| (0x2000 <= u && u <= 0x200A)
    ||| u == 0x2028
    ||| u == 0x2029
    ||| u == 0x202F
    ||| u == 0x205F
    ||| u == 0x3000
}

/// Decides `is_space_char`.
pub fn char_is_space(c: char) -> (r: bool)
    ensures
        r == is_space_char(c),
{
    let u = c as u32;
    (0x09 <= u && u <= 0x0D) || u == 0x20 || u == 0x85 || u == 0xA0 || u == 0x1680 || (0x2000 <= u
        && u <= 0x200A) || u == 0x2028 || u == 0x2029 || u == 0x202F || u == 0x205F || u == 0x3000
}

/// The length in bytes of one character's UTF-8 encoding.
pub open spec fn char_byte_len(c: char) -> nat {
    encode_scalar(c as u32).len()
}

/// The length in bytes of the text's UTF-8 encoding.
pub open spec fn byte_len(text: Seq<char>) -> nat {
    encode_utf8(text).len()
}

/// Decides `char_byte_len`, by the code point ranges of the four widths.
pub fn char_width(c: char) -> (w: usize)
    ensures
        w == char_byte_len(c),
{
    proof {
        char_is_scalar(c);
    }
    let u = c as u32;
    if u <= 0x7F {
        1
    } else if u <= 0x7FF {
        2
    } else if u <= 0xFFFF {
        3
    } else {
        4
    }
}

/// Appending a character extends the encoding by that character's bytes.
pub proof fn lemma_encode_push(s: Seq<char>, c: char)
    ensures
        encode_utf8(s.push(c)) == encode_utf8(s) + encode_scalar(c as u32),
        byte_len(s.push(c)) == byte_len(s) + char_byte_len(c),
    decreases s.len(),
{
    if s.len() == 0 {
        assert(s.push(c)[0] == c);
        assert(s.push(c).drop_first() =~= Seq::<char>::empty());
        assert(encode_utf8(Seq::<char>::empty()) =~= Seq::<u8>::empty());
        assert(encode_utf8(s.push(c)) =~= encode_scalar(c as u32) + encode_utf8(
            Seq::<char>::empty(),
        ));
        assert(encode_utf8(s.push(c)) =~= encode_utf8(s) + encode_scalar(c as u32));
    } else {
        assert(s.push(c)[0] == s[0]);
        assert(s.push(c).drop_first() =~= s.drop_first().push(c));
        lemma_encode_push(s.drop_first(), c);
        assert(encode_utf8(s.push(c)) =~= encode_utf8(s) + encode_scalar(c as u32));
    }
}

/// The encoding of a concatenation is the concatenation of the encodings.
pub proof fn lemma_encode_concat(a: Seq<char>, b: Seq<char>)
    ensures
        encode_utf8(a + b) == encode_utf8(a) + encode_utf8(b),
        byte_len(a + b) == byte_len(a) + byte_len(b),
    decreases a.len(),
{
    if a.len() == 0 {
        assert(a + b =~= b);
        assert(encode_utf8(a) =~= Seq::<u8>::empty());
        assert(encode_utf8(a + b) =~= encode_utf8(a) + encode_utf8(b));
    } else {
        assert((a + b)[0] == a[0]);
        assert((a + b).drop_first() =~= a.drop_first() + b);
        lemma_encode_concat(a.drop_first(), b);
        assert(encode_utf8(a + b) =~= encode_scalar(a[0] as u32) + (encode_utf8(a.drop_first())
            + encode_utf8(b)));
        assert(encode_utf8(a + b) =~= encode_utf8(a) + encode_utf8(b));
    }
}

/// The raw split of a text on `\n`: the text segments between newline
/// characters, in order. The result always has at least one element; a
/// trailing newline leaves a final empty element.
pub open spec fn split_newline(text: Seq<char>) -> Seq<Seq<char>>
    decreases text.len(),
{
    if text.len() == 0 {
        seq![Seq::<char>::empty()]
    } else if text[0] == '\n' {
        seq![Seq::<char>::empty()] + split_newline(text.drop_first())
    } else {
        let rest = split_newline(text.drop_first());
        seq![seq![text[0]] + rest[0]] + rest.drop_first()
    }
}

/// The raw split is never empty.
pub proof fn lemma_split_newline_len(text: Seq<char>)
    ensures
        split_newline(text).len() >= 1,
    decreases text.len(),
{
    if text.len() > 0 {
        lemma_split_newline_len(text.drop_first());
    }
}

/// How the raw split grows when one character is appended: a newline opens
/// a fresh empty segment, any other character extends the last segment.
pub proof fn lemma_split_newline_push(text: Seq<char>, c: char)
    ensures
        c == '\n' ==> split_newline(text.push(c)) == split_newline(text).push(
            Seq::<char>::empty(),
        ),
        c != '\n' ==> split_newline(text.push(c)) == split_newline(text).update(
            split_newline(text).len() - 1,
            split_newline(text).last().push(c),
        ),
    decreases text.len(),
{
    lemma_split_newline_len(text);
    let p = text.push(c);
    if text.len() == 0 {
        let e = Seq::<char>::empty();
        assert(p[0] == c);
        assert(p.drop_first() =~= e);
        assert(split_newline(e) =~~= seq![Seq::<char>::empty()]);
        if c == '\n' {
            assert(split_newline(p) =~~= split_newline(text).push(Seq::<char>::empty()));
        } else {
            assert(seq![c] + e =~= e.push(c));
            assert(split_newline(p) =~~= split_newline(text).update(
                0,
                split_newline(text).last().push(c),
            ));
        }
    } else {
        let td = text.drop_first();
        lemma_split_newline_len(td);
        assert(p[0] == text[0]);
        assert(p.drop_first() =~= td.push(c));
        lemma_split_newline_push(td, c);
        let rest = split_newline(td);
        let m = rest.len();
        if text[0] == '\n' {
            if c == '\n' {
                assert(split_newline(p) =~~= split_newline(text).push(Seq::<char>::empty()));
            } else {
                assert(split_newline(p) =~~= split_newline(text).update(
                    split_newline(text).len() - 1,
                    split_newline(text).last().push(c),
                ));
            }
        } else {
            if c == '\n' {
                assert(split_newline(td.push(c))[0] == rest[0]);
                assert(split_newline(td.push(c)).drop_first() =~~= rest.drop_first().push(
                    Seq::<char>::empty(),
                ));
                assert(split_newline(p) =~~= split_newline(text).push(Seq::<char>::empty()));
            } else {
                let rest2 = split_newline(td.push(c));
                if m == 1 {
                    assert(rest2[0] == rest[0].push(c));
                    assert(rest2.drop_first() =~~= rest.drop_first());
                    assert(split_newline(text).len() == 1);
                    assert(split_newline(text).last() == seq![text[0]] + rest[0]);
                    assert((seq![text[0]] + rest[0].push(c)) =~= (seq![text[0]] + rest[0]).push(
                        c,
                    ));
                    assert(split_newline(p) =~~= split_newline(text).update(
                        0,
                        split_newline(text).last().push(c),
                    ));
                } else {
                    assert(rest2[0] == rest[0]);
                    assert(rest2.drop_first() =~~= rest.drop_first().update(
                        m - 2,
                        rest.last().push(c),
                    ));
                    assert(split_newline(text).last() == rest.last());
                    assert(split_newline(p) =~~= split_newline(text).update(
                        split_newline(text).len() - 1,
                        split_newline(text).last().push(c),
                    ));
                }
            }
        }
    }
}

/// A line segment with a single trailing carriage return removed: the form
/// a segment takes when the newline that closed it followed a `\r`.
pub open spec fn strip_trailing_cr(line: Seq<char>) -> Seq<char> {
    if line.len() > 0 && line.last() == '\r' {
        line.drop_last()
    } else {
        line
    }
}

/// Every segment of the sequence, with its trailing carriage return
/// stripped.
pub open spec fn strip_all(parts: Seq<Seq<char>>) -> Seq<Seq<char>>
    decreases parts.len(),
{
    if parts.len() == 0 {
        Seq::<Seq<char>>::empty()
    } else {
        strip_all(parts.drop_last()).push(strip_trailing_cr(parts.last()))
    }
}

/// Stripping preserves the number of segments.
pub proof fn lemma_strip_all_len(parts: Seq<Seq<char>>)
    ensures
        strip_all(parts).len() == parts.len(),
    decreases parts.len(),
{
    if parts.len() > 0 {
        lemma_strip_all_len(parts.drop_last());
    }
}

/// The lines of a text: the text is split on newline characters; every
/// segment closed by a newline loses one trailing carriage return; a final
/// segment with no closing newline is kept verbatim, and only if non-empty.
/// An empty text has no lines.
pub open spec fn line_segments(text: Seq<char>) -> Seq<Seq<char>> {
    let parts = split_newline(text);
    let closed = strip_all(parts.drop_last());
    if parts.last().len() == 0 {
        closed
    } else {
        closed.push(parts.last())
    }
}

/// The number of lines of a text.
pub open spec fn lines_count(text: Seq<char>) -> nat {
    line_segments(text).len()
}

/// The largest byte length over a sequence of segments; zero when there
/// are none.
pub open spec fn max_byte_len(segs: Seq<Seq<char>>) -> nat
    decreases segs.len(),
{
    if segs.len() == 0 {
        0
    } else {
        let rest = max_byte_len(segs.drop_last());
        let l = byte_len(segs.last());
        if l > rest {
            l
        } else {
            rest
        }
    }
}

/// The maximum byte length over the lines of a text.
pub open spec fn max_line_length_of(text: Seq<char>) -> nat {
    max_byte_len(line_segments(text))
}

/// True where a word begins: a non-space character at the start of the
/// text or right after a space.
pub open spec fn is_word_start(text: Seq<char>, i: int) -> bool {
    &&& 0 <= i < text.len()
    &&& !is_space_char(text[i])
    &&& (i == 0 || is_space_char(text[i - 1]))
}

/// The number of words of a text: each maximal run of non-space characters
/// begins at exactly one word start, so the runs are counted by their
/// starts.
pub open spec fn words_count(text: Seq<char>) -> nat
    decreases text.len(),
{
    if text.len() == 0 {
        0
    } else {
        words_count(text.drop_last()) + if is_word_start(text, text.len() - 1) {
            1nat
        } else {
            0nat
        }
    }
}

/// How the word count grows when one character is appended.
pub proof fn lemma_words_count_push(text: Seq<char>, c: char)
    ensures
        words_count(text.push(c)) == words_count(text) + if (!is_space_char(c) && (text.len() == 0
            || is_space_char(text.last()))) {
            1nat
        } else {
            0nat
        },
{
    let p = text.push(c);
    assert(p.drop_last() =~= text);
    assert(p.last() == c);
}

/// The largest segment byte length bounds every segment, and is attained
/// by at least one segment when there are any.
pub proof fn lemma_max_byte_len_bounds(segs: Seq<Seq<char>>)
    ensures
        forall|i: int| 0 <= i < segs.len() ==> byte_len(#[trigger] segs[i]) <= max_byte_len(segs),
        segs.len() > 0 ==> exists|i: int|
            0 <= i < segs.len() && byte_len(#[trigger] segs[i]) == max_byte_len(segs),
    decreases segs.len(),
{
    if segs.len() > 0 {
        let rest = segs.drop_last();
        lemma_max_byte_len_bounds(rest);
        assert(forall|i: int| 0 <= i < rest.len() ==> #[trigger] segs[i] == rest[i]);
        if byte_len(segs.last()) >= max_byte_len(rest) {
            assert(byte_len(segs[segs.len() - 1]) == max_byte_len(segs));
        } else {
            let j = choose|i: int|
                0 <= i < rest.len() && byte_len(#[trigger] rest[i]) == max_byte_len(rest);
            assert(byte_len(segs[j]) == max_byte_len(segs));
        }
    }
}

/// The maximum line length of a text bounds the byte length of every one
/// of its lines, and equals the byte length of at least one line whenever
/// the text has a line at all.
pub proof fn lemma_max_line_length_attained(text: Seq<char>)
    ensures
        forall|i: int|
            0 <= i < line_segments(text).len() ==> byte_len(#[trigger] line_segments(text)[i])
                <= max_line_length_of(text),
        line_segments(text).len() > 0 ==> exists|i: int|
            0 <= i < line_segments(text).len() && byte_len(#[trigger] line_segments(text)[i])
                == max_line_length_of(text),
{
    lemma_max_byte_len_bounds(line_segments(text));
}

/// ASCII text encodes to one byte per character, so its byte count equals
/// its character count.
pub proof fn lemma_ascii_byte_len(text: Seq<char>)
    requires
        vstd::utf8::is_ascii_chars(text),
    ensures
        byte_len(text) == text.len(),
{
    vstd::utf8::is_ascii_chars_encode_utf8(text);
}

} // verus!
