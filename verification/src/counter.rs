//! The counter: computes the selected metrics of a text by independent
//! linear scans, each proved against the model in `text`.

use vstd::prelude::*;
use vstd::utf8::encode_utf8;
use crate::counts::Counts;
use crate::counts::CountsModel;
use crate::options::Options;
use crate::options::Args;
use crate::options::effective_options;
use crate::text::byte_len;
use crate::text::char_is_space;
use crate::text::char_width;
use crate::text::lines_count;
use crate::text::max_line_length_of;
use crate::text::words_count;
use crate::text::lemma_words_count_push;
use crate::text::split_newline;
use crate::text::strip_all;
use crate::text::strip_trailing_cr;
use crate::text::line_segments;
use crate::text::max_byte_len;
use crate::text::lemma_split_newline_len;
use crate::text::lemma_split_newline_push;
use crate::text::lemma_strip_all_len;
use crate::text::lemma_encode_push;
use crate::text::lemma_encode_concat;

verus! {

broadcast use vstd::string::axiom_spec_iter;

/// The characters of a text, as a vector.
pub fn text_chars(text: &str) -> (v: Vec<char>)
    ensures
        v@ == text@,
{
    let mut v: Vec<char> = Vec::new();
    for c in it: text.chars()
        invariant
            it.seq() == text@,
            v@ == it.seq().take(it.index()),
    {
        v.push(c);
    }
    assert(v@ =~= text@);
    v
}

/// The number of characters (Unicode scalar values) of the text.
pub fn count_chars(text: &str) -> (n: usize)
    ensures
        n == text@.len(),
{
    let v = text_chars(text);
    v.len()
}

/// The length of the text's UTF-8 encoding, in bytes.
pub fn count_bytes(text: &str) -> (n: usize)
    ensures
        n == byte_len(text@),
{
    let b = text.as_bytes();
    b.len()
}

/// The number of words of the text: the maximal runs of non-space
/// characters, counted at the character where each run begins.
pub fn count_words(text: &str) -> (n: usize)
    ensures
        n == words_count(text@),
{
    let v = text_chars(text);
    let mut count: usize = 0;
    let n = v.len();
    for i in 0..n
        invariant
            v@ == text@,
            n == v.len(),
            count <= i,
            count == words_count(text@.take(i as int)),
    {
        let start = !char_is_space(v[i]) && (i == 0 || char_is_space(v[i - 1]));
        proof {
            let p = text@.take(i as int);
            lemma_words_count_push(p, text@[i as int]);
            assert(text@.take(i + 1) =~= p.push(text@[i as int]));
            if i > 0 {
                assert(p.last() == text@[i as int - 1]);
            }
        }
        if start {
            count = count + 1;
        }
    }
    proof {
        assert(text@.take(n as int) =~= text@);
    }
    count
}

/// The number of lines of the text: one for each newline character, and
/// one more for a final non-empty segment with no closing newline.
pub fn count_lines(text: &str) -> (n: usize)
    ensures
        n == lines_count(text@),
{
    let v = text_chars(text);
    let mut nl: usize = 0;
    let mut line_open: bool = false;
    let n = v.len();
    proof {
        assert(text@.take(0) =~= Seq::<char>::empty());
        assert(split_newline(Seq::<char>::empty()) =~~= seq![Seq::<char>::empty()]);
    }
    for i in 0..n
        invariant
            v@ == text@,
            n == v.len(),
            nl <= i,
            line_open ==> nl < i,
            nl + 1 == split_newline(text@.take(i as int)).len(),
            line_open == (split_newline(text@.take(i as int)).last().len() > 0),
    {
        let c = v[i];
        proof {
            let p = text@.take(i as int);
            lemma_split_newline_len(p);
            lemma_split_newline_push(p, text@[i as int]);
            assert(text@.take(i + 1) =~= p.push(text@[i as int]));
        }
        if c == '\n' {
            nl = nl + 1;
            line_open = false;
        } else {
            line_open = true;
        }
    }
    proof {
        assert(text@.take(n as int) =~= text@);
        lemma_strip_all_len(split_newline(text@).drop_last());
    }
    if line_open {
        nl + 1
    } else {
        nl
    }
}

/// The largest byte length over the lines of the text; zero when the text
/// is empty.
pub fn count_max_line_length(text: &str) -> (n: usize)
    ensures
        n == max_line_length_of(text@),
{
    let total = count_bytes(text);
    let v = text_chars(text);
    let mut best: usize = 0;
    let mut cur: usize = 0;
    let mut prev_cr: bool = false;
    let n = v.len();
    proof {
        assert(text@.take(0) =~= Seq::<char>::empty());
        assert(split_newline(Seq::<char>::empty()) =~~= seq![Seq::<char>::empty()]);
        assert(encode_utf8(Seq::<char>::empty()) =~= Seq::<u8>::empty());
        assert(strip_all(seq![Seq::<char>::empty()].drop_last()) =~~= Seq::<Seq<char>>::empty());
    }
    for i in 0..n
        invariant
            v@ == text@,
            n == v.len(),
            total == byte_len(text@),
            cur == byte_len(split_newline(text@.take(i as int)).last()),
            prev_cr == (split_newline(text@.take(i as int)).last().len() > 0 && split_newline(
                text@.take(i as int),
            ).last().last() == '\r'),
            best == max_byte_len(strip_all(split_newline(text@.take(i as int)).drop_last())),
            cur <= byte_len(text@.take(i as int)),
            best <= byte_len(text@.take(i as int)),
            byte_len(text@.take(i as int)) <= total,
    {
        let c = v[i];
        proof {
            let p = text@.take(i as int);
            lemma_split_newline_len(p);
            lemma_split_newline_push(p, text@[i as int]);
            assert(text@.take(i + 1) =~= p.push(text@[i as int]));
            lemma_encode_push(p, text@[i as int]);
            assert(text@ =~= text@.take(i + 1) + text@.skip(i + 1));
            lemma_encode_concat(text@.take(i + 1), text@.skip(i + 1));
        }
        if c == '\n' {
            let seg = if prev_cr {
                cur - 1
            } else {
                cur
            };
            proof {
                let p = text@.take(i as int);
                let parts = split_newline(p);
                let fin = parts.last();
                let parts2 = split_newline(text@.take(i + 1));
                if prev_cr {
                    assert(fin =~= fin.drop_last().push('\r'));
                    lemma_encode_push(fin.drop_last(), '\r');
                    assert(strip_trailing_cr(fin) == fin.drop_last());
                    assert(byte_len(strip_trailing_cr(fin)) == cur - 1);
                } else {
                    assert(strip_trailing_cr(fin) == fin);
                }
                assert(parts2.drop_last() =~~= parts);
                let closed = strip_all(parts.drop_last());
                assert(strip_all(parts).drop_last() =~~= closed);
                assert(strip_all(parts) == strip_all(parts.drop_last()).push(
                    strip_trailing_cr(fin),
                ));
                assert(max_byte_len(strip_all(parts)) == if byte_len(strip_trailing_cr(fin))
                    > max_byte_len(closed) {
                    byte_len(strip_trailing_cr(fin))
                } else {
                    max_byte_len(closed)
                });
                assert(parts2.last().len() == 0);
                assert(encode_utf8(Seq::<char>::empty()) =~= Seq::<u8>::empty());
            }
            if seg > best {
                best = seg;
            }
            cur = 0;
            prev_cr = false;
        } else {
            let w = char_width(c);
            proof {
                let p = text@.take(i as int);
                let parts = split_newline(p);
                let parts2 = split_newline(text@.take(i + 1));
                assert(parts2.last() == parts.last().push(text@[i as int]));
                lemma_encode_push(parts.last(), text@[i as int]);
                assert(parts2.drop_last() =~~= parts.drop_last());
            }
            cur = cur + w;
            prev_cr = c == '\r';
        }
    }
    proof {
        assert(text@.take(n as int) =~= text@);
        let parts = split_newline(text@);
        let closed = strip_all(parts.drop_last());
        if parts.last().len() == 0 {
            assert(parts.last() =~= Seq::<char>::empty());
            assert(encode_utf8(Seq::<char>::empty()) =~= Seq::<u8>::empty());
            assert(cur == 0);
            assert(line_segments(text@) == closed);
        } else {
            assert(line_segments(text@) == closed.push(parts.last()));
            assert(closed.push(parts.last()).drop_last() =~~= closed);
            assert(closed.push(parts.last()).last() == parts.last());
        }
    }
    if cur > best {
        cur
    } else {
        best
    }
}

/// The metrics of a text under the given options: a selected field holds
/// its metric, an unselected field is zero.
pub open spec fn counts_of(text: Seq<char>, opts: Options) -> CountsModel {
    CountsModel {
        lines: if opts.count_lines {
            lines_count(text) as int
        } else {
            0
        },
        words: if opts.count_words {
            words_count(text) as int
        } else {
            0
        },
        bytes: if opts.count_bytes {
            byte_len(text) as int
        } else {
            0
        },
        chars: if opts.count_chars {
            text.len() as int
        } else {
            0
        },
        max_line_length: if opts.count_max_line_length {
            max_line_length_of(text) as int
        } else {
            0
        },
    }
}

/// Computes the metrics the options select over the given text, each by
/// its own scan; unselected fields are left zero.
pub fn count_file(content: &str, options: &Options) -> (counts: Counts)
    ensures
        counts@ == counts_of(content@, *options),
{
    let mut counts = Counts { lines: 0, words: 0, bytes: 0, chars: 0, max_line_length: 0 };
    if options.count_lines {
        counts.lines = count_lines(content);
    }
    if options.count_words {
        counts.words = count_words(content);
    }
    if options.count_bytes {
        counts.bytes = count_bytes(content);
    }
    if options.count_chars {
        counts.chars = count_chars(content);
    }
    if options.count_max_line_length {
        counts.max_line_length = count_max_line_length(content);
    }
    counts
}

/// With no selector flag given, an invocation behaves exactly as one with
/// the line, word and byte flags: the effective options agree, and so do
/// the metrics of every text.
pub proof fn lemma_default_flags(bare: Args, explicit: Args, text: Seq<char>)
    requires
        !bare.lines && !bare.words && !bare.bytes && !bare.chars && !bare.max_line_length,
        explicit.lines && explicit.words && explicit.bytes && !explicit.chars
            && !explicit.max_line_length,
    ensures
        effective_options(bare) == effective_options(explicit),
        counts_of(text, effective_options(bare)) == counts_of(text, effective_options(explicit)),
{
}

} // verus!

