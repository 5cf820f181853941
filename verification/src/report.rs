//! The reporter: renders one output line per source, each selected metric
//! right-aligned in a column of width eight, followed by the source label
//! unless the source is standard input.

use vstd::prelude::*;
use crate::counts::Counts;
use crate::options::Options;
use crate::counter::text_chars;

verus! {

/// Relies on alloc's `String::push`: it appends the given character to the
/// end of the string.
pub assume_specification[ String::push ](s: &mut String, ch: char)
    ensures
        final(s)@ == old(s)@.push(ch),
;

/// The character of one decimal digit.
pub open spec fn digit_char(d: nat) -> char {
    if d == 0 {
        '0'
    } else if d == 1 {
        '1'
    } else if d == 2 {
        '2'
    } else if d == 3 {
        '3'
    } else if d == 4 {
        '4'
    } else if d == 5 {
        '5'
    } else if d == 6 {
        '6'
    } else if d == 7 {
        '7'
    } else if d == 8 {
        '8'
    } else {
        '9'
    }
}

/// The decimal representation of a number, most significant digit first,
/// with no leading zeros (zero itself is the single digit `0`).
pub open spec fn dec_rep(n: nat) -> Seq<char>
    decreases n,
{
    if n < 10 {
        seq![digit_char(n)]
    } else {
        dec_rep(n / 10).push(digit_char(n % 10))
    }
}

/// A run of space characters.
pub open spec fn spaces(k: nat) -> Seq<char>
    decreases k,
{
    if k == 0 {
        Seq::<char>::empty()
    } else {
        spaces((k - 1) as nat).push(' ')
    }
}

/// One metric field: the value right-aligned in a column of minimum width
/// eight, followed by a single separating space.
pub open spec fn padded_field(n: nat) -> Seq<char> {
    let digits = dec_rep(n);
    let pad: nat = if digits.len() < 8 {
        (8 - digits.len()) as nat
    } else {
        0
    };
    spaces(pad) + digits + seq![' ']
}

/// A full report line: the selected metrics in the fixed order lines,
/// words, bytes, chars, maximum line length, then the source label unless
/// it is `-`, then a newline.
pub open spec fn report_line(label: Seq<char>, c: Counts, o: Options) -> Seq<char> {
    (if o.count_lines {
        padded_field(c.lines as nat)
    } else {
        Seq::<char>::empty()
    }) + (if o.count_words {
        padded_field(c.words as nat)
    } else {
        Seq::<char>::empty()
    }) + (if o.count_bytes {
        padded_field(c.bytes as nat)
    } else {
        Seq::<char>::empty()
    }) + (if o.count_chars {
        padded_field(c.chars as nat)
    } else {
        Seq::<char>::empty()
    }) + (if o.count_max_line_length {
        padded_field(c.max_line_length as nat)
    } else {
        Seq::<char>::empty()
    }) + (if label == seq!['-'] {
        Seq::<char>::empty()
    } else {
        label
    }) + seq!['\n']
}

/// The decimal digits of a number, most significant first.
pub fn decimal_chars(n: usize) -> (digits: Vec<char>)
    ensures
        digits@ == dec_rep(n as nat),
{
    let mut digits: Vec<char> = Vec::new();
    let mut m: usize = n;
    while m >= 10
        invariant
            dec_rep(n as nat) == dec_rep(m as nat) + digits@,
        decreases m,
    {
        let d = digit_char_of(m % 10);
        let ghost pre = digits@;
        digits.insert(0, d);
        proof {
            assert(dec_rep(m as nat) == dec_rep((m / 10) as nat).push(
                digit_char((m as nat) % 10),
            ));
            assert(digits@ =~= seq![d] + pre);
            assert(dec_rep((m / 10) as nat) + (seq![d] + pre) =~= dec_rep((m / 10) as nat).push(d)
                + pre);
        }
        m = m / 10;
    }
    let d0 = digit_char_of(m);
    let ghost pre = digits@;
    digits.insert(0, d0);
    proof {
        assert(dec_rep(m as nat) =~= seq![digit_char(m as nat)]);
        assert(digits@ =~= seq![d0] + pre);
        assert(seq![d0] + pre =~= dec_rep(m as nat) + pre);
    }
    digits
}

/// Returns the character of a digit.
pub fn digit_char_of(d: usize) -> (c: char)
    requires
        d < 10,
    ensures
        c == digit_char(d as nat),
{
    if d == 0 {
        '0'
    } else if d == 1 {
        '1'
    } else if d == 2 {
        '2'
    } else if d == 3 {
        '3'
    } else if d == 4 {
        '4'
    } else if d == 5 {
        '5'
    } else if d == 6 {
        '6'
    } else if d == 7 {
        '7'
    } else if d == 8 {
        '8'
    } else {
        '9'
    }
}

/// Appends one padded metric field to the line being built.
fn push_field(out: &mut String, n: usize)
    ensures
        final(out)@ == old(out)@ + padded_field(n as nat),
{
    let digits = decimal_chars(n);
    let pad: usize = if digits.len() < 8 {
        8 - digits.len()
    } else {
        0
    };
    let mut k: usize = 0;
    while k < pad
        invariant
            k <= pad,
            out@ == old(out)@ + spaces(k as nat),
        decreases pad - k,
    {
        out.push(' ');
        proof {
            assert((old(out)@ + spaces(k as nat)).push(' ') =~= old(out)@ + spaces(
                (k + 1) as nat,
            ));
        }
        k = k + 1;
    }
    let m = digits.len();
    for i in 0..m
        invariant
            m == digits.len(),
            digits@ == dec_rep(n as nat),
            pad as nat == (if dec_rep(n as nat).len() < 8 {
                (8 - dec_rep(n as nat).len()) as nat
            } else {
                0nat
            }),
            out@ == old(out)@ + spaces(pad as nat) + digits@.take(i as int),
    {
        out.push(digits[i]);
        proof {
            assert((old(out)@ + spaces(pad as nat) + digits@.take(i as int)).push(digits@[i as int])
                =~= old(out)@ + spaces(pad as nat) + digits@.take(i + 1));
        }
    }
    out.push(' ');
    proof {
        assert(digits@.take(m as int) =~= digits@);
        assert((old(out)@ + spaces(pad as nat) + digits@).push(' ') =~= old(out)@ + padded_field(
            n as nat,
        ));
    }
}

/// Renders the report line for one source: each selected metric in order,
/// then the label unless the source is standard input, then a newline.
pub fn format_counts(filename: &str, counts: &Counts, options: &Options) -> (line: String)
    ensures
        line@ == report_line(filename@, *counts, *options),
{
    let mut out = String::new();
    if options.count_lines {
        push_field(&mut out, counts.lines);
    }
    if options.count_words {
        push_field(&mut out, counts.words);
    }
    if options.count_bytes {
        push_field(&mut out, counts.bytes);
    }
    if options.count_chars {
        push_field(&mut out, counts.chars);
    }
    if options.count_max_line_length {
        push_field(&mut out, counts.max_line_length);
    }
    let name = text_chars(filename);
    let is_dash = name.len() == 1 && name[0] == '-';
    proof {
        if is_dash {
            assert(filename@ =~= seq!['-']);
        } else {
            assert(filename@ != seq!['-']);
        }
    }
    if !is_dash {
        out.append(filename);
    }
    out.push('\n');
    proof {
        assert(out@ =~= report_line(filename@, *counts, *options));
    }
    out
}

/// The total line is owed exactly when more than one source succeeded.
pub fn should_print_total(successes: usize) -> (b: bool)
    ensures
        b == (successes > 1),
{
    successes > 1
}

} // verus!
