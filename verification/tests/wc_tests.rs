use wc_rs::counter::count_bytes;
use wc_rs::counter::count_chars;
use wc_rs::counter::count_file;
use wc_rs::counter::count_lines;
use wc_rs::counter::count_max_line_length;
use wc_rs::counter::count_words;
use wc_rs::report::format_counts;
use wc_rs::report::should_print_total;
use wc_rs::Args;
use wc_rs::Counts;
use wc_rs::Options;

fn all_options() -> Options {
    Options {
        count_lines: true,
        count_words: true,
        count_bytes: true,
        count_chars: true,
        count_max_line_length: true,
    }
}

fn args_with_flags(
    lines: bool,
    words: bool,
    bytes: bool,
    chars: bool,
    max_line_length: bool,
) -> Args {
    Args { lines, words, bytes, chars, max_line_length, files: Vec::new() }
}

#[test]
fn test_counts_add() {
    let mut counts1 = Counts { lines: 2, words: 5, bytes: 30, chars: 30, max_line_length: 15 };
    let counts2 = Counts { lines: 3, words: 10, bytes: 50, chars: 50, max_line_length: 20 };

    counts1.add(&counts2);

    assert_eq!(counts1.lines, 5);
    assert_eq!(counts1.words, 15);
    assert_eq!(counts1.bytes, 80);
    assert_eq!(counts1.chars, 80);
    assert_eq!(counts1.max_line_length, 20);
}

#[test]
fn test_count_file() {
    let content = "Hello, world!\nThis is a test file.";

    let options = all_options();
    let counts = count_file(content, &options);

    assert_eq!(counts.lines, 2);
    assert_eq!(counts.words, 7);
    assert_eq!(counts.bytes, content.len());
    assert_eq!(counts.chars, content.chars().count());
    assert_eq!(counts.max_line_length, 20);
}

#[test]
fn all_flags_on_two_line_text() {
    let counts = count_file("Hello, world!\nThis is a test file.\n", &all_options());
    assert_eq!(counts.lines, 2);
    assert_eq!(counts.words, 7);
    assert_eq!(counts.bytes, 35);
    assert_eq!(counts.chars, 35);
    assert_eq!(counts.max_line_length, 20);
}

#[test]
fn all_flags_on_empty_text() {
    let counts = count_file("", &all_options());
    assert_eq!(counts.lines, 0);
    assert_eq!(counts.words, 0);
    assert_eq!(counts.bytes, 0);
    assert_eq!(counts.chars, 0);
    assert_eq!(counts.max_line_length, 0);
}

#[test]
fn unselected_fields_are_zero() {
    let options = Options {
        count_lines: true,
        count_words: false,
        count_bytes: false,
        count_chars: false,
        count_max_line_length: false,
    };
    let counts = count_file("one two\nthree\n", &options);
    assert_eq!(counts.lines, 2);
    assert_eq!(counts.words, 0);
    assert_eq!(counts.bytes, 0);
    assert_eq!(counts.chars, 0);
    assert_eq!(counts.max_line_length, 0);
}

#[test]
fn line_count_edges() {
    assert_eq!(count_lines(""), 0);
    assert_eq!(count_lines("abc"), 1);
    assert_eq!(count_lines("abc\n"), 1);
    assert_eq!(count_lines("a\n\nb"), 3);
    assert_eq!(count_lines("\n"), 1);
    assert_eq!(count_lines("\n\n"), 2);
}

#[test]
fn word_count_edges() {
    assert_eq!(count_words(""), 0);
    assert_eq!(count_words("  a   b "), 2);
    assert_eq!(count_words("one"), 1);
    assert_eq!(count_words("one\ttwo\nthree"), 3);
    assert_eq!(count_words("  \t \n "), 0);
    assert_eq!(count_words("a\u{a0}b"), 2);
}

#[test]
fn byte_and_char_counts_on_ascii_agree() {
    let text = "plain ascii text";
    assert_eq!(count_bytes(text), 16);
    assert_eq!(count_chars(text), 16);
}

#[test]
fn byte_and_char_counts_on_multibyte_text() {
    let text = "h\u{e9}llo";
    assert_eq!(count_bytes(text), 6);
    assert_eq!(count_chars(text), 5);
    assert_eq!(count_max_line_length(text), 6);
}

#[test]
fn max_line_length_edges() {
    assert_eq!(count_max_line_length(""), 0);
    assert_eq!(count_max_line_length("ab\r\n"), 2);
    assert_eq!(count_max_line_length("ab\r"), 3);
    assert_eq!(count_max_line_length("a\nlonger line\nbb"), 11);
    assert_eq!(count_max_line_length("\n\n"), 0);
}

#[test]
fn build_defaults_when_no_flag_given() {
    let options = Options::build(&args_with_flags(false, false, false, false, false));
    assert!(options.count_lines);
    assert!(options.count_words);
    assert!(options.count_bytes);
    assert!(!options.count_chars);
    assert!(!options.count_max_line_length);
}

#[test]
fn build_keeps_given_flags_verbatim() {
    let options = Options::build(&args_with_flags(false, false, false, true, true));
    assert!(!options.count_lines);
    assert!(!options.count_words);
    assert!(!options.count_bytes);
    assert!(options.count_chars);
    assert!(options.count_max_line_length);
}

#[test]
fn no_flags_behaves_as_lines_words_bytes() {
    let bare = Options::build(&args_with_flags(false, false, false, false, false));
    let explicit = Options::build(&args_with_flags(true, true, true, false, false));
    let text = "some sample\ntext here\n";
    let from_bare = count_file(text, &bare);
    let from_explicit = count_file(text, &explicit);
    assert_eq!(from_bare.lines, from_explicit.lines);
    assert_eq!(from_bare.words, from_explicit.words);
    assert_eq!(from_bare.bytes, from_explicit.bytes);
    assert_eq!(from_bare.chars, from_explicit.chars);
    assert_eq!(from_bare.max_line_length, from_explicit.max_line_length);
}

#[test]
fn get_files_returns_the_sources_in_order() {
    let args = Args {
        lines: false,
        words: false,
        bytes: false,
        chars: false,
        max_line_length: false,
        files: vec![String::from("a.txt"), String::from("-"), String::from("b.txt")],
    };
    assert_eq!(args.get_files(), &vec![
        String::from("a.txt"),
        String::from("-"),
        String::from("b.txt"),
    ]);
}

#[test]
fn aggregation_is_order_independent() {
    let a = Counts { lines: 2, words: 5, bytes: 30, chars: 30, max_line_length: 15 };
    let b = Counts { lines: 3, words: 10, bytes: 50, chars: 50, max_line_length: 20 };

    let mut ab = Counts { lines: a.lines, words: a.words, bytes: a.bytes, chars: a.chars, max_line_length: a.max_line_length };
    ab.add(&b);
    let mut ba = Counts { lines: b.lines, words: b.words, bytes: b.bytes, chars: b.chars, max_line_length: b.max_line_length };
    ba.add(&a);

    assert_eq!(ab.lines, ba.lines);
    assert_eq!(ab.words, ba.words);
    assert_eq!(ab.bytes, ba.bytes);
    assert_eq!(ab.chars, ba.chars);
    assert_eq!(ab.max_line_length, ba.max_line_length);
}

#[test]
fn two_sources_sum_into_a_total() {
    let options = Options::build(&args_with_flags(false, false, false, false, false));
    let first = count_file("a b\n", &options);
    let second = count_file("cc dd ee\n", &options);

    let mut total = Counts::default();
    total.add(&first);
    total.add(&second);

    assert_eq!(total.lines, first.lines + second.lines);
    assert_eq!(total.words, first.words + second.words);
    assert_eq!(total.bytes, first.bytes + second.bytes);

    let first_line = format_counts("a.txt", &first, &options);
    let second_line = format_counts("b.txt", &second, &options);
    let total_line = format_counts("total", &total, &options);
    assert_eq!(first_line, "       1        2        4 a.txt\n");
    assert_eq!(second_line, "       1        3        9 b.txt\n");
    assert_eq!(total_line, "       2        5       13 total\n");
}

#[test]
fn format_skips_unselected_metrics_and_stdin_label() {
    let options = Options {
        count_lines: false,
        count_words: true,
        count_bytes: false,
        count_chars: false,
        count_max_line_length: true,
    };
    let counts = Counts { lines: 0, words: 7, bytes: 0, chars: 0, max_line_length: 20 };
    let line = format_counts("-", &counts, &options);
    assert_eq!(line, "       7       20 \n");
}

#[test]
fn format_does_not_truncate_wide_values() {
    let options = Options {
        count_lines: false,
        count_words: false,
        count_bytes: true,
        count_chars: false,
        count_max_line_length: false,
    };
    let counts = Counts { lines: 0, words: 0, bytes: 123456789, chars: 0, max_line_length: 0 };
    let line = format_counts("big.txt", &counts, &options);
    assert_eq!(line, "123456789 big.txt\n");
}

#[test]
fn format_pads_zero_values() {
    let counts = Counts::default();
    let line = format_counts("empty.txt", &counts, &all_options());
    assert_eq!(line, "       0        0        0        0        0 empty.txt\n");
}

#[test]
fn word_count_agrees_with_whitespace_splitting() {
    let samples = [
        "",
        "a",
        " a ",
        "a\u{1680}b\u{2028}c",
        "tabs\tand\nnewlines",
        "\u{3000}wide\u{205F}spaces\u{202F}x",
        "\u{85}\u{a0}mixed \u{2009}runs\u{200a}",
    ];
    for s in samples {
        assert_eq!(count_words(s), s.split_whitespace().count(), "on {:?}", s);
    }
}

#[test]
fn line_metrics_agree_with_line_splitting() {
    let samples = ["", "abc", "abc\n", "a\r\nb", "bare\r", "a\n\nb\n", "x\r\r\n", "\r\n\r\n", "h\u{e9}\n\u{1f600}"];
    for s in samples {
        assert_eq!(count_lines(s), s.lines().count(), "on {:?}", s);
        assert_eq!(
            count_max_line_length(s),
            s.lines().map(|l| l.len()).max().unwrap_or(0),
            "on {:?}",
            s
        );
    }
}

#[test]
fn total_line_is_owed_only_past_one_success() {
    assert!(!should_print_total(0));
    assert!(!should_print_total(1));
    assert!(should_print_total(2));
    assert!(should_print_total(5));
}
