//! Command-line selections: the raw argument record and the effective
//! options derived from it.

use vstd::prelude::*;

verus! {

/// The raw invocation record: five metric selector flags and the ordered
/// list of source names. A source name equal to `-` denotes standard input.
pub struct Args {
    pub lines: bool,
    pub words: bool,
    pub bytes: bool,
    pub chars: bool,
    pub max_line_length: bool,
    pub files: Vec<String>,
}

impl Args {
    /// The ordered list of source names, as given on the command line.
    pub fn get_files(&self) -> (files: &Vec<String>)
        ensures
            files == &self.files,
    {
        &self.files
    }
}

/// The effective set of requested metrics.
pub struct Options {
    pub count_lines: bool,
    pub count_words: bool,
    pub count_bytes: bool,
    pub count_chars: bool,
    pub count_max_line_length: bool,
}

/// The defaulting rule: with no selector flag given, lines, words and bytes
/// are counted; otherwise the given flags are used verbatim.
pub open spec fn effective_options(args: Args) -> Options {
    if !args.lines && !args.words && !args.bytes && !args.chars && !args.max_line_length {
        Options {
            count_lines: true,
            count_words: true,
            count_bytes: true,
            count_chars: false,
            count_max_line_length: false,
        }
    } else {
        Options {
            count_lines: args.lines,
            count_words: args.words,
            count_bytes: args.bytes,
            count_chars: args.chars,
            count_max_line_length: args.max_line_length,
        }
    }
}

impl Options {
    /// Resolves the raw selector flags into the effective options.
    pub fn build(args: &Args) -> (opts: Options)
        ensures
            opts == effective_options(*args),
    {
        let mut lines = args.lines;
        let mut words = args.words;
        let mut bytes = args.bytes;
        let chars = args.chars;
        let max_line_length = args.max_line_length;
        if !lines && !words && !bytes && !chars && !max_line_length {
            lines = true;
            words = true;
            bytes = true;
        }
        Options {
            count_lines: lines,
            count_words: words,
            count_bytes: bytes,
            count_chars: chars,
            count_max_line_length: max_line_length,
        }
    }
}

} // verus!
