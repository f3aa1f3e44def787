//! The mathematical model of the tag stripper: a three-mode scanner that
//! consumes one character at a time and keeps only the plain text.

use vstd::prelude::*;

verus! {

/// The scanner is always in exactly one of these modes.
#[derive(Clone, Copy)]
pub enum Mode {
    /// Outside any markup: characters flow to the output.
    PlainText,
    /// Between a `<` and the `>` that closes it: characters are buffered.
    InTag,
    /// Between `<!--` and the `>` that follows a `--`: characters are buffered.
    InComment,
}

/// Everything the scanner carries from one character to the next.
pub struct ScanState {
    pub mode: Mode,
    /// The content of the tag or comment currently being scanned.
    pub buffer: Seq<char>,
    /// Unmatched bogus `<` characters seen inside the current tag, outside quotes.
    pub depth: nat,
    /// The quote delimiter currently open inside a tag, if any.
    pub quote: Option<char>,
    /// The plain text kept so far; append-only.
    pub output: Seq<char>,
}

/// The state before any character has been read.
pub open spec fn initial_state() -> ScanState {
    ScanState {
        mode: Mode::PlainText,
        buffer: Seq::empty(),
        depth: 0,
        quote: None,
        output: Seq::empty(),
    }
}

/// The whitespace characters that reclassify a bare `<` as plain text.
pub open spec fn is_space(c: char) -> bool {
    c == ' ' || c == '\t' || c == '\n' || c == '\r'
}

/// The two quote delimiters recognised inside a tag.
pub open spec fn is_quote_char(c: char) -> bool {
    c == '"' || c == '\''
}

/// A comment closes at a `>` only when the buffered body ends in `--`.
pub open spec fn ends_with_double_dash(b: Seq<char>) -> bool {
    b.len() >= 2 && b[b.len() - 2] == '-' && b[b.len() - 1] == '-'
}

/// One transition of the scanner on the next input character.
pub open spec fn step(st: ScanState, c: char) -> ScanState {
    match st.mode {
        Mode::PlainText => {
            if c == '<' {
                // Provisionally part of a tag: buffer it, emit nothing yet.
                ScanState { mode: Mode::InTag, buffer: seq!['<'], ..st }
            } else {
                ScanState { output: st.output.push(c), ..st }
            }
        },
        Mode::InTag => {
            if c == '<' {
                // A nested bogus `<`; inside quotes it is not structural.
                if st.quote is Some {
                    st
                } else {
                    ScanState { depth: st.depth + 1, ..st }
                }
            } else if c == '>' {
                if st.quote is Some {
                    // A `>` inside a quoted value does not close the tag.
                    st
                } else if st.depth != 0 {
                    // This `>` closes one nested bogus `<`, not the tag.
                    ScanState { depth: (st.depth - 1) as nat, ..st }
                } else {
                    // The tag closes; its content is discarded.
                    ScanState {
                        mode: Mode::PlainText,
                        buffer: Seq::empty(),
                        quote: None,
                        ..st
                    }
                }
            } else if is_quote_char(c) {
                // A matching delimiter closes the open quote; with no quote
                // open it opens one; a mismatched one is inert content.
                let q = if st.quote == Some(c) {
                    None
                } else if st.quote is Some {
                    st.quote
                } else {
                    Some(c)
                };
                ScanState { quote: q, buffer: st.buffer.push(c), ..st }
            } else if c == '-' {
                // `<!--` built character by character opens a comment.
                let m = if st.buffer == seq!['<', '!', '-'] {
                    Mode::InComment
                } else {
                    Mode::InTag
                };
                ScanState { mode: m, buffer: st.buffer.push(c), ..st }
            } else if is_space(c) {
                if st.buffer == seq!['<'] {
                    // A bare `<` followed by whitespace cannot start a tag:
                    // restore the two literal characters `< ` to the output.
                    ScanState {
                        mode: Mode::PlainText,
                        buffer: Seq::empty(),
                        output: st.output + seq!['<', ' '],
                        ..st
                    }
                } else {
                    ScanState { buffer: st.buffer.push(c), ..st }
                }
            } else {
                ScanState { buffer: st.buffer.push(c), ..st }
            }
        },
        Mode::InComment => {
            if c == '>' {
                // Close only after `--`; either way the buffer is cleared, so
                // only the characters since the last `>` are ever inspected.
                let m = if ends_with_double_dash(st.buffer) {
                    Mode::PlainText
                } else {
                    Mode::InComment
                };
                ScanState { mode: m, buffer: Seq::empty(), ..st }
            } else {
                ScanState { buffer: st.buffer.push(c), ..st }
            }
        },
    }
}

/// The state after scanning the whole of `s`, character by character.
pub open spec fn scan(s: Seq<char>) -> ScanState
    decreases s.len(),
{
    if s.len() == 0 {
        initial_state()
    } else {
        step(scan(s.drop_last()), s.last())
    }
}

/// What the stripper returns on `s`: the plain text the scan kept.
pub open spec fn stripped(s: Seq<char>) -> Seq<char> {
    scan(s).output
}

/// Scanning one more character is one more step.
pub proof fn lemma_scan_snoc(s: Seq<char>, i: int)
    requires
        0 <= i < s.len(),
    ensures
        scan(s.take(i + 1)) == step(scan(s.take(i)), s[i]),
{
    assert(s.take(i + 1).drop_last() =~= s.take(i));
    assert(s.take(i + 1).last() == s[i]);
}

/// The nesting depth never exceeds the number of characters scanned, since
/// a step raises it by at most one.
pub proof fn lemma_scan_depth_bound(s: Seq<char>)
    ensures
        scan(s).depth <= s.len(),
    decreases s.len(),
{
    if s.len() > 0 {
        lemma_scan_depth_bound(s.drop_last());
    }
}

/// Relies on std's String::push, which appends the given character to the
/// end of the string.
pub assume_specification[ String::push ](s: &mut String, ch: char)
    ensures
        final(s)@ == old(s)@.push(ch),
;

/// The running scanner: the executable counterpart of `ScanState`, fed one
/// character at a time.
pub struct Scanner {
    mode: Mode,
    buffer: Vec<char>,
    depth: usize,
    quote: Option<char>,
    output: String,
}

impl View for Scanner {
    type V = ScanState;

    closed spec fn view(&self) -> ScanState {
        ScanState {
            mode: self.mode,
            buffer: self.buffer@,
            depth: self.depth as nat,
            quote: self.quote,
            output: self.output@,
        }
    }
}

impl Scanner {
    /// A fresh scanner, in plain text with nothing seen and nothing kept.
    pub fn new() -> (sc: Scanner)
        ensures
            sc@ == initial_state(),
    {
        let sc = Scanner {
            mode: Mode::PlainText,
            buffer: Vec::new(),
            depth: 0,
            quote: None,
            output: String::new(),
        };
        proof {
            assert(sc@ =~= initial_state());
        }
        sc
    }

    /// Consume the next input character, taking exactly one transition of
    /// the model. The depth bound is a machine limit only: it is met by any
    /// input whose length fits in memory (`lemma_scan_depth_bound`).
    pub fn feed(&mut self, c: char)
        requires
            old(self)@.depth < usize::MAX,
        ensures
            final(self)@ == step(old(self)@, c),
    {
        match self.mode {
            Mode::PlainText => {
                if c == '<' {
                    self.mode = Mode::InTag;
                    self.buffer.clear();
                    self.buffer.push('<');
                    proof {
                        assert(self.buffer@ =~= seq!['<']);
                    }
                } else {
                    self.output.push(c);
                }
            },
            Mode::InTag => {
                if c == '<' {
                    if self.quote.is_none() {
                        self.depth = self.depth + 1;
                    }
                } else if c == '>' {
                    if self.quote.is_none() {
                        if self.depth != 0 {
                            self.depth = self.depth - 1;
                        } else {
                            self.quote = None;
                            self.mode = Mode::PlainText;
                            self.buffer.clear();
                        }
                    }
                } else if c == '"' || c == '\'' {
                    let same = match self.quote {
                        Some(q) => q == c,
                        None => false,
                    };
                    if same {
                        self.quote = None;
                    } else if self.quote.is_none() {
                        self.quote = Some(c);
                    }
                    self.buffer.push(c);
                } else if c == '-' {
                    let opens = self.buffer.len() == 3 && self.buffer[0] == '<' && self.buffer[1]
                        == '!' && self.buffer[2] == '-';
                    proof {
                        assert(opens == (self.buffer@ =~= seq!['<', '!', '-']));
                    }
                    if opens {
                        self.mode = Mode::InComment;
                    }
                    self.buffer.push(c);
                } else if c == ' ' || c == '\t' || c == '\n' || c == '\r' {
                    let bare = self.buffer.len() == 1 && self.buffer[0] == '<';
                    proof {
                        assert(bare == (self.buffer@ =~= seq!['<']));
                    }
                    if bare {
                        self.mode = Mode::PlainText;
                        self.output.push('<');
                        self.output.push(' ');
                        self.buffer.clear();
                        proof {
                            assert(self.output@ =~= old(self).output@ + seq!['<', ' ']);
                        }
                    } else {
                        self.buffer.push(c);
                    }
                } else {
                    self.buffer.push(c);
                }
            },
            Mode::InComment => {
                if c == '>' {
                    let closes = self.buffer.len() >= 2 && self.buffer[self.buffer.len() - 2]
                        == '-' && self.buffer[self.buffer.len() - 1] == '-';
                    proof {
                        assert(closes == ends_with_double_dash(self.buffer@));
                    }
                    if closes {
                        self.mode = Mode::PlainText;
                    }
                    self.buffer.clear();
                } else {
                    self.buffer.push(c);
                }
            },
        }
    }

    /// Finish the scan and hand back the plain text kept so far. An input
    /// that ends inside a tag or comment simply has that tail elided.
    pub fn into_output(self) -> (out: String)
        ensures
            out@ == self@.output,
    {
        self.output
    }
}

} // verus!
