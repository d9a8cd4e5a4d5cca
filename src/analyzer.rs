use vstd::prelude::*;
use vstd::string::StrSliceExecFns;

verus! {

/// The number of words in a text: its maximal runs of non-whitespace
/// characters.
pub uninterp spec fn word_count(text: Seq<char>) -> nat;

/// Relies on `str::split_whitespace` and `Iterator::count`: the number of
/// words of the text, which depends on its characters alone.
#[verifier::external_body]
fn count_words(text: &str) -> (r: usize)
    ensures
        r as nat == word_count(text@),
{
    text.split_whitespace().count()
}

/// Counts of words, lines and characters of a text read line by line. Lines
/// after the first add one character each, for the line break before them.
#[derive(Debug, Clone, Copy, PartialEq, Eq, Structural)]
pub struct FileStats {
    pub words: usize,
    pub lines: usize,
    pub chars: usize,
}

impl FileStats {
    /// The counts of a text with no lines.
    pub fn new() -> (r: FileStats)
        ensures
            r == (FileStats { words: 0, lines: 0, chars: 0 }),
    {
        FileStats { words: 0, lines: 0, chars: 0 }
    }

    /// Adds one line (without its line break) to the counts. Returns `false`,
    /// and leaves the counts as they were, when a count would pass
    /// `usize::MAX`.
    pub fn record_line(&mut self, line: &str) -> (ok: bool)
        ensures
            ({
                let brk: int = if old(self).lines == 0 {
                    0
                } else {
                    1
                };
                let lines = old(self).lines + 1;
                let chars = old(self).chars + brk + line@.len();
                let words = old(self).words + word_count(line@);
                &&& ok <==> (lines <= usize::MAX && chars <= usize::MAX && words <= usize::MAX)
                &&& ok ==> final(self).lines == lines && final(self).chars == chars
                    && final(self).words == words
                &&& !ok ==> *final(self) == *old(self)
            }),
    {
        if self.lines == usize::MAX {
            return false;
        }
        let brk: usize = if self.lines == 0 {
            0
        } else {
            1
        };
        let len = line.unicode_len();
        if self.chars > usize::MAX - brk || self.chars + brk > usize::MAX - len {
            return false;
        }
        let w = count_words(line);
        if self.words > usize::MAX - w {
            return false;
        }
        self.lines = self.lines + 1;
        self.chars = self.chars + brk + len;
        self.words = self.words + w;
        true
    }
}

} // verus!
