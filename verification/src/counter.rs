//! Line, word and byte counting with CJK-aware word segmentation.
//!
//! The scanner walks the content once, left to right, with a single state
//! bit: whether it is currently inside a run of word characters.  Each CJK
//! ideograph counts as one word of its own; a maximal run of alphanumerics,
//! apostrophes and hyphens counts as one word; characters of the ignore set
//! are elided, except that they close any open run.

use crate::chars::alphanumeric;
use crate::chars::whitespace;
use crate::config::IgnoreSet;
use vstd::prelude::*;
use vstd::string::*;

verus! {

/// Whether the code point of `c` lies in one of the recognized CJK ranges:
/// the CJK Unified Ideographs block, its extensions A through E, and the two
/// compatibility ideograph blocks.
pub open spec fn spec_is_cjk(c: char) -> bool {
    let code = c as u32;
    ||| (0x4E00 <= code && code <= 0x9FFF)
    ||| (0x3400 <= code && code <= 0x4DBF)
    ||| (0x20000 <= code && code <= 0x2A6DF)
    ||| (0x2A700 <= code && code <= 0x2B73F)
    ||| (0x2B740 <= code && code <= 0x2B81F)
    ||| (0x2B820 <= code && code <= 0x2CEAF)
    ||| (0xF900 <= code && code <= 0xFAFF)
    ||| (0x2F800 <= code && code <= 0x2FA1F)
}

/// Decides membership in the CJK code point ranges.
pub fn is_cjk(ch: char) -> (r: bool)
    ensures
        r == spec_is_cjk(ch),
{
    let code = ch as u32;
    (0x4E00 <= code && code <= 0x9FFF)
        || (0x3400 <= code && code <= 0x4DBF)
        || (0x20000 <= code && code <= 0x2A6DF)
        || (0x2A700 <= code && code <= 0x2B73F)
        || (0x2B740 <= code && code <= 0x2B81F)
        || (0x2B820 <= code && code <= 0x2CEAF)
        || (0xF900 <= code && code <= 0xFAFF)
        || (0x2F800 <= code && code <= 0x2FA1F)
}

/// Decides whether `ch` is a Chinese character, in the broad sense of lying
/// in any recognized CJK range.
pub fn is_chinese(ch: char) -> (r: bool)
    ensures
        r == spec_is_cjk(ch),
{
    is_cjk(ch)
}

/// Whether `c` can belong to a word run: alphanumeric, apostrophe or hyphen.
pub open spec fn spec_is_word_char(c: char) -> bool {
    alphanumeric(c) || c == '\'' || c == '-'
}

/// The number of words the scanner reports on `s` with ignore set `ignore`,
/// starting in state `in_word`.  Mirrors one step of the scan per character:
/// an ignored character is elided and closes any open run; a CJK character
/// counts as one word by itself; whitespace and other punctuation close a
/// run; a word character opens a run if none is open.
pub open spec fn spec_scan(s: Seq<char>, ignore: Set<char>, in_word: bool) -> nat
    decreases s.len(),
{
    if s.len() == 0 {
        0
    } else {
        let c = s[0];
        let rest = s.drop_first();
        if ignore.contains(c) {
            spec_scan(rest, ignore, false)
        } else if spec_is_cjk(c) {
            1 + spec_scan(rest, ignore, false)
        } else if whitespace(c) {
            spec_scan(rest, ignore, false)
        } else if spec_is_word_char(c) {
            (if in_word {
                0nat
            } else {
                1nat
            }) + spec_scan(rest, ignore, true)
        } else {
            spec_scan(rest, ignore, false)
        }
    }
}

/// The word count of `s` under ignore set `ignore`: a scan that starts
/// outside any word run.
pub open spec fn spec_word_count(s: Seq<char>, ignore: Set<char>) -> nat {
    spec_scan(s, ignore, false)
}

/// Counts words in `content`: each CJK character is one word, and each
/// maximal run of contiguous word characters is one word.  Characters of
/// `ignore_chars` are elided, closing any open run.
pub fn count_words(content: &str, ignore_chars: &IgnoreSet) -> (n: usize)
    ensures
        n as nat == spec_word_count(content@, ignore_chars@),
{
    let len = content.unicode_len();
    let mut word_count: usize = 0;
    let mut in_word = false;
    let mut i: usize = 0;
    proof {
        assert(content@.skip(0) =~= content@);
    }
    while i < len
        invariant
            len == content@.len(),
            0 <= i <= len,
            word_count <= i,
            spec_word_count(content@, ignore_chars@) == word_count + spec_scan(
                content@.skip(i as int),
                ignore_chars@,
                in_word,
            ),
        decreases len - i,
    {
        let ch = content.get_char(i);
        proof {
            assert(content@.skip(i as int)[0] == content@[i as int]);
            assert(content@.skip(i as int).drop_first() =~= content@.skip(i as int + 1));
        }
        if ignore_chars.contains(ch) {
            in_word = false;
        } else if is_cjk(ch) {
            word_count += 1;
            in_word = false;
        } else if ch.is_whitespace() {
            in_word = false;
        } else if ch.is_alphanumeric() || ch == '\'' || ch == '-' {
            if !in_word {
                word_count += 1;
                in_word = true;
            }
        } else {
            in_word = false;
        }
        i += 1;
    }
    proof {
        assert(content@.skip(len as int) =~= Seq::<char>::empty());
    }
    word_count
}

/// A scan reports at most one word per character, whatever the starting
/// state.
proof fn lemma_scan_le_len(s: Seq<char>, ignore: Set<char>, in_word: bool)
    ensures
        spec_scan(s, ignore, in_word) <= s.len(),
    decreases s.len(),
{
    if s.len() > 0 {
        lemma_scan_le_len(s.drop_first(), ignore, false);
        lemma_scan_le_len(s.drop_first(), ignore, true);
    }
}

/// The word count is never negative and never exceeds the number of
/// characters of the content, whatever the ignore set.
pub proof fn lemma_word_count_bounds(s: Seq<char>, ignore: Set<char>)
    ensures
        spec_word_count(s, ignore) >= 0,
        spec_word_count(s, ignore) <= s.len(),
{
    lemma_scan_le_len(s, ignore, false);
}

/// Content without CJK characters and without word characters — only
/// whitespace, punctuation and other symbols — has no words, whatever the
/// ignore set and the starting state.
proof fn lemma_scan_no_word_chars(s: Seq<char>, ignore: Set<char>, in_word: bool)
    requires
        forall|i: int| 0 <= i < s.len() ==> !spec_is_cjk(s[i]) && !spec_is_word_char(s[i]),
    ensures
        spec_scan(s, ignore, in_word) == 0,
    decreases s.len(),
{
    if s.len() > 0 {
        assert(forall|i: int|
            0 <= i < s.drop_first().len() ==> s.drop_first()[i] == s[i + 1]);
        lemma_scan_no_word_chars(s.drop_first(), ignore, false);
        lemma_scan_no_word_chars(s.drop_first(), ignore, true);
    }
}

/// Content without CJK characters and without word characters — only
/// whitespace, punctuation and other symbols — counts zero words, whatever
/// the ignore set.
pub proof fn lemma_no_word_chars_no_words(s: Seq<char>, ignore: Set<char>)
    requires
        forall|i: int| 0 <= i < s.len() ==> !spec_is_cjk(s[i]) && !spec_is_word_char(s[i]),
    ensures
        spec_word_count(s, ignore) == 0,
{
    lemma_scan_no_word_chars(s, ignore, false);
}

/// In content made of CJK characters separated by whitespace, with no CJK
/// character ignored, the scan counts exactly the CJK characters, whatever
/// the starting state.
proof fn lemma_scan_cjk_separated(s: Seq<char>, ignore: Set<char>, in_word: bool)
    requires
        forall|i: int| 0 <= i < s.len() ==> spec_is_cjk(s[i]) || whitespace(s[i]),
        forall|i: int| 0 <= i < s.len() ==> !(spec_is_cjk(s[i]) && ignore.contains(s[i])),
    ensures
        spec_scan(s, ignore, in_word) == spec_cjk_count(s),
    decreases s.len(),
{
    if s.len() > 0 {
        assert(forall|i: int|
            0 <= i < s.drop_first().len() ==> s.drop_first()[i] == s[i + 1]);
        lemma_scan_cjk_separated(s.drop_first(), ignore, false);
        lemma_scan_cjk_separated(s.drop_first(), ignore, true);
    }
}

/// Content made of CJK characters separated by whitespace, none of the CJK
/// characters ignored, counts one word per CJK character: the word count
/// equals the CJK character count, whatever the ignore set does to the
/// whitespace.
pub proof fn lemma_cjk_separated_count(s: Seq<char>, ignore: Set<char>)
    requires
        forall|i: int| 0 <= i < s.len() ==> spec_is_cjk(s[i]) || whitespace(s[i]),
        forall|i: int| 0 <= i < s.len() ==> !(spec_is_cjk(s[i]) && ignore.contains(s[i])),
    ensures
        spec_word_count(s, ignore) == spec_cjk_count(s),
{
    lemma_scan_cjk_separated(s, ignore, false);
}

/// The scanner is a pure function of the content and the ignore set: equal
/// inputs give equal word counts, with no state carried between runs.
pub proof fn lemma_word_count_deterministic(
    s1: Seq<char>,
    ignore1: Set<char>,
    s2: Seq<char>,
    ignore2: Set<char>,
)
    requires
        s1 == s2,
        ignore1 == ignore2,
    ensures
        spec_word_count(s1, ignore1) == spec_word_count(s2, ignore2),
{
}

/// A character of the ignore set at the head of the content is elided: the
/// scan proceeds on the rest, outside any run, whatever the character's
/// classification would have been and whatever the starting state.
pub proof fn lemma_ignored_char_elided(s: Seq<char>, ignore: Set<char>, in_word: bool)
    requires
        s.len() > 0,
        ignore.contains(s[0]),
    ensures
        spec_scan(s, ignore, in_word) == spec_scan(s.drop_first(), ignore, false),
{
}

/// Replacing one character of the content by another, both of them in the
/// ignore set, leaves the scan unchanged, whatever the starting state: an
/// ignored character acts independently of its Unicode category.
proof fn lemma_scan_ignored_interchangeable(
    s: Seq<char>,
    ignore: Set<char>,
    i: int,
    c1: char,
    c2: char,
    in_word: bool,
)
    requires
        0 <= i < s.len(),
        ignore.contains(c1),
        ignore.contains(c2),
    ensures
        spec_scan(s.update(i, c1), ignore, in_word) == spec_scan(s.update(i, c2), ignore, in_word),
    decreases s.len(),
{
    let t1 = s.update(i, c1);
    let t2 = s.update(i, c2);
    if i == 0 {
        assert(t1.drop_first() =~= s.drop_first());
        assert(t2.drop_first() =~= s.drop_first());
    } else {
        assert(t1[0] == s[0]);
        assert(t2[0] == s[0]);
        assert(t1.drop_first() =~= s.drop_first().update(i - 1, c1));
        assert(t2.drop_first() =~= s.drop_first().update(i - 1, c2));
        lemma_scan_ignored_interchangeable(s.drop_first(), ignore, i - 1, c1, c2, false);
        lemma_scan_ignored_interchangeable(s.drop_first(), ignore, i - 1, c1, c2, true);
    }
}

/// Two characters of the ignore set are interchangeable: replacing one by
/// the other anywhere in the content never changes the word count,
/// whatever their Unicode categories.
pub proof fn lemma_ignored_interchangeable(
    s: Seq<char>,
    ignore: Set<char>,
    i: int,
    c1: char,
    c2: char,
)
    requires
        0 <= i < s.len(),
        ignore.contains(c1),
        ignore.contains(c2),
    ensures
        spec_word_count(s.update(i, c1), ignore) == spec_word_count(s.update(i, c2), ignore),
{
    lemma_scan_ignored_interchangeable(s, ignore, i, c1, c2, false);
}

/// The number of line-terminator characters in `s`.
pub open spec fn spec_newline_count(s: Seq<char>) -> nat
    decreases s.len(),
{
    if s.len() == 0 {
        0
    } else {
        (if s[0] == '\n' {
            1nat
        } else {
            0nat
        }) + spec_newline_count(s.drop_first())
    }
}

/// The number of lines of `s`: one per line terminator, plus one for a final
/// line that is not terminated.  Empty content has no lines.
pub open spec fn spec_line_count(s: Seq<char>) -> nat {
    spec_newline_count(s) + if s.len() > 0 && s.last() != '\n' {
        1nat
    } else {
        0nat
    }
}

/// When the last character is not a line terminator, there are strictly
/// fewer terminators than characters.
proof fn lemma_newline_count_below_len(s: Seq<char>)
    requires
        s.len() > 0,
        s.last() != '\n',
    ensures
        spec_newline_count(s) < s.len(),
    decreases s.len(),
{
    if s.len() == 1 {
        assert(s[0] == s.last());
        assert(spec_newline_count(s.drop_first()) == 0);
    } else {
        assert(s.drop_first().last() == s.last());
        lemma_newline_count_below_len(s.drop_first());
    }
}

/// Counts the lines of `content`: one per line terminator, plus one for a
/// final unterminated line.
pub fn count_lines(content: &str) -> (n: usize)
    ensures
        n as nat == spec_line_count(content@),
{
    let len = content.unicode_len();
    let mut newlines: usize = 0;
    let mut i: usize = 0;
    proof {
        assert(content@.skip(0) =~= content@);
    }
    while i < len
        invariant
            len == content@.len(),
            0 <= i <= len,
            newlines <= i,
            spec_newline_count(content@) == newlines + spec_newline_count(
                content@.skip(i as int),
            ),
        decreases len - i,
    {
        let ch = content.get_char(i);
        proof {
            assert(content@.skip(i as int)[0] == content@[i as int]);
            assert(content@.skip(i as int).drop_first() =~= content@.skip(i as int + 1));
        }
        if ch == '\n' {
            newlines += 1;
        }
        i += 1;
    }
    proof {
        assert(content@.skip(len as int) =~= Seq::<char>::empty());
    }
    if len > 0 && content.get_char(len - 1) != '\n' {
        proof {
            assert(content@.last() == content@[len - 1]);
            lemma_newline_count_below_len(content@);
        }
        newlines + 1
    } else {
        newlines
    }
}

/// The number of characters of `s` that lie in the CJK ranges.
pub open spec fn spec_cjk_count(s: Seq<char>) -> nat
    decreases s.len(),
{
    if s.len() == 0 {
        0
    } else {
        (if spec_is_cjk(s[0]) {
            1nat
        } else {
            0nat
        }) + spec_cjk_count(s.drop_first())
    }
}

/// Counts the characters of `content` that lie in the CJK ranges.
pub fn count_cjk_chars(content: &str) -> (n: usize)
    ensures
        n as nat == spec_cjk_count(content@),
{
    let len = content.unicode_len();
    let mut count: usize = 0;
    let mut i: usize = 0;
    proof {
        assert(content@.skip(0) =~= content@);
    }
    while i < len
        invariant
            len == content@.len(),
            0 <= i <= len,
            count <= i,
            spec_cjk_count(content@) == count + spec_cjk_count(content@.skip(i as int)),
        decreases len - i,
    {
        let ch = content.get_char(i);
        proof {
            assert(content@.skip(i as int)[0] == content@[i as int]);
            assert(content@.skip(i as int).drop_first() =~= content@.skip(i as int + 1));
        }
        if is_chinese(ch) {
            count += 1;
        }
        i += 1;
    }
    proof {
        assert(content@.skip(len as int) =~= Seq::<char>::empty());
    }
    count
}

/// The statistics of one piece of content: its line, word and byte counts.
#[derive(Clone, Copy, Debug, PartialEq, Eq, Structural)]
pub struct Stats {
    pub lines: usize,
    pub words: usize,
    pub bytes: usize,
}

/// Computes all statistics of `content` with an empty ignore set: lines are
/// terminator-delimited segments, words come from the scanner, and bytes
/// are the length of the UTF-8 encoding.
pub fn count_all(content: &str) -> (stats: Stats)
    ensures
        stats.lines as nat == spec_line_count(content@),
        stats.words as nat == spec_word_count(content@, Set::<char>::empty()),
        stats.bytes == content.spec_bytes().len() as usize,
        content.spec_bytes().len() <= usize::MAX ==> stats.bytes as nat == content.spec_bytes().len(),
{
    let lines = count_lines(content);
    let bytes = content.len();
    let empty = IgnoreSet::new();
    let words = count_words(content, &empty);
    Stats { lines, words, bytes }
}

/// Computes all statistics of `content`, eliding the characters of
/// `ignore_chars` during the word scan.
pub fn count_with_ignore(content: &str, ignore_chars: &IgnoreSet) -> (stats: Stats)
    ensures
        stats.lines as nat == spec_line_count(content@),
        stats.words as nat == spec_word_count(content@, ignore_chars@),
        stats.bytes == content.spec_bytes().len() as usize,
        content.spec_bytes().len() <= usize::MAX ==> stats.bytes as nat == content.spec_bytes().len(),
{
    let lines = count_lines(content);
    let bytes = content.len();
    let words = count_words(content, ignore_chars);
    Stats { lines, words, bytes }
}

/// Computes statistics where only CJK characters count as words; no ignore
/// set is consulted.  Lines and bytes are computed as in the other modes.
pub fn count_chinese_only(content: &str) -> (stats: Stats)
    ensures
        stats.lines as nat == spec_line_count(content@),
        stats.words as nat == spec_cjk_count(content@),
        stats.bytes == content.spec_bytes().len() as usize,
        content.spec_bytes().len() <= usize::MAX ==> stats.bytes as nat == content.spec_bytes().len(),
{
    let lines = count_lines(content);
    let bytes = content.len();
    let words = count_cjk_chars(content);
    Stats { lines, words, bytes }
}

/// Running totals over a multi-file invocation: the sums of the per-file
/// statistics and the number of files folded in so far.
#[derive(Clone, Copy, Debug, PartialEq, Eq, Structural)]
pub struct Totals {
    pub lines: usize,
    pub words: usize,
    pub bytes: usize,
    pub files: usize,
}

impl Totals {
    /// Creates totals with nothing folded in yet.
    pub fn new() -> (t: Totals)
        ensures
            t.lines == 0,
            t.words == 0,
            t.bytes == 0,
            t.files == 0,
    {
        Totals { lines: 0, words: 0, bytes: 0, files: 0 }
    }

    /// Folds one file's statistics into the totals: each field becomes the
    /// exact arithmetic sum of the old total and the new record.
    pub fn add(&mut self, stats: &Stats)
        requires
            old(self).lines + stats.lines <= usize::MAX,
            old(self).words + stats.words <= usize::MAX,
            old(self).bytes + stats.bytes <= usize::MAX,
            old(self).files + 1 <= usize::MAX,
        ensures
            final(self).lines == old(self).lines + stats.lines,
            final(self).words == old(self).words + stats.words,
            final(self).bytes == old(self).bytes + stats.bytes,
            final(self).files == old(self).files + 1,
    {
        self.lines = self.lines + stats.lines;
        self.words = self.words + stats.words;
        self.bytes = self.bytes + stats.bytes;
        self.files = self.files + 1;
    }
}

} // verus!
