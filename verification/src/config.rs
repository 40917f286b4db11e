//! The ignore set: characters that the word scanner elides, built from the
//! text of an optional denylist file.
//!
//! The denylist is line-oriented: lines are trimmed, empty lines and lines
//! starting with `#` are skipped, and every character of each remaining
//! line — whitespace in its middle included — becomes ignorable.

use crate::chars::whitespace;
use vstd::prelude::*;

verus! {

/// A set of characters to ignore while counting words.  Viewed as the
/// mathematical set of its members; the order in which characters were
/// inserted and repeated insertions do not matter.
pub struct IgnoreSet {
    chars: Vec<char>,
}

impl View for IgnoreSet {
    type V = Set<char>;

    closed spec fn view(&self) -> Set<char> {
        self.chars@.to_set()
    }
}

impl IgnoreSet {
    /// Creates an empty ignore set.
    pub fn new() -> (s: IgnoreSet)
        ensures
            s@ == Set::<char>::empty(),
    {
        let s = IgnoreSet { chars: Vec::new() };
        proof {
            assert(s@ =~= Set::<char>::empty());
        }
        s
    }

    /// Adds one character to the set.
    pub fn insert(&mut self, c: char)
        ensures
            final(self)@ == old(self)@.insert(c),
    {
        self.chars.push(c);
        proof {
            old(self).chars@.lemma_push_to_set_commute(c);
            assert(self@ =~= old(self)@.insert(c));
        }
    }

    /// Reports whether `c` is a member of the set.
    pub fn contains(&self, c: char) -> (r: bool)
        ensures
            r == self@.contains(c),
    {
        let n = self.chars.len();
        let mut i: usize = 0;
        while i < n
            invariant
                n == self.chars@.len(),
                0 <= i <= n,
                forall|j: int| 0 <= j < i ==> self.chars@[j] != c,
            decreases n - i,
        {
            if self.chars[i] == c {
                return true;
            }
            i += 1;
        }
        false
    }
}

/// `s` without its leading whitespace.
pub open spec fn spec_trim_front(s: Seq<char>) -> Seq<char>
    decreases s.len(),
{
    if s.len() > 0 && whitespace(s[0]) {
        spec_trim_front(s.drop_first())
    } else {
        s
    }
}

/// `s` without its trailing whitespace.
pub open spec fn spec_trim_back(s: Seq<char>) -> Seq<char>
    decreases s.len(),
{
    if s.len() > 0 && whitespace(s.last()) {
        spec_trim_back(s.drop_last())
    } else {
        s
    }
}

/// `s` without its leading and trailing whitespace, as `str::trim` leaves
/// it.
pub open spec fn spec_trim(s: Seq<char>) -> Seq<char> {
    spec_trim_back(spec_trim_front(s))
}

/// The lines of `s`: the segments between line terminators, the terminators
/// themselves excluded.  Empty content has one empty line.
pub open spec fn spec_split_lines(s: Seq<char>) -> Seq<Seq<char>>
    decreases s.len(),
{
    if s.len() == 0 {
        seq![Seq::<char>::empty()]
    } else {
        let rest = spec_split_lines(s.drop_last());
        if s.last() == '\n' {
            rest.push(Seq::<char>::empty())
        } else {
            rest.update(rest.len() - 1, rest.last().push(s.last()))
        }
    }
}

/// Splitting always yields at least one line.
pub proof fn lemma_split_lines_nonempty(s: Seq<char>)
    ensures
        spec_split_lines(s).len() >= 1,
    decreases s.len(),
{
    if s.len() > 0 {
        lemma_split_lines_nonempty(s.drop_last());
    }
}

/// Whether a raw denylist line contributes its characters: once trimmed it
/// is neither empty nor a comment line.
pub open spec fn spec_line_contributes(line: Seq<char>) -> bool {
    spec_trim(line).len() > 0 && spec_trim(line)[0] != '#'
}

/// The characters contributed by the first `k` lines: the union of the
/// trimmed contents of those among them that contribute.
pub open spec fn spec_ignored_up_to(lines: Seq<Seq<char>>, k: int) -> Set<char>
    decreases k,
{
    if k <= 0 {
        Set::<char>::empty()
    } else {
        spec_ignored_up_to(lines, k - 1).union(
            if spec_line_contributes(lines[k - 1]) {
                spec_trim(lines[k - 1]).to_set()
            } else {
                Set::<char>::empty()
            },
        )
    }
}

/// The ignore set denoted by the whole denylist text.
pub open spec fn spec_ignore_chars(text: Seq<char>) -> Set<char> {
    spec_ignored_up_to(spec_split_lines(text), spec_split_lines(text).len() as int)
}

/// Membership in the contribution of the first `k` lines is witnessed by
/// one contributing line among them.
proof fn lemma_ignored_up_to_member(lines: Seq<Seq<char>>, k: int, c: char)
    requires
        0 <= k <= lines.len(),
    ensures
        spec_ignored_up_to(lines, k).contains(c) <==> exists|i: int|
            0 <= i < k && spec_line_contributes(lines[i]) && spec_trim(lines[i]).contains(c),
    decreases k,
{
    if k > 0 {
        lemma_ignored_up_to_member(lines, k - 1, c);
        if spec_ignored_up_to(lines, k).contains(c) {
            if spec_ignored_up_to(lines, k - 1).contains(c) {
                let i = choose|i: int|
                    0 <= i < k - 1 && spec_line_contributes(lines[i]) && spec_trim(
                        lines[i],
                    ).contains(c);
                assert(0 <= i < k && spec_line_contributes(lines[i]) && spec_trim(
                    lines[i],
                ).contains(c));
            } else {
                assert(spec_line_contributes(lines[k - 1]) && spec_trim(
                    lines[k - 1],
                ).contains(c));
            }
        }
        if exists|i: int|
            0 <= i < k && spec_line_contributes(lines[i]) && spec_trim(lines[i]).contains(c) {
            let i = choose|i: int|
                0 <= i < k && spec_line_contributes(lines[i]) && spec_trim(lines[i]).contains(c);
            if i < k - 1 {
                assert(spec_ignored_up_to(lines, k - 1).contains(c));
            }
        }
    }
}

/// A character is ignorable exactly when some line of the text, once
/// trimmed, is neither empty nor a comment and contains it.
pub proof fn lemma_ignore_chars_member(text: Seq<char>, c: char)
    ensures
        spec_ignore_chars(text).contains(c) <==> exists|i: int|
            0 <= i < spec_split_lines(text).len() && spec_line_contributes(
                spec_split_lines(text)[i],
            ) && spec_trim(spec_split_lines(text)[i]).contains(c),
{
    let lines = spec_split_lines(text);
    lemma_ignored_up_to_member(lines, lines.len() as int, c);
}

/// Splits `content` at line terminators into its lines.
fn split_lines(content: &str) -> (lines: Vec<Vec<char>>)
    ensures
        lines@.map_values(|l: Vec<char>| l@) == spec_split_lines(content@),
{
    let len = content.unicode_len();
    let mut lines: Vec<Vec<char>> = Vec::new();
    let mut cur: Vec<char> = Vec::new();
    let mut i: usize = 0;
    proof {
        assert(content@.take(0) =~= Seq::<char>::empty());
        assert(lines@.map_values(|l: Vec<char>| l@).push(cur@) =~= spec_split_lines(
            content@.take(0),
        ));
    }
    while i < len
        invariant
            len == content@.len(),
            0 <= i <= len,
            lines@.map_values(|l: Vec<char>| l@).push(cur@) == spec_split_lines(
                content@.take(i as int),
            ),
        decreases len - i,
    {
        let ch = content.get_char(i);
        proof {
            assert(content@.take(i as int + 1).drop_last() =~= content@.take(i as int));
            assert(content@.take(i as int + 1).last() == content@[i as int]);
            lemma_split_lines_nonempty(content@.take(i as int));
        }
        if ch == '\n' {
            lines.push(cur);
            cur = Vec::new();
            proof {
                assert(lines@.map_values(|l: Vec<char>| l@).push(cur@) =~= spec_split_lines(
                    content@.take(i as int + 1),
                ));
            }
        } else {
            let ghost prev = spec_split_lines(content@.take(i as int));
            let ghost cur0 = cur@;
            cur.push(ch);
            proof {
                assert(prev.last() == cur0);
                assert(lines@.map_values(|l: Vec<char>| l@).push(cur@) =~= prev.update(
                    prev.len() - 1,
                    prev.last().push(ch),
                ));
            }
        }
        i += 1;
    }
    proof {
        assert(content@.take(len as int) =~= content@);
    }
    lines.push(cur);
    proof {
        assert(lines@.map_values(|l: Vec<char>| l@) =~= spec_split_lines(content@));
    }
    lines
}

/// Removes the leading and trailing whitespace of `line`, as `str::trim`
/// does.
fn trim_chars(line: &Vec<char>) -> (t: Vec<char>)
    ensures
        t@ == spec_trim(line@),
{
    let n = line.len();
    let mut a: usize = 0;
    proof {
        assert(line@.skip(0) =~= line@);
    }
    while a < n && line[a].is_whitespace()
        invariant
            n == line@.len(),
            0 <= a <= n,
            spec_trim_front(line@) == spec_trim_front(line@.skip(a as int)),
        decreases n - a,
    {
        proof {
            assert(line@.skip(a as int)[0] == line@[a as int]);
            assert(line@.skip(a as int).drop_first() =~= line@.skip(a as int + 1));
        }
        a += 1;
    }
    proof {
        if a == n {
            assert(line@.skip(a as int) =~= Seq::<char>::empty());
        }
        assert(spec_trim_front(line@) == line@.skip(a as int));
        assert(line@.skip(a as int) =~= line@.subrange(a as int, n as int));
    }
    let mut b: usize = n;
    while b > a && line[b - 1].is_whitespace()
        invariant
            n == line@.len(),
            0 <= a <= b <= n,
            spec_trim_front(line@) == line@.skip(a as int),
            spec_trim(line@) == spec_trim_back(line@.subrange(a as int, b as int)),
        decreases b,
    {
        proof {
            assert(line@.subrange(a as int, b as int).last() == line@[b - 1]);
            assert(line@.subrange(a as int, b as int).drop_last() =~= line@.subrange(
                a as int,
                b as int - 1,
            ));
        }
        b -= 1;
    }
    proof {
        if b == a {
            assert(line@.subrange(a as int, b as int) =~= Seq::<char>::empty());
        } else {
            assert(line@.subrange(a as int, b as int).last() == line@[b - 1]);
        }
        assert(spec_trim(line@) == line@.subrange(a as int, b as int));
    }
    let mut t: Vec<char> = Vec::new();
    let mut j: usize = a;
    proof {
        assert(t@ =~= line@.subrange(a as int, a as int));
    }
    while j < b
        invariant
            n == line@.len(),
            a <= j <= b <= n,
            t@ == line@.subrange(a as int, j as int),
        decreases b - j,
    {
        t.push(line[j]);
        proof {
            assert(t@ =~= line@.subrange(a as int, j as int + 1));
        }
        j += 1;
    }
    t
}

/// The process configuration: the set of characters the word scanner may be
/// told to ignore.
pub struct Config {
    pub ignore_chars: IgnoreSet,
}

impl Config {
    /// A configuration with an empty ignore set, as used when no denylist is
    /// available or readable.
    pub fn empty() -> (cfg: Config)
        ensures
            cfg.ignore_chars@ == Set::<char>::empty(),
    {
        Config { ignore_chars: IgnoreSet::new() }
    }

    /// Builds the configuration from the text of the denylist: every
    /// character of every trimmed, non-empty, non-comment line becomes
    /// ignorable.
    pub fn from_text(text: &str) -> (cfg: Config)
        ensures
            cfg.ignore_chars@ == spec_ignore_chars(text@),
    {
        let lines = split_lines(text);
        let ghost slines = spec_split_lines(text@);
        let mut ignore_chars = IgnoreSet::new();
        let n = lines.len();
        let mut li: usize = 0;
        proof {
            assert(ignore_chars@ =~= spec_ignored_up_to(slines, 0));
        }
        while li < n
            invariant
                n == lines@.len(),
                lines@.map_values(|l: Vec<char>| l@) == slines,
                0 <= li <= n,
                ignore_chars@ == spec_ignored_up_to(slines, li as int),
            decreases n - li,
        {
            let t = trim_chars(&lines[li]);
            proof {
                assert(lines@.map_values(|l: Vec<char>| l@)[li as int] == lines@[li as int]@);
                assert(t@ == spec_trim(slines[li as int]));
            }
            if t.len() > 0 && t[0] != '#' {
                let m = t.len();
                let mut j: usize = 0;
                proof {
                    assert(t@.take(0) =~= Seq::<char>::empty());
                    assert(ignore_chars@ =~= spec_ignored_up_to(slines, li as int).union(
                        t@.take(0).to_set(),
                    ));
                }
                while j < m
                    invariant
                        m == t@.len(),
                        0 <= j <= m,
                        0 <= li < n,
                        t@ == spec_trim(slines[li as int]),
                        spec_line_contributes(slines[li as int]),
                        ignore_chars@ == spec_ignored_up_to(slines, li as int).union(
                            t@.take(j as int).to_set(),
                        ),
                    decreases m - j,
                {
                    ignore_chars.insert(t[j]);
                    proof {
                        t@.take(j as int).lemma_push_to_set_commute(t@[j as int]);
                        assert(t@.take(j as int).push(t@[j as int]) =~= t@.take(j as int + 1));
                        assert(ignore_chars@ =~= spec_ignored_up_to(slines, li as int).union(
                            t@.take(j as int + 1).to_set(),
                        ));
                    }
                    j += 1;
                }
                proof {
                    assert(t@.take(m as int) =~= t@);
                    assert(ignore_chars@ =~= spec_ignored_up_to(slines, li as int + 1));
                }
            } else {
                proof {
                    assert(!spec_line_contributes(slines[li as int]));
                    assert(ignore_chars@ =~= spec_ignored_up_to(slines, li as int + 1));
                }
            }
            li += 1;
        }
        Config { ignore_chars }
    }
}

} // verus!
