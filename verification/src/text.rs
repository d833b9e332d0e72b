//! Characters and character sequences: whitespace, searching, substrings
//! and line splitting.
//!
//! Everything here is stated over `Seq<char>`, the view of `str` and
//! `String`. Executable code first turns a string into a `Vec<char>` and then
//! works with character indices.
use vstd::prelude::*;

verus! {

/// Whether `c` has the Unicode property `White_Space`, as `char::is_whitespace`
/// reports it.
pub uninterp spec fn is_whitespace(c: char) -> bool;

/// `char::is_whitespace` of std: the result is a function of the character
/// alone, the one that [`is_whitespace`] names.
pub assume_specification[ char::is_whitespace ](c: char) -> (b: bool)
    ensures
        b == is_whitespace(c),
;

/// `String::push` of std appends one character to the end of the string.
pub assume_specification[ String::push ](s: &mut String, c: char)
    ensures
        final(s)@ == old(s)@.push(c),
;

/// `==` on `str`, which std defines as equality of the two texts.
pub assume_specification[ <str as PartialEq>::eq ](a: &str, b: &str) -> (same: bool)
    ensures
        same == (a@ == b@),
;

/// A set of characters that a search can look for.
#[derive(Clone, Copy, Debug)]
pub enum CharClass {
    /// Every character that is not whitespace.
    NotWhitespace,
    /// The given character only.
    Is(char),
    /// One of the two given characters.
    Either(char, char),
}

impl CharClass {
    /// Whether `c` belongs to the class.
    pub open spec fn holds(self, c: char) -> bool {
        match self {
            CharClass::NotWhitespace => !is_whitespace(c),
            CharClass::Is(x) => c == x,
            CharClass::Either(x, y) => c == x || c == y,
        }
    }

    /// Tests whether `c` belongs to the class.
    pub fn test(&self, c: char) -> (b: bool)
        ensures
            b == self.holds(c),
    {
        match self {
            CharClass::NotWhitespace => !c.is_whitespace(),
            CharClass::Is(x) => c == *x,
            CharClass::Either(x, y) => c == *x || c == *y,
        }
    }
}

/// The least index `i >= from` at which `s` holds a character of `class`, or
/// `s.len()` if there is none.
pub open spec fn first_at(s: Seq<char>, from: int, class: CharClass) -> int
    decreases s.len() - from,
{
    if from >= s.len() {
        s.len() as int
    } else if class.holds(s[from]) {
        from
    } else {
        first_at(s, from + 1, class)
    }
}

/// `first_at` lies between `from` and the end, skips only characters outside
/// the class, and stops on a character of the class.
pub proof fn lemma_first_at(s: Seq<char>, from: int, class: CharClass)
    requires
        0 <= from <= s.len(),
    ensures
        from <= first_at(s, from, class) <= s.len(),
        forall|k: int| from <= k < first_at(s, from, class) ==> !class.holds(#[trigger] s[k]),
        first_at(s, from, class) < s.len() ==> class.holds(s[first_at(s, from, class)]),
    decreases s.len() - from,
{
    if from < s.len() && !class.holds(s[from]) {
        lemma_first_at(s, from + 1, class);
    }
}

/// Any index with the three properties of [`lemma_first_at`] is `first_at`.
pub proof fn lemma_first_at_unique(s: Seq<char>, from: int, class: CharClass, i: int)
    requires
        0 <= from <= i <= s.len(),
        forall|k: int| from <= k < i ==> !class.holds(#[trigger] s[k]),
        i < s.len() ==> class.holds(s[i]),
    ensures
        first_at(s, from, class) == i,
    decreases s.len() - from,
{
    if from < i {
        lemma_first_at_unique(s, from + 1, class, i);
    }
}

/// The characters of `s`, in order.
pub fn to_chars(s: &str) -> (chars: Vec<char>)
    ensures
        chars@ == s@,
{
    let mut chars: Vec<char> = Vec::new();
    for c in it: s.chars()
        invariant
            it.seq() == s@,
            chars@ == it.seq().take(it.index()),
    {
        chars.push(c);
    }
    chars
}

/// Finds the first character of `class` at or after index `from`; the length
/// of `chars` stands for "not found".
pub fn find(chars: &Vec<char>, from: usize, class: CharClass) -> (i: usize)
    ensures
        i == first_at(chars@, from as int, class),
{
    let n: usize = chars.len();
    if from >= n {
        return n;
    }
    let mut i: usize = from;
    while i < n && !class.test(chars[i])
        invariant
            from <= i <= n,
            n == chars.len(),
            first_at(chars@, from as int, class) == first_at(chars@, i as int, class),
        decreases n - i,
    {
        i += 1;
    }
    i
}

/// The characters `chars[from..to]` as a string.
pub fn substring(chars: &Vec<char>, from: usize, to: usize) -> (s: String)
    requires
        from <= to <= chars.len(),
    ensures
        s@ == chars@.subrange(from as int, to as int),
{
    let mut s: String = String::new();
    let mut i: usize = from;
    while i < to
        invariant
            from <= i <= to <= chars.len(),
            s@ == chars@.subrange(from as int, i as int),
        decreases to - i,
    {
        s.push(chars[i]);
        i += 1;
    }
    s
}

/// Whether `s` holds nothing but whitespace. The empty sequence is blank.
pub open spec fn is_blank(s: Seq<char>) -> bool {
    forall|i: int| 0 <= i < s.len() ==> is_whitespace(#[trigger] s[i])
}

/// Tests whether `s` holds nothing but whitespace.
pub fn blank(s: &str) -> (b: bool)
    ensures
        b == is_blank(s@),
{
    let chars = to_chars(s);
    let stop = find(&chars, 0, CharClass::NotWhitespace);
    proof {
        lemma_first_at(chars@, 0, CharClass::NotWhitespace);
    }
    stop == chars.len()
}

/// `s` without its last character if that is a carriage return.
pub open spec fn strip_cr(s: Seq<char>) -> Seq<char> {
    if s.len() > 0 && s.last() == '\r' {
        s.drop_last()
    } else {
        s
    }
}

/// The lines of `text[from..]`.
///
/// A line ends at a line feed. The line feed is not part of the line, nor is
/// a carriage return directly before it. What follows the last line feed is a
/// line of its own unless it is empty, and it keeps a carriage return at its
/// end.
pub open spec fn lines_from(text: Seq<char>, from: int) -> Seq<Seq<char>>
    decreases text.len() - from,
    when from >= 0
{
    if from >= text.len() {
        Seq::empty()
    } else {
        let feed = first_at(text, from, CharClass::Is('\n'));
        if feed >= text.len() {
            seq![text.subrange(from, text.len() as int)]
        } else {
            proof {
                lemma_first_at(text, from, CharClass::Is('\n'));
            }
            seq![strip_cr(text.subrange(from, feed))] + lines_from(text, feed + 1)
        }
    }
}

/// The lines of `text`, as `str::lines` of std yields them.
pub open spec fn split_lines(text: Seq<char>) -> Seq<Seq<char>> {
    lines_from(text, 0)
}

/// The views of the strings of `v`.
pub open spec fn texts(v: Seq<String>) -> Seq<Seq<char>> {
    Seq::new(v.len(), |i: int| v[i]@)
}

/// Splits `text` into its lines.
pub fn lines(text: &str) -> (out: Vec<String>)
    ensures
        texts(out@) == split_lines(text@),
{
    let chars = to_chars(text);
    let n: usize = chars.len();
    let mut out: Vec<String> = Vec::new();
    let mut start: usize = 0;
    while start < n
        invariant
            start <= n,
            n == chars.len(),
            texts(out@) + lines_from(chars@, start as int) == split_lines(chars@),
        decreases n - start,
    {
        let feed = find(&chars, start, CharClass::Is('\n'));
        proof {
            lemma_first_at(chars@, start as int, CharClass::Is('\n'));
        }
        if feed >= n {
            let line = substring(&chars, start, n);
            out.push(line);
            start = n;
        } else {
            let end: usize = if feed > start && chars[feed - 1] == '\r' {
                feed - 1
            } else {
                feed
            };
            let line = substring(&chars, start, end);
            assert(line@ == strip_cr(chars@.subrange(start as int, feed as int)));
            out.push(line);
            start = feed + 1;
        }
    }
    out
}

/// The text that holds each of `lines` followed by a line feed.
pub open spec fn join_lines(lines: Seq<Seq<char>>) -> Seq<char>
    decreases lines.len(),
{
    if lines.len() == 0 {
        Seq::empty()
    } else {
        join_lines(lines.drop_last()) + lines.last() + seq!['\n']
    }
}

/// Whether `line` can be written to a text and read back unchanged: it holds
/// no line feed and does not end in a carriage return.
pub open spec fn survives_writing(line: Seq<char>) -> bool {
    &&& forall|k: int| 0 <= k < line.len() ==> #[trigger] line[k] != '\n'
    &&& line.len() > 0 ==> line.last() != '\r'
}

/// A search in `t + u` that starts in `t` and succeeds there finds what the
/// search in `t` alone finds.
proof fn lemma_first_at_in_prefix(t: Seq<char>, u: Seq<char>, from: int, class: CharClass)
    requires
        0 <= from <= t.len(),
        first_at(t, from, class) < t.len(),
    ensures
        first_at(t + u, from, class) == first_at(t, from, class),
{
    lemma_first_at(t, from, class);
    lemma_first_at_unique(t + u, from, class, first_at(t, from, class));
}

/// A search in `t + u` that starts in `u` finds what the search in `u` alone
/// finds, moved by the length of `t`.
proof fn lemma_first_at_in_suffix(t: Seq<char>, u: Seq<char>, from: int, class: CharClass)
    requires
        0 <= from <= u.len(),
    ensures
        first_at(t + u, t.len() + from, class) == t.len() + first_at(u, from, class),
{
    lemma_first_at(u, from, class);
    lemma_first_at_unique(t + u, t.len() + from, class, t.len() + first_at(u, from, class));
}

/// The lines of `t + u` from a place in `u` on are the lines of `u` from that
/// place on.
proof fn lemma_lines_in_suffix(t: Seq<char>, u: Seq<char>, from: int)
    requires
        0 <= from <= u.len(),
    ensures
        lines_from(t + u, t.len() + from) == lines_from(u, from),
    decreases u.len() - from,
{
    if from < u.len() {
        let feed = first_at(u, from, CharClass::Is('\n'));
        lemma_first_at(u, from, CharClass::Is('\n'));
        lemma_first_at_in_suffix(t, u, from, CharClass::Is('\n'));
        if feed < u.len() {
            assert((t + u).subrange(t.len() + from, t.len() + feed) == u.subrange(from, feed));
            lemma_lines_in_suffix(t, u, feed + 1);
        } else {
            assert((t + u).subrange(t.len() + from, (t + u).len() as int) == u.subrange(
                from,
                u.len() as int,
            ));
        }
    }
}

/// Where `t` is empty or ends in a line feed, the lines of `t + u` are those
/// of `t` followed by those of `u`.
proof fn lemma_lines_of_concat(t: Seq<char>, u: Seq<char>, from: int)
    requires
        0 <= from <= t.len(),
        t.len() > 0 ==> t.last() == '\n',
    ensures
        lines_from(t + u, from) == lines_from(t, from) + lines_from(u, 0),
    decreases t.len() - from,
{
    if from == t.len() {
        lemma_lines_in_suffix(t, u, 0);
    } else {
        let feed = first_at(t, from, CharClass::Is('\n'));
        lemma_first_at(t, from, CharClass::Is('\n'));
        assert(feed < t.len());
        lemma_first_at_in_prefix(t, u, from, CharClass::Is('\n'));
        assert((t + u).subrange(from, feed) == t.subrange(from, feed));
        lemma_lines_of_concat(t, u, feed + 1);
        let head = seq![strip_cr(t.subrange(from, feed))];
        assert(head + (lines_from(t, feed + 1) + lines_from(u, 0)) == (head + lines_from(
            t,
            feed + 1,
        )) + lines_from(u, 0));
    }
}

/// Lines that survive writing, written one after the other and each ended
/// by a line feed, are read back as they were.
pub proof fn lemma_split_joined(lines: Seq<Seq<char>>)
    requires
        forall|i: int| 0 <= i < lines.len() ==> survives_writing(#[trigger] lines[i]),
    ensures
        split_lines(join_lines(lines)) == lines,
    decreases lines.len(),
{
    if lines.len() > 0 {
        let before = join_lines(lines.drop_last());
        let line = lines.last();
        let written = line + seq!['\n'];
        lemma_split_joined(lines.drop_last());
        lemma_lines_of_concat(before, written, 0);
        assert(join_lines(lines) == before + written);
        lemma_first_at_unique(written, 0, CharClass::Is('\n'), line.len() as int);
        assert(written.subrange(0, line.len() as int) == line);
        assert(lines_from(written, line.len() as int + 1) == Seq::<Seq<char>>::empty());
    }
}

/// No line of a text holds a line feed.
pub proof fn lemma_lines_hold_no_feed(text: Seq<char>, from: int)
    requires
        0 <= from,
    ensures
        forall|i: int, k: int|
            0 <= i < lines_from(text, from).len() && 0 <= k < lines_from(text, from)[i].len()
                ==> #[trigger] lines_from(text, from)[i][k] != '\n',
    decreases text.len() - from,
{
    if from < text.len() {
        let feed = first_at(text, from, CharClass::Is('\n'));
        lemma_first_at(text, from, CharClass::Is('\n'));
        if feed < text.len() {
            lemma_lines_hold_no_feed(text, feed + 1);
            let rest = lines_from(text, feed + 1);
            assert forall|i: int, k: int|
                0 <= i < lines_from(text, from).len() && 0 <= k < lines_from(
                    text,
                    from,
                )[i].len() implies #[trigger] lines_from(text, from)[i][k] != '\n' by {
                if i > 0 {
                    assert(lines_from(text, from)[i] == rest[i - 1]);
                }
            }
        }
    }
}

} // verus!
