//! The line classifier: every physical line of an INI document is a section
//! header, a key with a value, or something else.
use vstd::prelude::*;

use crate::text::{
    find, first_at, lemma_first_at, lemma_first_at_unique, lines, split_lines, substring, texts,
    to_chars, CharClass,
};

verus! {

/// The character that parts a key from its value.
#[derive(Debug, Clone, Copy, PartialEq, Eq, Structural)]
pub enum Separator {
    /// `=`
    Equals,
    /// `:`
    Colon,
}

impl Separator {
    /// The separator as text: one character.
    pub open spec fn text(self) -> Seq<char> {
        match self {
            Separator::Equals => seq!['='],
            Separator::Colon => seq![':'],
        }
    }

    /// The separator that the character `c` stands for: `=` is `Equals`,
    /// anything else `Colon`.
    pub open spec fn of(c: char) -> Separator {
        if c == '=' {
            Separator::Equals
        } else {
            Separator::Colon
        }
    }

    /// The separator as it is written in a document.
    pub fn as_str(&self) -> (s: &str)
        ensures
            s@ == self.text(),
    {
        proof {
            reveal_strlit("=");
            reveal_strlit(":");
        }
        match self {
            Separator::Equals => "=",
            Separator::Colon => ":",
        }
    }
}

/// One classified line of a document.
#[derive(Debug, PartialEq, Eq)]
pub enum IniLine {
    /// A section header: `[name]`, possibly indented, possibly followed by
    /// more text.
    Section { raw: String, name: String },
    /// A key, a separator and a value.
    KeyValue { raw: String, key: String, separator: Separator, value: String },
    /// Any other line: blank, a comment, a header that is never closed, text
    /// without a separator.
    Other { raw: String },
}

/// The mathematical value of an [`IniLine`].
pub enum Line {
    Section { raw: Seq<char>, name: Seq<char> },
    KeyValue { raw: Seq<char>, key: Seq<char>, separator: Separator, value: Seq<char> },
    Other { raw: Seq<char> },
}

impl Line {
    /// The text of the line as it stood in the document.
    pub open spec fn raw(self) -> Seq<char> {
        match self {
            Line::Section { raw, .. } => raw,
            Line::KeyValue { raw, .. } => raw,
            Line::Other { raw } => raw,
        }
    }
}

impl View for IniLine {
    type V = Line;

    open spec fn view(&self) -> Line {
        match *self {
            IniLine::Section { raw, name } => Line::Section { raw: raw@, name: name@ },
            IniLine::KeyValue { raw, key, separator, value } => Line::KeyValue {
                raw: raw@,
                key: key@,
                separator,
                value: value@,
            },
            IniLine::Other { raw } => Line::Other { raw: raw@ },
        }
    }
}

impl Clone for IniLine {
    fn clone(&self) -> (copy: Self)
        ensures
            copy == *self,
    {
        match self {
            IniLine::Section { raw, name } => IniLine::Section {
                raw: raw.clone(),
                name: name.clone(),
            },
            IniLine::KeyValue { raw, key, separator, value } => IniLine::KeyValue {
                raw: raw.clone(),
                key: key.clone(),
                separator: *separator,
                value: value.clone(),
            },
            IniLine::Other { raw } => IniLine::Other { raw: raw.clone() },
        }
    }
}

impl IniLine {
    /// The text of the line as it stood in the document.
    pub fn get_raw(&self) -> (s: &str)
        ensures
            s@ == self@.raw(),
    {
        match self {
            IniLine::Section { raw, .. } => raw.as_str(),
            IniLine::KeyValue { raw, .. } => raw.as_str(),
            IniLine::Other { raw } => raw.as_str(),
        }
    }
}

/// The views of the lines of `v`.
pub open spec fn line_views(v: Seq<IniLine>) -> Seq<Line> {
    Seq::new(v.len(), |i: int| v[i]@)
}

/// Where the line begins once its leading whitespace is left out: the index
/// of the first character that is not whitespace, or the length of the line.
pub open spec fn content_start(line: Seq<char>) -> int {
    first_at(line, 0, CharClass::NotWhitespace)
}

/// The key, the separator and the value of `line`, where the separator is the
/// first `=` or `:` at or after index `start`. The key is everything before
/// the separator, from the very beginning of the line; the value is
/// everything after it.
pub open spec fn key_value_at(line: Seq<char>, start: int) -> Option<
    (Seq<char>, (Separator, Seq<char>)),
> {
    let at = first_at(line, start, CharClass::Either('=', ':'));
    if at < line.len() {
        Some(
            (
                line.subrange(0, at),
                (Separator::of(line[at]), line.subrange(at + 1, line.len() as int)),
            ),
        )
    } else {
        None
    }
}

/// The classification of `line`, given that its content, what is left of it
/// without the leading whitespace, starts at index `start`.
///
/// If the content starts with `[`, the line is a section header when a `]`
/// follows, named by what stands between the two, and `Other` when none
/// does. Else the first `=` or `:` of the content splits the line into key
/// and value; without one the line is `Other`.
pub open spec fn classify_at(line: Seq<char>, start: int) -> Line {
    if start < line.len() && line[start] == '[' {
        let close = first_at(line, start, CharClass::Is(']'));
        if close < line.len() {
            Line::Section { raw: line, name: line.subrange(start + 1, close) }
        } else {
            Line::Other { raw: line }
        }
    } else {
        match key_value_at(line, start) {
            Some((key, (separator, value))) => Line::KeyValue { raw: line, key, separator, value },
            None => Line::Other { raw: line },
        }
    }
}

/// The classification of one line: that of its content, which starts where
/// the leading whitespace ends.
pub open spec fn classify(line: Seq<char>) -> Line {
    classify_at(line, content_start(line))
}

/// The classification of every line of `text`.
pub open spec fn classify_text(text: Seq<char>) -> Seq<Line> {
    Seq::new(split_lines(text).len(), |i: int| classify(split_lines(text)[i]))
}

/// Splits the line held in `chars` at the first `=` or `:` at or after index
/// `start`.
pub fn split_key_value(chars: &Vec<char>, start: usize) -> (parts: Option<
    (String, (Separator, String)),
>)
    ensures
        match parts {
            Some((key, (separator, value))) => key_value_at(chars@, start as int) == Some(
                (key@, (separator, value@)),
            ),
            None => key_value_at(chars@, start as int) is None,
        },
{
    let at = find(chars, start, CharClass::Either('=', ':'));
    if at < chars.len() {
        let separator = if chars[at] == '=' {
            Separator::Equals
        } else {
            Separator::Colon
        };
        let key = substring(chars, 0, at);
        let value = substring(chars, at + 1, chars.len());
        Some((key, (separator, value)))
    } else {
        None
    }
}

/// Classifies the line held in `chars`, whose content starts at index
/// `start`.
pub fn parse_chars(chars: &Vec<char>, start: usize) -> (parsed: IniLine)
    ensures
        parsed@ == classify_at(chars@, start as int),
        parsed@.raw() == chars@,
{
    let raw = substring(chars, 0, chars.len());
    assert(raw@ == chars@);
    if start < chars.len() && chars[start] == '[' {
        let close = find(chars, start, CharClass::Is(']'));
        proof {
            lemma_first_at(chars@, start as int, CharClass::Is(']'));
        }
        if close < chars.len() {
            let name = substring(chars, start + 1, close);
            IniLine::Section { raw, name }
        } else {
            IniLine::Other { raw }
        }
    } else {
        match split_key_value(chars, start) {
            Some((key, (separator, value))) => IniLine::KeyValue { raw, key, separator, value },
            None => IniLine::Other { raw },
        }
    }
}

/// Classifies one line.
pub fn parse_line(line: &str) -> (parsed: IniLine)
    ensures
        parsed@ == classify(line@),
        parsed@.raw() == line@,
{
    let chars = to_chars(line);
    let start = find(&chars, 0, CharClass::NotWhitespace);
    parse_chars(&chars, start)
}

/// Classifies every line of `input`, in order.
pub fn parse_ini_lines(input: &str) -> (parsed: Vec<IniLine>)
    ensures
        parsed.len() == split_lines(input@).len(),
        line_views(parsed@) == classify_text(input@),
{
    let raw_lines = lines(input);
    let mut parsed: Vec<IniLine> = Vec::new();
    let mut i: usize = 0;
    while i < raw_lines.len()
        invariant
            i <= raw_lines.len(),
            texts(raw_lines@) == split_lines(input@),
            parsed.len() == i,
            forall|k: int| 0 <= k < i ==> (#[trigger] parsed[k])@ == classify(raw_lines[k]@),
        decreases raw_lines.len() - i,
    {
        let line = parse_line(raw_lines[i].as_str());
        parsed.push(line);
        i += 1;
    }
    parsed
}

/// Every line is classified, and the classification keeps the whole line as
/// its raw text.
pub proof fn lemma_classify_keeps_raw(line: Seq<char>)
    ensures
        classify(line).raw() == line,
{
}

/// Of `=` and `:`, the one that comes first in the line is the separator.
///
/// For a line that is not a header candidate (its first character after the
/// leading whitespace is not `[`): if a `:` stands before every `=`, the
/// line is split at that `:`; if an `=` stands before every `:`, it is split
/// at that `=`.
pub proof fn lemma_separator_precedence(line: Seq<char>)
    requires
        !(content_start(line) < line.len() && line[content_start(line)] == '['),
    ensures
        ({
            let start = content_start(line);
            let colon = first_at(line, start, CharClass::Is(':'));
            let equals = first_at(line, start, CharClass::Is('='));
            &&& colon < equals ==> classify(line) == Line::KeyValue {
                raw: line,
                key: line.subrange(0, colon),
                separator: Separator::Colon,
                value: line.subrange(colon + 1, line.len() as int),
            }
            &&& equals < colon ==> classify(line) == Line::KeyValue {
                raw: line,
                key: line.subrange(0, equals),
                separator: Separator::Equals,
                value: line.subrange(equals + 1, line.len() as int),
            }
            &&& colon == equals ==> classify(line) == Line::Other { raw: line }
        }),
{
    let start = content_start(line);
    let colon = first_at(line, start, CharClass::Is(':'));
    let equals = first_at(line, start, CharClass::Is('='));
    lemma_first_at(line, 0, CharClass::NotWhitespace);
    lemma_first_at(line, start, CharClass::Is(':'));
    lemma_first_at(line, start, CharClass::Is('='));
    let least = if colon < equals {
        colon
    } else {
        equals
    };
    lemma_first_at_unique(line, start, CharClass::Either('=', ':'), least);
}

/// A key/value line is its key, its separator and its value, one after the
/// other.
pub proof fn lemma_key_value_reassembles(line: Seq<char>)
    ensures
        classify(line) matches Line::KeyValue { key, separator, value, .. } ==> line == key
            + separator.text() + value,
{
    let start = content_start(line);
    lemma_first_at(line, 0, CharClass::NotWhitespace);
    lemma_first_at(line, start, CharClass::Either('=', ':'));
    if classify(line) is KeyValue {
        let at = first_at(line, start, CharClass::Either('=', ':'));
        assert(line =~= line.subrange(0, at) + seq![line[at]] + line.subrange(
            at + 1,
            line.len() as int,
        ));
    }
}

/// The key of a key/value line, written with its separator and nothing
/// after it, is a key/value line again: same key, same separator, empty
/// value.
pub proof fn lemma_key_alone(line: Seq<char>)
    ensures
        classify(line) matches Line::KeyValue { key, separator, .. } ==> classify(
            key + separator.text(),
        ) == (Line::KeyValue {
            raw: key + separator.text(),
            key,
            separator,
            value: Seq::empty(),
        }),
{
    if classify(line) is KeyValue {
        let start = content_start(line);
        lemma_first_at(line, 0, CharClass::NotWhitespace);
        lemma_first_at(line, start, CharClass::Either('=', ':'));
        let at = first_at(line, start, CharClass::Either('=', ':'));
        let key = line.subrange(0, at);
        let separator = Separator::of(line[at]);
        let alone = key + separator.text();
        lemma_first_at_unique(alone, 0, CharClass::NotWhitespace, start);
        lemma_first_at_unique(alone, start, CharClass::Either('=', ':'), at);
        assert(alone.subrange(0, at) =~= key);
        assert(alone.subrange(at + 1, alone.len() as int) =~= Seq::<char>::empty());
    }
}

} // verus!
