//! The reader of instrument descriptions.
//!
//! A description is a sequence of sections.  A section starts with a header
//! in angle brackets, `<group>` or `<region>`, and holds opcodes of the form
//! `key=value`, separated by blanks.  A `/` starts a comment that runs to the
//! end of the line.  Each region starts out from the opcodes of the group
//! before it.

use vstd::prelude::*;
use crate::decimal::{decimal_error_text, decimal_literal, hundredth_of, Decimal, DecimalError};
use crate::envelopes::Generator;
use crate::errors::{range_checked, range_error_text, RangeError};
use crate::sfz::engine::{int_out_of_range, NoteRange, RegionData, RegionParams, Trigger};
use crate::text::{
    chars_of, digit_of, digit_value, int_error_text, int_literal, is_blank, is_digit,
    is_white_space, parse_int, push_str, spells, string_of, white_space, IntErrorKind,
};

verus! {

/// A key that is neither a number nor the name of a note.
#[derive(Debug)]
pub struct NoteParseError {
    pub key: String,
}

impl NoteParseError {
    /// The error for `key`.
    pub fn new(key: &str) -> (e: NoteParseError)
        ensures
            e.key@ == key@,
    {
        NoteParseError { key: key.to_owned() }
    }
}

/// Why a description could not be read.
#[derive(Debug)]
pub enum ParserError {
    /// A value outside its range, or a range with its bounds flipped.
    RangeError(RangeError),
    /// An unknown header, opcode or keyword.
    KeyError(String),
    /// A value that should be a whole number and is not.
    ParseIntError(IntErrorKind),
    /// A value that should be a decimal number and is not.
    ParseFloatError(DecimalError),
    /// A key that is neither a number nor the name of a note.
    NoteParseError(NoteParseError),
    /// A description that is cut short or out of shape.
    General(String),
}

/// The mathematical content of a [`ParserError`].
pub enum ParseFailure {
    Range(RangeError),
    Key(Seq<char>),
    Int(IntErrorKind),
    Float(DecimalError),
    Note(Seq<char>),
    General(Seq<char>),
}

impl View for ParserError {
    type V = ParseFailure;

    open spec fn view(&self) -> ParseFailure {
        match self {
            ParserError::RangeError(e) => ParseFailure::Range(*e),
            ParserError::KeyError(k) => ParseFailure::Key(k@),
            ParserError::ParseIntError(e) => ParseFailure::Int(*e),
            ParserError::ParseFloatError(e) => ParseFailure::Float(*e),
            ParserError::NoteParseError(e) => ParseFailure::Note(e.key@),
            ParserError::General(s) => ParseFailure::General(s@),
        }
    }
}

/// The text shown for a failure.
pub open spec fn failure_text(f: ParseFailure) -> Seq<char> {
    match f {
        ParseFailure::Range(e) => range_error_text(e),
        ParseFailure::Key(k) => "Unknown key: "@ + k,
        ParseFailure::Int(e) => int_error_text(e),
        ParseFailure::Float(e) => decimal_error_text(e),
        ParseFailure::Note(k) => "Invalid key: "@ + k,
        ParseFailure::General(s) => "General parser error: "@ + s,
    }
}

impl ParserError {
    /// The text shown to the user.
    pub fn message(&self) -> (s: String)
        ensures
            s@ == failure_text(self@),
    {
        match self {
            ParserError::RangeError(e) => e.message(),
            ParserError::KeyError(k) => {
                let mut s = String::new();
                push_str(&mut s, "Unknown key: ");
                push_str(&mut s, k.as_str());
                s
            },
            ParserError::ParseIntError(e) => e.message(),
            ParserError::ParseFloatError(e) => e.message(),
            ParserError::NoteParseError(e) => {
                let mut s = String::new();
                push_str(&mut s, "Invalid key: ");
                push_str(&mut s, e.key.as_str());
                s
            },
            ParserError::General(g) => {
                let mut s = String::new();
                push_str(&mut s, "General parser error: ");
                push_str(&mut s, g.as_str());
                s
            },
        }
    }
}

/// What the scanner finds next.
#[derive(Clone, Copy, Debug, PartialEq, Eq, Structural)]
pub enum NextChar {
    /// The end of the text.
    End,
    /// A `<`, which opens a header.
    NewTag,
    /// Any other character.
    Char(char),
}

/// The next character of `s` at or after `pos` that is not part of a
/// comment, and the position behind it.
///
/// `comment` says that `pos` lies inside a comment; `skip_blanks` says that
/// blanks are passed over too.
pub open spec fn scan(s: Seq<char>, pos: int, comment: bool, skip_blanks: bool) -> (NextChar, int)
    decreases s.len() - pos,
{
    if pos < 0 || pos >= s.len() {
        (NextChar::End, pos)
    } else if comment {
        scan(s, pos + 1, s[pos] != '\n', skip_blanks)
    } else if s[pos] == '/' {
        scan(s, pos + 1, true, skip_blanks)
    } else if s[pos] == '<' {
        (NextChar::NewTag, pos + 1)
    } else if skip_blanks && is_blank(s[pos]) {
        scan(s, pos + 1, false, true)
    } else {
        (NextChar::Char(s[pos]), pos + 1)
    }
}

/// The scanner moves forward, and past at least one character where it
/// finds one.
pub proof fn scan_advances(s: Seq<char>, pos: int, comment: bool, skip_blanks: bool)
    requires
        0 <= pos <= s.len(),
    ensures
        pos <= scan(s, pos, comment, skip_blanks).1 <= s.len(),
        !(scan(s, pos, comment, skip_blanks).0 is End) ==> pos < scan(s, pos, comment, skip_blanks).1,
    decreases s.len() - pos,
{
    if pos < s.len() {
        if comment {
            scan_advances(s, pos + 1, s[pos] != '\n', skip_blanks);
        } else if s[pos] == '/' {
            scan_advances(s, pos + 1, true, skip_blanks);
        } else if s[pos] == '<' {
        } else if skip_blanks && is_blank(s[pos]) {
            scan_advances(s, pos + 1, false, true);
        }
    }
}

fn scan_from(text: &Vec<char>, pos: usize, skip_blanks: bool) -> (r: (NextChar, usize))
    requires
        pos <= text.len(),
    ensures
        (r.0, r.1 as int) == scan(text@, pos as int, false, skip_blanks),
        pos <= r.1 <= text.len(),
        !(r.0 is End) ==> pos < r.1,
{
    proof {
        scan_advances(text@, pos as int, false, skip_blanks);
    }
    let mut i: usize = pos;
    let mut comment = false;
    while i < text.len()
        invariant
            pos <= i <= text.len(),
            scan(text@, pos as int, false, skip_blanks) == scan(text@, i as int, comment, skip_blanks),
        decreases text.len() - i,
    {
        let c = text[i];
        if comment {
            comment = c != '\n';
        } else if c == '/' {
            comment = true;
        } else if c == '<' {
            return (NextChar::NewTag, i + 1);
        } else if skip_blanks && (c == ' ' || c == '\t' || c == '\n' || c == '\r') {
        } else {
            return (NextChar::Char(c), i + 1);
        }
        i += 1;
    }
    (NextChar::End, i)
}

/// The next character that is not part of a comment.
pub fn next_char(text: &Vec<char>, pos: usize) -> (r: (NextChar, usize))
    requires
        pos <= text.len(),
    ensures
        (r.0, r.1 as int) == scan(text@, pos as int, false, false),
        pos <= r.1 <= text.len(),
        !(r.0 is End) ==> pos < r.1,
{
    scan_from(text, pos, false)
}

/// The next character that is neither blank nor part of a comment.
pub fn next_char_skip_whitespace(text: &Vec<char>, pos: usize) -> (r: (NextChar, usize))
    requires
        pos <= text.len(),
    ensures
        (r.0, r.1 as int) == scan(text@, pos as int, false, true),
        pos <= r.1 <= text.len(),
        !(r.0 is End) ==> pos < r.1,
{
    scan_from(text, pos, true)
}

/// `s` without the white space at its start.
pub open spec fn trim_start(s: Seq<char>) -> Seq<char>
    decreases s.len(),
{
    if s.len() > 0 && is_white_space(s[0]) {
        trim_start(s.skip(1))
    } else {
        s
    }
}

/// `s` without the white space at its end.
pub open spec fn trim_end(s: Seq<char>) -> Seq<char>
    decreases s.len(),
{
    if s.len() > 0 && is_white_space(s.last()) {
        trim_end(s.drop_last())
    } else {
        s
    }
}

/// `s` without the white space at its start and at its end.
pub open spec fn trimmed(s: Seq<char>) -> Seq<char> {
    trim_end(trim_start(s))
}

fn blank(c: char) -> (r: bool)
    ensures
        r == is_blank(c),
{
    c == ' ' || c == '\t' || c == '\n' || c == '\r'
}

/// `v` without the white space at its start and at its end.
pub fn trim(v: &Vec<char>) -> (r: Vec<char>)
    ensures
        r@ == trimmed(v@),
{
    let mut a: usize = 0;
    assert(v@.skip(0) == v@);
    while a < v.len() && white_space(v[a])
        invariant
            a <= v.len(),
            trim_start(v@) == trim_start(v@.skip(a as int)),
        decreases v.len() - a,
    {
        assert(v@.skip(a as int).skip(1) == v@.skip(a + 1));
        a += 1;
    }
    let mut b: usize = v.len();
    assert(v@.subrange(a as int, b as int) == v@.skip(a as int));
    while b > a && white_space(v[b - 1])
        invariant
            a <= b <= v.len(),
            trimmed(v@) == trim_end(v@.subrange(a as int, b as int)),
        decreases b,
    {
        assert(v@.subrange(a as int, b as int).drop_last() == v@.subrange(a as int, b - 1));
        b -= 1;
    }
    let mut r: Vec<char> = Vec::new();
    let mut i: usize = a;
    while i < b
        invariant
            a <= i <= b <= v.len(),
            r@ == v@.subrange(a as int, i as int),
        decreases b - i,
    {
        r.push(v[i]);
        i += 1;
        assert(v@.subrange(a as int, i as int) == v@.subrange(a as int, i - 1).push(v@[i - 1]));
    }
    r
}

/// The header that runs from `pos` to the next `>`, after the characters
/// `acc` already read, and the position behind it.  The text must not end,
/// and no header may open, before the `>`.
pub open spec fn header_at(s: Seq<char>, pos: int, acc: Seq<char>) -> (
    Result<Seq<char>, ParseFailure>,
    int,
)
    decreases s.len() - pos,
{
    let (nc, p) = scan(s, pos, false, false);
    match nc {
        NextChar::Char(c) => if c == '>' {
            (Ok(acc), p)
        } else {
            proof {
                scan_advances(s, pos, false, false);
            }
            header_at(s, p, acc.push(c))
        },
        NextChar::End => (
            Err(ParseFailure::General("File ended before opcode name finished"@)),
            p,
        ),
        NextChar::NewTag => (
            Err(ParseFailure::General("Tag begin (<) while parsing tag header"@)),
            p,
        ),
    }
}

/// A header that is read ends behind where it started.
pub proof fn header_advances(s: Seq<char>, pos: int, acc: Seq<char>)
    requires
        0 <= pos <= s.len(),
    ensures
        pos <= header_at(s, pos, acc).1 <= s.len(),
        header_at(s, pos, acc).0 is Ok ==> pos < header_at(s, pos, acc).1,
    decreases s.len() - pos,
{
    scan_advances(s, pos, false, false);
    let (nc, p) = scan(s, pos, false, false);
    if let NextChar::Char(c) = nc {
        if c != '>' {
            header_advances(s, p, acc.push(c));
        }
    }
}

/// Reads the header that runs from `pos` to the next `>`.
pub fn parse_header(text: &Vec<char>, pos: usize) -> (r: (Result<Vec<char>, ParserError>, usize))
    requires
        pos <= text.len(),
    ensures
        pos <= r.1 <= text.len(),
        r.1 as int == header_at(text@, pos as int, Seq::empty()).1,
        match r.0 {
            Ok(h) => header_at(text@, pos as int, Seq::empty()).0 == Ok::<Seq<char>, ParseFailure>(h@),
            Err(e) => header_at(text@, pos as int, Seq::empty()).0 == Err::<Seq<char>, ParseFailure>(e@),
        },
        r.0 is Ok ==> pos < r.1,
{
    let mut header: Vec<char> = Vec::new();
    let mut i: usize = pos;
    proof {
        header_advances(text@, pos as int, Seq::empty());
    }
    loop
        invariant
            pos <= i <= text.len(),
            header_at(text@, pos as int, Seq::empty()) == header_at(text@, i as int, header@),
        decreases text.len() - i,
    {
        let (nc, p) = next_char(text, i);
        match nc {
            NextChar::Char(c) => {
                if c == '>' {
                    return (Ok(header), p);
                }
                header.push(c);
                i = p;
            },
            NextChar::End => {
                return (
                    Err(ParserError::General("File ended before opcode name finished".to_owned())),
                    p,
                );
            },
            NextChar::NewTag => {
                return (
                    Err(ParserError::General("Tag begin (<) while parsing tag header".to_owned())),
                    p,
                );
            },
        }
    }
}

/// The word that runs from `pos` to its stop, after the characters `acc`
/// already read; what the scanner found last; and the position behind it.
///
/// A key stops at `=`, a value at a blank; both stop at a header and at the
/// end of the text.  Before the first character of a word, blanks are
/// passed over.
pub open spec fn word_at(s: Seq<char>, pos: int, acc: Seq<char>, value: bool, first: bool) -> (
    Seq<char>,
    NextChar,
    int,
)
    decreases s.len() - pos,
{
    let (nc, p) = scan(s, pos, false, first);
    match nc {
        NextChar::Char(c) => if (value && is_blank(c)) || (!value && c == '=') {
            (acc, nc, p)
        } else {
            proof {
                scan_advances(s, pos, false, first);
            }
            word_at(s, p, acc.push(c), value, false)
        },
        _ => (acc, nc, p),
    }
}

/// A word ends behind where it started, unless the text ends there.
pub proof fn word_advances(s: Seq<char>, pos: int, acc: Seq<char>, value: bool, first: bool)
    requires
        0 <= pos <= s.len(),
    ensures
        pos <= word_at(s, pos, acc, value, first).2 <= s.len(),
        !(word_at(s, pos, acc, value, first).1 is End) ==> pos < word_at(s, pos, acc, value, first).2,
    decreases s.len() - pos,
{
    scan_advances(s, pos, false, first);
    let (nc, p) = scan(s, pos, false, first);
    if let NextChar::Char(c) = nc {
        if !((value && is_blank(c)) || (!value && c == '=')) {
            word_advances(s, p, acc.push(c), value, false);
        }
    }
}

/// The opcode that starts at `pos`: its key and value, both trimmed, or
/// `None` where a header or the end of the text comes first; what the
/// scanner found last; and the position behind it.  A header must not open
/// inside a key.
pub open spec fn opcode_at(s: Seq<char>, pos: int) -> (
    Result<(Option<(Seq<char>, Seq<char>)>, NextChar), ParseFailure>,
    int,
) {
    let (key, nc, p) = word_at(s, pos, Seq::empty(), false, true);
    match nc {
        NextChar::NewTag => if key.len() > 0 {
            (Err(ParseFailure::General("New tag starts while scanning opcode key"@)), p)
        } else {
            (Ok((None, NextChar::NewTag)), p)
        },
        NextChar::End => (Ok((None, NextChar::End)), p),
        NextChar::Char(_) => {
            let (value, last, q) = word_at(s, p, Seq::empty(), true, true);
            (Ok((Some((trimmed(key), trimmed(value))), last)), q)
        },
    }
}

/// An opcode that is read ends behind where it started.
pub proof fn opcode_advances(s: Seq<char>, pos: int)
    requires
        0 <= pos <= s.len(),
    ensures
        pos <= opcode_at(s, pos).1 <= s.len(),
        opcode_at(s, pos).0 is Ok && opcode_at(s, pos).0->Ok_0.0 is Some ==> pos < opcode_at(s, pos).1,
        opcode_at(s, pos).0 is Ok && opcode_at(s, pos).0->Ok_0.1 is NewTag ==> pos < opcode_at(s, pos).1,
{
    word_advances(s, pos, Seq::empty(), false, true);
    let (key, nc, p) = word_at(s, pos, Seq::empty(), false, true);
    if nc is Char {
        word_advances(s, p, Seq::empty(), true, true);
    }
}

fn read_word(text: &Vec<char>, pos: usize, value: bool) -> (r: (Vec<char>, NextChar, usize))
    requires
        pos <= text.len(),
    ensures
        (r.0@, r.1, r.2 as int) == word_at(text@, pos as int, Seq::empty(), value, true),
        pos <= r.2 <= text.len(),
{
    let mut word: Vec<char> = Vec::new();
    let mut i: usize = pos;
    let mut first = true;
    proof {
        word_advances(text@, pos as int, Seq::empty(), value, true);
    }
    loop
        invariant
            pos <= i <= text.len(),
            word_at(text@, pos as int, Seq::empty(), value, true) == word_at(
                text@,
                i as int,
                word@,
                value,
                first,
            ),
        decreases text.len() - i,
    {
        let (nc, p) = scan_from(text, i, first);
        match nc {
            NextChar::Char(c) => {
                if (value && blank(c)) || (!value && c == '=') {
                    return (word, nc, p);
                }
                word.push(c);
                i = p;
                first = false;
            },
            _ => {
                return (word, nc, p);
            },
        }
    }
}

/// Reads the opcode that starts at `pos`.
pub fn parse_opcode(text: &Vec<char>, pos: usize) -> (r: (
    Result<(Option<(Vec<char>, Vec<char>)>, NextChar), ParserError>,
    usize,
))
    requires
        pos <= text.len(),
    ensures
        pos <= r.1 <= text.len(),
        r.1 as int == opcode_at(text@, pos as int).1,
        match r.0 {
            Ok((Some((key, value)), last)) => opcode_at(text@, pos as int).0 == Ok::<
                (Option<(Seq<char>, Seq<char>)>, NextChar),
                ParseFailure,
            >((Some((key@, value@)), last)),
            Ok((None, last)) => opcode_at(text@, pos as int).0 == Ok::<
                (Option<(Seq<char>, Seq<char>)>, NextChar),
                ParseFailure,
            >((None, last)),
            Err(e) => opcode_at(text@, pos as int).0 == Err::<
                (Option<(Seq<char>, Seq<char>)>, NextChar),
                ParseFailure,
            >(e@),
        },
{
    let (key, nc, p) = read_word(text, pos, false);
    match nc {
        NextChar::NewTag => {
            if key.len() > 0 {
                (
                    Err(ParserError::General("New tag starts while scanning opcode key".to_owned())),
                    p,
                )
            } else {
                (Ok((None, NextChar::NewTag)), p)
            }
        },
        NextChar::End => (Ok((None, NextChar::End)), p),
        NextChar::Char(_) => {
            let (value, last, q) = read_word(text, p, true);
            (Ok((Some((trim(&key), trim(&value))), last)), q)
        },
    }
}

/// The pitch class named by a letter: C is 0, D 2, E 4, F 5, G 7, A 9 and
/// B 11, in either case.
pub open spec fn note_letter(c: char) -> Option<int> {
    if c == 'C' || c == 'c' {
        Some(0)
    } else if c == 'D' || c == 'd' {
        Some(2)
    } else if c == 'E' || c == 'e' {
        Some(4)
    } else if c == 'F' || c == 'f' {
        Some(5)
    } else if c == 'G' || c == 'g' {
        Some(7)
    } else if c == 'A' || c == 'a' {
        Some(9)
    } else if c == 'B' || c == 'b' {
        Some(11)
    } else {
        None
    }
}

/// The number that a key denotes: the number itself where the key is a
/// whole number, else the note named by a letter, an optional `#` or `b`,
/// and the digit of an octave, where octave 0 starts at 12.  What follows
/// the octave is not read.
pub open spec fn note_number(s: Seq<char>) -> Option<int> {
    match int_literal(s, i32::MIN as int, i32::MAX as int) {
        Ok(v) => Some(v),
        Err(_) => if s.len() < 2 {
            None
        } else {
            match note_letter(s[0]) {
                None => None,
                Some(n) => {
                    let sign: int = if s[1] == '#' {
                        1
                    } else if s[1] == 'b' {
                        -1
                    } else {
                        0
                    };
                    if sign != 0 && s.len() < 3 {
                        None
                    } else {
                        let octave = if sign == 0 { s[1] } else { s[2] };
                        if is_digit(octave) {
                            Some((digit_value(octave) + 1) * 12 + n + sign)
                        } else {
                            None
                        }
                    }
                },
            }
        },
    }
}

fn letter_of(c: char) -> (r: Option<i32>)
    ensures
        match r {
            Some(n) => note_letter(c) == Some(n as int),
            None => note_letter(c) is None,
        },
        r is Some ==> 0 <= r->0 <= 11,
{
    if c == 'C' || c == 'c' {
        Some(0)
    } else if c == 'D' || c == 'd' {
        Some(2)
    } else if c == 'E' || c == 'e' {
        Some(4)
    } else if c == 'F' || c == 'f' {
        Some(5)
    } else if c == 'G' || c == 'g' {
        Some(7)
    } else if c == 'A' || c == 'a' {
        Some(9)
    } else if c == 'B' || c == 'b' {
        Some(11)
    } else {
        None
    }
}

/// Reads a key: a whole number or the name of a note.
pub fn parse_key(key: &Vec<char>) -> (r: Result<i32, NoteParseError>)
    ensures
        match r {
            Ok(v) => note_number(key@) == Some(v as int),
            Err(e) => note_number(key@) is None && e.key@ == key@,
        },
{
    match parse_int(key, -0x8000_0000, 0x7fff_ffff) {
        Ok(v) => Ok(v as i32),
        Err(_) => {
            if key.len() < 2 {
                return Err(NoteParseError { key: string_of(key) });
            }
            let note_val = match letter_of(key[0]) {
                Some(n) => n,
                None => {
                    return Err(NoteParseError { key: string_of(key) });
                },
            };
            let second = key[1];
            let sign: i32 = if second == '#' {
                1
            } else if second == 'b' {
                -1
            } else {
                0
            };
            let octave_char = if sign == 0 {
                second
            } else {
                if key.len() < 3 {
                    return Err(NoteParseError { key: string_of(key) });
                }
                key[2]
            };
            match digit_of(octave_char) {
                Some(octave) => Ok((octave as i32 + 1) * 12 + (note_val + sign)),
                None => Err(NoteParseError { key: string_of(key) }),
            }
        },
    }
}

/// The trigger that a keyword names.
pub open spec fn trigger_named(s: Seq<char>) -> Option<Trigger> {
    if s == "attack"@ {
        Some(Trigger::Attack)
    } else if s == "release"@ {
        Some(Trigger::Release)
    } else if s == "first"@ {
        Some(Trigger::First)
    } else if s == "legato"@ {
        Some(Trigger::Legato)
    } else if s == "release_key"@ {
        Some(Trigger::ReleaseKey)
    } else {
        None
    }
}

/// Reads the keyword of a trigger.
pub fn parse_trigger(s: &Vec<char>) -> (r: Result<Trigger, ParserError>)
    ensures
        match r {
            Ok(t) => trigger_named(s@) == Some(t),
            Err(e) => trigger_named(s@) is None && e@ == ParseFailure::Key(s@),
        },
{
    if spells(s, "attack") {
        Ok(Trigger::Attack)
    } else if spells(s, "release") {
        Ok(Trigger::Release)
    } else if spells(s, "first") {
        Ok(Trigger::First)
    } else if spells(s, "legato") {
        Ok(Trigger::Legato)
    } else if spells(s, "release_key") {
        Ok(Trigger::ReleaseKey)
    } else {
        Err(ParserError::KeyError(string_of(s)))
    }
}

/// A range error as a failure of the reader.
pub open spec fn lift(r: Result<RegionParams, RangeError>) -> Result<RegionParams, ParseFailure> {
    match r {
        Ok(n) => Ok(n),
        Err(e) => Err(ParseFailure::Range(e)),
    }
}

/// The decimal that a value denotes.
pub open spec fn decimal_value(value: Seq<char>) -> Result<Decimal, ParseFailure> {
    match decimal_literal(value) {
        Ok(b) => Ok(Decimal { billionths: b as i64 }),
        Err(e) => Err(ParseFailure::Float(e)),
    }
}

/// The signed 32-bit number that a value denotes.
pub open spec fn i32_value(value: Seq<char>) -> Result<int, ParseFailure> {
    match int_literal(value, i32::MIN as int, i32::MAX as int) {
        Ok(v) => Ok(v),
        Err(e) => Err(ParseFailure::Int(e)),
    }
}

/// The unsigned 32-bit number that a value denotes.
pub open spec fn u32_value(value: Seq<char>) -> Result<int, ParseFailure> {
    match int_literal(value, 0, u32::MAX as int) {
        Ok(v) => Ok(v),
        Err(e) => Err(ParseFailure::Int(e)),
    }
}

/// The key that a value denotes.
pub open spec fn key_value(value: Seq<char>) -> Result<int, ParseFailure> {
    match note_number(value) {
        Some(k) => Ok(k),
        None => Err(ParseFailure::Note(value)),
    }
}

/// The index of the first `cc` in `s` at or after `from`, or -1.
pub open spec fn find_cc(s: Seq<char>, from: int) -> int
    decreases s.len() - from,
{
    if from < 0 || from + 1 >= s.len() {
        -1
    } else if s[from] == 'c' && s[from + 1] == 'c' {
        from
    } else {
        find_cc(s, from + 1)
    }
}

/// The region after an opcode that takes a key as its value.  `lokey` and
/// `hikey` set one bound of the key range.  `key` sets both bounds and the
/// key centre to the key, whatever the range was before.
pub open spec fn apply_key_opcode(region: RegionParams, key: Seq<char>, k: int) -> Result<
    RegionParams,
    RangeError,
> {
    if key == "lokey"@ {
        match region.key_range.with_lo(k) {
            Ok(r) => Ok(RegionParams { key_range: r, ..region }),
            Err(e) => Err(e),
        }
    } else if key == "hikey"@ {
        match region.key_range.with_hi(k) {
            Ok(r) => Ok(RegionParams { key_range: r, ..region }),
            Err(e) => Err(e),
        }
    } else if k < 0 || k > 127 {
        Err(int_out_of_range("key", 0, 127, k))
    } else {
        Ok(
            RegionParams {
                key_range: NoteRange { lo: Some(k as u8), hi: Some(k as u8) },
                pitch_keycenter: k as u8,
                ..region
            },
        )
    }
}

/// The region after an opcode that takes a decimal as its value.
pub open spec fn apply_decimal_opcode(region: RegionParams, key: Seq<char>, v: Decimal) -> Result<
    RegionParams,
    RangeError,
> {
    let zero = Decimal { billionths: 0 };
    let hundred = Decimal { billionths: 100_000_000_000 };
    if key == "lorand"@ {
        match region.random_range.with_lo(v) {
            Ok(r) => Ok(RegionParams { random_range: r, ..region }),
            Err(e) => Err(e),
        }
    } else if key == "hirand"@ {
        match region.random_range.with_hi(v) {
            Ok(r) => Ok(RegionParams { random_range: r, ..region }),
            Err(e) => Err(e),
        }
    } else if key == "volume"@ {
        region.with_volume(v)
    } else if key == "rt_decay"@ {
        region.with_rt_decay(v)
    } else if key == "pitch_keytrack"@ {
        region.with_pitch_keytrack(v)
    } else if key == "amp_veltrack"@ {
        region.with_amp_veltrack(v)
    } else if key == "ampeg_attack"@ {
        match range_checked(v, zero, hundred, "ampeg_attack") {
            Ok(a) => Ok(RegionParams { ampeg: Generator { attack: a, ..region.ampeg }, ..region }),
            Err(e) => Err(e),
        }
    } else if key == "ampeg_hold"@ {
        match range_checked(v, zero, hundred, "ampeg_hold") {
            Ok(a) => Ok(RegionParams { ampeg: Generator { hold: a, ..region.ampeg }, ..region }),
            Err(e) => Err(e),
        }
    } else if key == "ampeg_decay"@ {
        match range_checked(v, zero, hundred, "ampeg_decay") {
            Ok(a) => Ok(RegionParams { ampeg: Generator { decay: a, ..region.ampeg }, ..region }),
            Err(e) => Err(e),
        }
    } else if key == "ampeg_sustain"@ {
        match range_checked(v, zero, hundred, "ampeg_sustain") {
            Ok(a) => Ok(
                RegionParams {
                    ampeg: Generator {
                        sustain: Decimal { billionths: hundredth_of(a.billionths as int) as i64 },
                        ..region.ampeg
                    },
                    ..region
                },
            ),
            Err(e) => Err(e),
        }
    } else {
        match range_checked(v, zero, hundred, "ampeg_release") {
            Ok(a) => Ok(RegionParams { ampeg: Generator { release: a, ..region.ampeg }, ..region }),
            Err(e) => Err(e),
        }
    }
}

/// `key` is an opcode whose value is a key.
pub open spec fn is_key_opcode(key: Seq<char>) -> bool {
    key == "lokey"@ || key == "hikey"@ || key == "key"@
}

/// `key` is an opcode whose value is a decimal.
pub open spec fn is_decimal_opcode(key: Seq<char>) -> bool {
    key == "lorand"@ || key == "hirand"@ || key == "volume"@ || key == "rt_decay"@ || key
        == "pitch_keytrack"@ || key == "amp_veltrack"@ || key == "ampeg_attack"@ || key
        == "ampeg_hold"@ || key == "ampeg_decay"@ || key == "ampeg_sustain"@ || key
        == "ampeg_release"@
}

/// The region after an opcode that names a controller: `on_loccN` or
/// `on_hiccN`, where N is the controller's number.  The part before the
/// first `cc` says which bound is set.
pub open spec fn apply_cc_opcode(region: RegionParams, key: Seq<char>, value: Seq<char>) -> Result<
    RegionParams,
    ParseFailure,
> {
    let n = find_cc(key, 0);
    if n < 0 {
        Err(ParseFailure::Key(key))
    } else {
        match u32_value(key.skip(n + 2)) {
            Err(e) => Err(e),
            Ok(cc) => if cc > 127 {
                Err(ParseFailure::Range(int_out_of_range("cc number", 0, 127, cc)))
            } else {
                match i32_value(value) {
                    Err(e) => Err(e),
                    Ok(v) => if key.take(n) == "on_lo"@ {
                        lift(region.with_on_lo_cc(cc, v))
                    } else if key.take(n) == "on_hi"@ {
                        lift(region.with_on_hi_cc(cc, v))
                    } else {
                        Err(ParseFailure::Key(key.take(n)))
                    },
                }
            },
        }
    }
}

/// The region after the opcode `key=value`.
pub open spec fn apply_opcode(region: RegionParams, key: Seq<char>, value: Seq<char>) -> Result<
    RegionParams,
    ParseFailure,
> {
    if is_key_opcode(key) {
        match key_value(value) {
            Err(e) => Err(e),
            Ok(k) => lift(apply_key_opcode(region, key, k)),
        }
    } else if is_decimal_opcode(key) {
        match decimal_value(value) {
            Err(e) => Err(e),
            Ok(v) => lift(apply_decimal_opcode(region, key, v)),
        }
    } else if key == "pitch_keycenter"@ {
        match u32_value(value) {
            Err(e) => Err(e),
            Ok(v) => lift(region.with_pitch_keycenter(v)),
        }
    } else if key == "lovel"@ {
        match i32_value(value) {
            Err(e) => Err(e),
            Ok(v) => match region.vel_range.with_lo(v) {
                Ok(r) => Ok(RegionParams { vel_range: r, ..region }),
                Err(e) => Err(ParseFailure::Range(e)),
            },
        }
    } else if key == "hivel"@ {
        match i32_value(value) {
            Err(e) => Err(e),
            Ok(v) => match region.vel_range.with_hi(v) {
                Ok(r) => Ok(RegionParams { vel_range: r, ..region }),
                Err(e) => Err(ParseFailure::Range(e)),
            },
        }
    } else if key == "tune"@ {
        match i32_value(value) {
            Err(e) => Err(e),
            Ok(v) => lift(region.with_tune(v)),
        }
    } else if key == "group"@ {
        match u32_value(value) {
            Err(e) => Err(e),
            Ok(v) => Ok(RegionParams { group: v as u32, ..region }),
        }
    } else if key == "off_by"@ {
        match u32_value(value) {
            Err(e) => Err(e),
            Ok(v) => Ok(RegionParams { off_by: v as u32, ..region }),
        }
    } else if key == "sample"@ {
        Ok(RegionParams { sample: value, ..region })
    } else if key == "trigger"@ {
        match trigger_named(value) {
            Some(t) => Ok(RegionParams { trigger: t, ..region }),
            None => Err(ParseFailure::Key(value)),
        }
    } else {
        apply_cc_opcode(region, key, value)
    }
}

fn decimal_arg(value: &Vec<char>) -> (r: Result<Decimal, ParserError>)
    ensures
        match r {
            Ok(d) => decimal_value(value@) == Ok::<Decimal, ParseFailure>(d),
            Err(e) => decimal_value(value@) == Err::<Decimal, ParseFailure>(e@),
        },
{
    match Decimal::parse(value) {
        Ok(d) => Ok(d),
        Err(e) => Err(ParserError::ParseFloatError(e)),
    }
}

fn i32_arg(value: &Vec<char>) -> (r: Result<i32, ParserError>)
    ensures
        match r {
            Ok(v) => i32_value(value@) == Ok::<int, ParseFailure>(v as int),
            Err(e) => i32_value(value@) == Err::<int, ParseFailure>(e@),
        },
{
    match parse_int(value, -0x8000_0000, 0x7fff_ffff) {
        Ok(v) => Ok(v as i32),
        Err(e) => Err(ParserError::ParseIntError(e)),
    }
}

fn u32_arg(value: &Vec<char>) -> (r: Result<u32, ParserError>)
    ensures
        match r {
            Ok(v) => u32_value(value@) == Ok::<int, ParseFailure>(v as int),
            Err(e) => u32_value(value@) == Err::<int, ParseFailure>(e@),
        },
{
    match parse_int(value, 0, 0xffff_ffff) {
        Ok(v) => Ok(v as u32),
        Err(e) => Err(ParserError::ParseIntError(e)),
    }
}

fn key_arg(value: &Vec<char>) -> (r: Result<i32, ParserError>)
    ensures
        match r {
            Ok(v) => key_value(value@) == Ok::<int, ParseFailure>(v as int),
            Err(e) => key_value(value@) == Err::<int, ParseFailure>(e@),
        },
{
    match parse_key(value) {
        Ok(v) => Ok(v),
        Err(e) => Err(ParserError::NoteParseError(e)),
    }
}

fn ranged(r: Result<(), RangeError>) -> (p: Result<(), ParserError>)
    ensures
        match r {
            Ok(_) => p is Ok,
            Err(e) => p is Err && p->Err_0@ == ParseFailure::Range(e),
        },
{
    match r {
        Ok(()) => Ok(()),
        Err(e) => Err(ParserError::RangeError(e)),
    }
}

/// What an opcode leaves behind: the new region and no error, or the error
/// and the region as it was.
pub open spec fn taken(
    outcome: Result<RegionParams, ParseFailure>,
    before: RegionParams,
    after: RegionParams,
    r: Result<(), ParserError>,
) -> bool {
    match outcome {
        Ok(n) => r is Ok && after == n,
        Err(f) => r is Err && r->Err_0@ == f && after == before,
    }
}

fn take_key_opcode(region: &mut RegionData, key: &Vec<char>, k: i32) -> (r: Result<(), ParserError>)
    requires
        is_key_opcode(key@),
    ensures
        taken(lift(apply_key_opcode(old(region)@, key@, k as int)), old(region)@, final(region)@, r),
        old(region)@.wf() ==> final(region)@.wf(),
{
    if spells(key, "lokey") {
        ranged(region.key_range.set_lo(k))
    } else if spells(key, "hikey") {
        ranged(region.key_range.set_hi(k))
    } else if k < 0 || k > 127 {
        Err(
            ParserError::RangeError(
                RangeError::out_of_range(
                    "key",
                    Decimal::from_int(0),
                    Decimal::from_int(127),
                    Decimal::from_int(k as i64),
                ),
            ),
        )
    } else {
        region.key_range = NoteRange { lo: Some(k as u8), hi: Some(k as u8) };
        region.pitch_keycenter = k as u8;
        Ok(())
    }
}

fn take_decimal_opcode(region: &mut RegionData, key: &Vec<char>, v: Decimal) -> (r: Result<
    (),
    ParserError,
>)
    requires
        is_decimal_opcode(key@),
    ensures
        taken(lift(apply_decimal_opcode(old(region)@, key@, v)), old(region)@, final(region)@, r),
        old(region)@.wf() ==> final(region)@.wf(),
{
    if spells(key, "lorand") {
        ranged(region.random_range.set_lo(v))
    } else if spells(key, "hirand") {
        ranged(region.random_range.set_hi(v))
    } else if spells(key, "volume") {
        ranged(region.set_volume(v))
    } else if spells(key, "rt_decay") {
        ranged(region.set_rt_decay(v))
    } else if spells(key, "pitch_keytrack") {
        ranged(region.set_pitch_keytrack(v))
    } else if spells(key, "amp_veltrack") {
        ranged(region.set_amp_veltrack(v))
    } else if spells(key, "ampeg_attack") {
        ranged(region.ampeg.set_attack(v))
    } else if spells(key, "ampeg_hold") {
        ranged(region.ampeg.set_hold(v))
    } else if spells(key, "ampeg_decay") {
        ranged(region.ampeg.set_decay(v))
    } else if spells(key, "ampeg_sustain") {
        ranged(region.ampeg.set_sustain(v))
    } else {
        ranged(region.ampeg.set_release(v))
    }
}

fn slice_of(v: &Vec<char>, from: usize, to: usize) -> (r: Vec<char>)
    requires
        from <= to <= v.len(),
    ensures
        r@ == v@.subrange(from as int, to as int),
{
    let mut r: Vec<char> = Vec::new();
    let mut i: usize = from;
    while i < to
        invariant
            from <= i <= to <= v.len(),
            r@ == v@.subrange(from as int, i as int),
        decreases to - i,
    {
        r.push(v[i]);
        i += 1;
        assert(v@.subrange(from as int, i as int) == v@.subrange(from as int, i - 1).push(v@[i - 1]));
    }
    r
}

fn first_cc(key: &Vec<char>) -> (r: Option<usize>)
    ensures
        match r {
            Some(n) => find_cc(key@, 0) == n && n + 2 <= key.len(),
            None => find_cc(key@, 0) < 0,
        },
{
    if key.len() < 2 {
        return None;
    }
    let mut n: usize = 0;
    while n < key.len() - 1
        invariant
            n <= key.len() - 1,
            key.len() >= 2,
            find_cc(key@, 0) == find_cc(key@, n as int),
        decreases key.len() - n,
    {
        if key[n] == 'c' && key[n + 1] == 'c' {
            return Some(n);
        }
        n += 1;
    }
    None
}

fn take_cc_opcode(region: &mut RegionData, key: &Vec<char>, value: &Vec<char>) -> (r: Result<
    (),
    ParserError,
>)
    ensures
        taken(apply_cc_opcode(old(region)@, key@, value@), old(region)@, final(region)@, r),
        old(region)@.wf() ==> final(region)@.wf(),
{
    let n = match first_cc(key) {
        Some(n) => n,
        None => {
            return Err(ParserError::KeyError(string_of(key)));
        },
    };
    let number = slice_of(key, n + 2, key.len());
    let prefix = slice_of(key, 0, n);
    assert(key@.skip(n + 2) == key@.subrange(n + 2, key.len() as int));
    assert(key@.take(n as int) == key@.subrange(0, n as int));
    let cc = match u32_arg(&number) {
        Ok(cc) => cc,
        Err(e) => {
            return Err(e);
        },
    };
    if cc > 127 {
        return Err(
            ParserError::RangeError(
                RangeError::out_of_range(
                    "cc number",
                    Decimal::from_int(0),
                    Decimal::from_int(127),
                    Decimal::from_int(cc as i64),
                ),
            ),
        );
    }
    let v = match i32_arg(value) {
        Ok(v) => v,
        Err(e) => {
            return Err(e);
        },
    };
    if spells(&prefix, "on_lo") {
        ranged(region.push_on_lo_cc(cc, v))
    } else if spells(&prefix, "on_hi") {
        ranged(region.push_on_hi_cc(cc, v))
    } else {
        Err(ParserError::KeyError(string_of(&prefix)))
    }
}

fn key_opcode(key: &Vec<char>) -> (r: bool)
    ensures
        r == is_key_opcode(key@),
{
    spells(key, "lokey") || spells(key, "hikey") || spells(key, "key")
}

fn decimal_opcode(key: &Vec<char>) -> (r: bool)
    ensures
        r == is_decimal_opcode(key@),
{
    spells(key, "lorand") || spells(key, "hirand") || spells(key, "volume") || spells(
        key,
        "rt_decay",
    ) || spells(key, "pitch_keytrack") || spells(key, "amp_veltrack") || spells(
        key,
        "ampeg_attack",
    ) || spells(key, "ampeg_hold") || spells(key, "ampeg_decay") || spells(key, "ampeg_sustain")
        || spells(key, "ampeg_release")
}

/// Applies the opcode `key=value` to `region`.
pub fn take_opcode(region: &mut RegionData, key: &Vec<char>, value: &Vec<char>) -> (r: Result<
    (),
    ParserError,
>)
    ensures
        taken(apply_opcode(old(region)@, key@, value@), old(region)@, final(region)@, r),
        old(region)@.wf() ==> final(region)@.wf(),
{
    if key_opcode(key) {
        match key_arg(value) {
            Err(e) => Err(e),
            Ok(k) => take_key_opcode(region, key, k),
        }
    } else if decimal_opcode(key) {
        match decimal_arg(value) {
            Err(e) => Err(e),
            Ok(v) => take_decimal_opcode(region, key, v),
        }
    } else if spells(key, "pitch_keycenter") {
        match u32_arg(value) {
            Err(e) => Err(e),
            Ok(v) => ranged(region.set_pitch_keycenter(v)),
        }
    } else if spells(key, "lovel") {
        match i32_arg(value) {
            Err(e) => Err(e),
            Ok(v) => ranged(region.vel_range.set_lo(v)),
        }
    } else if spells(key, "hivel") {
        match i32_arg(value) {
            Err(e) => Err(e),
            Ok(v) => ranged(region.vel_range.set_hi(v)),
        }
    } else if spells(key, "tune") {
        match i32_arg(value) {
            Err(e) => Err(e),
            Ok(v) => ranged(region.set_tune(v)),
        }
    } else if spells(key, "group") {
        match u32_arg(value) {
            Err(e) => Err(e),
            Ok(v) => {
                region.set_group(v);
                Ok(())
            },
        }
    } else if spells(key, "off_by") {
        match u32_arg(value) {
            Err(e) => Err(e),
            Ok(v) => {
                region.set_off_by(v);
                Ok(())
            },
        }
    } else if spells(key, "sample") {
        let path = string_of(value);
        region.set_sample(path.as_str());
        Ok(())
    } else if spells(key, "trigger") {
        match parse_trigger(value) {
            Err(e) => Err(e),
            Ok(t) => {
                region.set_trigger(t);
                Ok(())
            },
        }
    } else {
        take_cc_opcode(region, key, value)
    }
}

/// The section body that starts at `pos`, applied to `region`: the region
/// after every opcode up to the next header or the end of the text; what
/// the scanner found last; and the position behind it.
pub open spec fn region_at(s: Seq<char>, pos: int, region: RegionParams) -> (
    Result<(RegionParams, NextChar), ParseFailure>,
    int,
)
    decreases s.len() - pos,
    when 0 <= pos <= s.len()
{
    let (opcode, p) = opcode_at(s, pos);
    match opcode {
        Err(e) => (Err(e), p),
        Ok((None, last)) => (Ok((region, last)), p),
        Ok((Some((key, value)), last)) => match apply_opcode(region, trimmed(key), trimmed(value)) {
            Err(e) => (Err(e), p),
            Ok(next) => if last is NewTag {
                (Ok((next, last)), p)
            } else {
                proof {
                    opcode_advances(s, pos);
                }
                region_at(s, p, next)
            },
        },
    }
}

/// A section body ends where the text does or behind a header that opens.
pub proof fn region_advances(s: Seq<char>, pos: int, region: RegionParams)
    requires
        0 <= pos <= s.len(),
    ensures
        pos <= region_at(s, pos, region).1 <= s.len(),
        region_at(s, pos, region).0 is Ok && region_at(s, pos, region).0->Ok_0.1 is NewTag ==> pos
            < region_at(s, pos, region).1,
    decreases s.len() - pos,
{
    opcode_advances(s, pos);
    let (opcode, p) = opcode_at(s, pos);
    if let Ok((Some((key, value)), last)) = opcode {
        if let Ok(next) = apply_opcode(region, trimmed(key), trimmed(value)) {
            if !(last is NewTag) {
                region_advances(s, p, next);
            }
        }
    }
}

/// Reads the body of a section, starting out from `base`.
pub fn parse_region(text: &Vec<char>, pos: usize, base: RegionData) -> (r: (
    Result<(RegionData, NextChar), ParserError>,
    usize,
))
    requires
        pos <= text.len(),
    ensures
        pos <= r.1 <= text.len(),
        r.1 as int == region_at(text@, pos as int, base@).1,
        match r.0 {
            Ok((data, last)) => region_at(text@, pos as int, base@).0 == Ok::<
                (RegionParams, NextChar),
                ParseFailure,
            >((data@, last)) && (base@.wf() ==> data@.wf()),
            Err(e) => region_at(text@, pos as int, base@).0 == Err::<
                (RegionParams, NextChar),
                ParseFailure,
            >(e@),
        },
{
    let ghost start = base@;
    let mut region = base;
    let mut i: usize = pos;
    proof {
        region_advances(text@, pos as int, start);
    }
    loop
        invariant
            pos <= i <= text.len(),
            start == base@,
            region_at(text@, pos as int, start) == region_at(text@, i as int, region@),
            start.wf() ==> region@.wf(),
        decreases text.len() - i,
    {
        proof {
            opcode_advances(text@, i as int);
        }
        let (opcode, p) = parse_opcode(text, i);
        match opcode {
            Err(e) => {
                return (Err(e), p);
            },
            Ok((None, last)) => {
                return (Ok((region, last)), p);
            },
            Ok((Some((key, value)), last)) => {
                let key = trim(&key);
                let value = trim(&value);
                match take_opcode(&mut region, &key, &value) {
                    Err(e) => {
                        return (Err(e), p);
                    },
                    Ok(()) => {},
                }
                match last {
                    NextChar::NewTag => {
                        return (Ok((region, last)), p);
                    },
                    _ => {},
                }
                i = p;
            },
        }
    }
}

/// The regions of the sections that start with the header at `pos`, after
/// the regions `regions` already read, where `group` holds the opcodes of
/// the group that was read last.
///
/// A `<group>` starts out from the initial region and gives no region of
/// its own; a `<region>` starts out from the group.
pub open spec fn sections_at(
    s: Seq<char>,
    pos: int,
    group: RegionParams,
    regions: Seq<RegionParams>,
) -> Result<Seq<RegionParams>, ParseFailure>
    decreases s.len() - pos,
    when 0 <= pos <= s.len()
{
    let (header, p) = header_at(s, pos, Seq::empty());
    match header {
        Err(e) => Err(e),
        Ok(name) => {
            let is_group = trimmed(name) == "group"@;
            let is_region = trimmed(name) == "region"@;
            let (body, q) = region_at(s, p, if is_group { RegionParams::initial() } else { group });
            if !is_group && !is_region {
                Err(ParseFailure::Key(trimmed(name)))
            } else {
                match body {
                    Err(e) => Err(e),
                    Ok((region, last)) => {
                        let so_far = if is_group { regions } else { regions.push(region) };
                        if last is NewTag {
                            proof {
                                header_advances(s, pos, Seq::empty());
                                region_advances(s, p, if is_group { RegionParams::initial() } else { group });
                            }
                            sections_at(s, q, if is_group { region } else { group }, so_far)
                        } else {
                            Ok(so_far)
                        }
                    },
                }
            }
        },
    }
}

/// The regions that the description `s` holds, in order.  The first thing
/// in a description, after blanks and comments, must be a header.
pub open spec fn sfz_regions(s: Seq<char>) -> Result<Seq<RegionParams>, ParseFailure> {
    let (first, p) = scan(s, 0, false, true);
    if first is NewTag {
        sections_at(s, p, RegionParams::initial(), Seq::empty())
    } else {
        Err(ParseFailure::General("Expecting <> tag in sfz file"@))
    }
}

/// The parameters of each region of `v`.
pub open spec fn params_of(v: Seq<RegionData>) -> Seq<RegionParams> {
    v.map_values(|d: RegionData| d@)
}

/// Reads an instrument description.
pub fn parse_sfz_text(text: String) -> (r: Result<Vec<RegionData>, ParserError>)
    ensures
        match r {
            Ok(regions) => sfz_regions(text@) == Ok::<Seq<RegionParams>, ParseFailure>(
                params_of(regions@),
            ) && forall|i: int| 0 <= i < regions.len() ==> (#[trigger] regions[i])@.wf(),
            Err(e) => sfz_regions(text@) == Err::<Seq<RegionParams>, ParseFailure>(e@),
        },
{
    let chars = chars_of(text.as_str());
    let mut current_group = RegionData::default();
    let mut regions: Vec<RegionData> = Vec::new();
    let (first, start) = next_char_skip_whitespace(&chars, 0);
    match first {
        NextChar::NewTag => {},
        _ => {
            return Err(ParserError::General("Expecting <> tag in sfz file".to_owned()));
        },
    }
    let mut i: usize = start;
    assert(params_of(regions@) == Seq::<RegionParams>::empty());
    loop
        invariant
            i <= chars.len(),
            chars@ == text@,
            sfz_regions(text@) == sections_at(chars@, i as int, current_group@, params_of(regions@)),
            current_group@.wf(),
            forall|k: int| 0 <= k < regions.len() ==> (#[trigger] regions[k])@.wf(),
        decreases chars.len() - i,
    {
        proof {
            header_advances(chars@, i as int, Seq::empty());
        }
        let (header, p) = parse_header(&chars, i);
        let name = match header {
            Ok(h) => trim(&h),
            Err(e) => {
                return Err(e);
            },
        };
        let is_group = spells(&name, "group");
        let is_region = spells(&name, "region");
        if !is_group && !is_region {
            return Err(ParserError::KeyError(string_of(&name)));
        }
        let base = if is_group { RegionData::default() } else { current_group.clone() };
        proof {
            region_advances(chars@, p as int, base@);
        }
        let (body, q) = parse_region(&chars, p, base);
        let (region, last) = match body {
            Ok(b) => b,
            Err(e) => {
                return Err(e);
            },
        };
        if is_group {
            current_group = region;
        } else {
            let ghost before = regions@;
            regions.push(region);
            assert(params_of(regions@) == params_of(before).push(region@));
        }
        match last {
            NextChar::NewTag => {},
            _ => {
                return Ok(regions);
            },
        }
        i = q;
    }
}

} // verus!
