use vstd::prelude::*;
use crate::command_parser::error::GuitParseError;

verus! {

/// The state of a file on one side of a change: in the index or in the
/// working tree.
#[derive(Debug, Clone, Copy, PartialEq, Eq, Structural)]
pub enum StatusTable {
    Unmodified,
    Unknown,
    Modified,
    Added,
    Deleted,
    Renamed,
}

impl StatusTable {
    /// The character that stands for this state.
    pub open spec fn code(self) -> char {
        match self {
            StatusTable::Unmodified => ' ',
            StatusTable::Unknown => '?',
            StatusTable::Modified => 'M',
            StatusTable::Added => 'A',
            StatusTable::Deleted => 'D',
            StatusTable::Renamed => 'R',
        }
    }

    /// The state that the character `c` stands for in a status line. Only
    /// space, `M`, `A`, `D` and `R` are read; `?` and every other character
    /// are refused.
    pub open spec fn from_code(c: char) -> Result<StatusTable, GuitParseError> {
        if c == ' ' {
            Ok(StatusTable::Unmodified)
        } else if c == 'M' {
            Ok(StatusTable::Modified)
        } else if c == 'A' {
            Ok(StatusTable::Added)
        } else if c == 'D' {
            Ok(StatusTable::Deleted)
        } else if c == 'R' {
            Ok(StatusTable::Renamed)
        } else {
            Err(GuitParseError::UnknownStatusTable)
        }
    }

    /// This state written out: the one character of `code`.
    pub open spec fn encode(self) -> Seq<char> {
        seq![self.code()]
    }

    /// The state that the text `s` stands for: `s` has to be exactly one
    /// character, and that character one that `from_code` reads.
    pub open spec fn decode(s: Seq<char>) -> Result<StatusTable, GuitParseError> {
        if s.len() == 1 {
            Self::from_code(s[0])
        } else {
            Err(GuitParseError::UnknownStatusTable)
        }
    }

    pub fn to_char(&self) -> (c: char)
        ensures
            c == self.code(),
    {
        match self {
            StatusTable::Unmodified => ' ',
            StatusTable::Unknown => '?',
            StatusTable::Modified => 'M',
            StatusTable::Added => 'A',
            StatusTable::Deleted => 'D',
            StatusTable::Renamed => 'R',
        }
    }

    pub fn from_char(c: char) -> (r: Result<StatusTable, GuitParseError>)
        ensures
            r == Self::from_code(c),
    {
        match c {
            ' ' => Ok(StatusTable::Unmodified),
            'M' => Ok(StatusTable::Modified),
            'A' => Ok(StatusTable::Added),
            'D' => Ok(StatusTable::Deleted),
            'R' => Ok(StatusTable::Renamed),
            _ => Err(GuitParseError::UnknownStatusTable),
        }
    }

    pub fn to_string(&self) -> (text: String)
        ensures
            text@ == self.encode(),
    {
        let mut text = String::new();
        text.push(self.to_char());
        assert(text@ =~= seq![self.code()]);
        text
    }

    pub fn try_from(value: &str) -> (r: Result<StatusTable, GuitParseError>)
        ensures
            r == Self::decode(value@),
    {
        if value.unicode_len() == 1 {
            Self::from_char(value.get_char(0))
        } else {
            Err(GuitParseError::UnknownStatusTable)
        }
    }

    /// Decoding undoes encoding, for every state that has a place in a
    /// status line. `Unknown` has none: its character `?` is refused.
    pub proof fn lemma_decode_encode(self)
        requires
            self != StatusTable::Unknown,
        ensures
            Self::decode(self.encode()) == Ok::<StatusTable, GuitParseError>(self),
    {
    }

    /// Encoding undoes decoding: a text that decodes to a state is that
    /// state's encoding.
    pub proof fn lemma_encode_decode(s: Seq<char>)
        requires
            Self::decode(s) is Ok,
        ensures
            Self::decode(s)->Ok_0.encode() == s,
            Self::decode(s)->Ok_0 != StatusTable::Unknown,
    {
        assert(Self::decode(s)->Ok_0.encode() =~= s);
    }

    /// The character of `Unknown` is not one that decodes.
    pub proof fn lemma_unknown_is_refused()
        ensures
            Self::decode(StatusTable::Unknown.encode()) == Err::<StatusTable, GuitParseError>(
                GuitParseError::UnknownStatusTable,
            ),
    {
    }
}

} // verus!
