//! Directive parameters: the comma-separated slots after a `~`, and the
//! colon/at modifier flags.

use vstd::prelude::*;
use crate::errors::{ParamIssue, ParseError};

verus! {

/// One parameter slot: a number, a quoted character, or an explicitly
/// missing slot (which still occupies a position).
#[derive(Debug, Clone, Copy, PartialEq, Eq, Structural)]
pub enum Param {
    Char(char),
    Num(i64),
    Missing,
}

/// The decoded parameter list of one directive.
#[derive(Debug, PartialEq, Eq)]
pub struct Params {
    pub parsed: Vec<Param>,
}

/// What `Params::get_num` returns: the number in the slot, the default for a
/// missing or absent slot, and an error for a character slot.
pub open spec fn spec_get_num(ps: Seq<Param>, idx: int, def: i64) -> Result<i64, ParseError> {
    if 0 <= idx < ps.len() {
        match ps[idx] {
            Param::Char(_) => Err(ParseError::BadParameter(ParamIssue::ExpectedNumber)),
            Param::Num(n) => Ok(n),
            Param::Missing => Ok(def),
        }
    } else {
        Ok(def)
    }
}

/// What `Params::get_char` returns: the character in the slot, the default
/// for a missing or absent slot, and an error for a number slot.
pub open spec fn spec_get_char(ps: Seq<Param>, idx: int, def: char) -> Result<char, ParseError> {
    if 0 <= idx < ps.len() {
        match ps[idx] {
            Param::Num(_) => Err(ParseError::BadParameter(ParamIssue::ExpectedCharacter)),
            Param::Char(c) => Ok(c),
            Param::Missing => Ok(def),
        }
    } else {
        Ok(def)
    }
}

/// What `Params::assert_missing` returns: an error exactly when the slot is
/// filled.
pub open spec fn spec_assert_missing(ps: Seq<Param>, idx: int) -> Result<(), ParseError> {
    if 0 <= idx < ps.len() && !(ps[idx] is Missing) {
        Err(ParseError::BadParameter(ParamIssue::Unsupported))
    } else {
        Ok(())
    }
}

impl Params {
    pub fn new(parsed: Vec<Param>) -> (r: Self)
        ensures
            r.parsed@ == parsed@,
    {
        Self { parsed }
    }

    /// Reads a number slot, with a default for a missing one.
    pub fn get_num(&self, idx: usize, def: i64) -> (r: Result<i64, ParseError>)
        ensures
            r == spec_get_num(self.parsed@, idx as int, def),
    {
        if idx < self.parsed.len() {
            match self.parsed[idx] {
                Param::Char(_) => Err(ParseError::BadParameter(ParamIssue::ExpectedNumber)),
                Param::Num(n) => Ok(n),
                Param::Missing => Ok(def),
            }
        } else {
            Ok(def)
        }
    }

    /// Reads a character slot, with a default for a missing one.
    pub fn get_char(&self, idx: usize, def: char) -> (r: Result<char, ParseError>)
        ensures
            r == spec_get_char(self.parsed@, idx as int, def),
    {
        if idx < self.parsed.len() {
            match self.parsed[idx] {
                Param::Num(_) => Err(ParseError::BadParameter(ParamIssue::ExpectedCharacter)),
                Param::Char(c) => Ok(c),
                Param::Missing => Ok(def),
            }
        } else {
            Ok(def)
        }
    }

    /// Rejects a filled slot; for parameter positions that are reserved.
    pub fn assert_missing(&self, idx: usize) -> (r: Result<(), ParseError>)
        ensures
            r == spec_assert_missing(self.parsed@, idx as int),
    {
        if idx < self.parsed.len() {
            match self.parsed[idx] {
                Param::Missing => Ok(()),
                _ => Err(ParseError::BadParameter(ParamIssue::Unsupported)),
            }
        } else {
            Ok(())
        }
    }
}

/// The colon and at modifier flags of one directive; their meaning is
/// directive-specific.
#[derive(Debug, Clone, Copy, PartialEq, Eq, Structural)]
pub struct Modifiers {
    pub colon: bool,
    pub at: bool,
}

} // verus!
