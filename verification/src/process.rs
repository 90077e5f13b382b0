//! Processing a text blob against a document: parse the blob, then distribute
//! the parsed integers into the document's slot arrays. A parse failure leaves
//! the document untouched; a distribution failure leaves it exactly as the
//! distributor describes.

use vstd::prelude::*;
use vstd::string::StringExecFns;

use crate::decimal::dec_digits;
use crate::distribute::{dist_post, write_numbers_to_subchips, DistError};
use crate::model::ChipDocument;
use crate::parse::{parse_content_spec, parse_text_content, ParseError, ParseErrorKind};

verus! {

/// Why processing failed: the text did not parse, or distribution failed.
#[derive(Clone, Debug, PartialEq, Eq)]
pub enum ProcessError {
    NumberParse(ParseError),
    Distribute(DistError),
}

/// The reason a piece was rejected, in words.
pub open spec fn kind_text(k: ParseErrorKind) -> Seq<char> {
    match k {
        ParseErrorKind::Empty => "cannot parse integer from empty string"@,
        ParseErrorKind::InvalidDigit => "invalid digit found in string"@,
        ParseErrorKind::PosOverflow => "number too large to fit in target type"@,
        ParseErrorKind::NegOverflow => "number too small to fit in target type"@,
    }
}

/// The diagnostic line for a rejected piece.
pub open spec fn parse_error_text(token: Seq<char>, k: ParseErrorKind) -> Seq<char> {
    "Invalid number '"@ + token + "': "@ + kind_text(k)
}

/// The diagnostic line for a distribution failure.
pub open spec fn dist_error_text(e: DistError) -> Seq<char> {
    match e {
        DistError::MissingSubChips => "SubChips array not found or not an array"@,
        DistError::MissingInternalData => "InternalData not found or not an array"@,
        DistError::InsufficientCapacity(n) => "Insufficient SubChips to write all numbers, "@
            + dec_digits(n as nat) + " remaining"@,
    }
}

impl ParseError {
    /// The diagnostic message for this error.
    pub fn message(&self) -> (r: String)
        ensures
            r@ == parse_error_text(self.token@, self.kind),
    {
        let mut out = String::new();
        out.append("Invalid number '");
        out.append(self.token.as_str());
        out.append("': ");
        match self.kind {
            ParseErrorKind::Empty => out.append("cannot parse integer from empty string"),
            ParseErrorKind::InvalidDigit => out.append("invalid digit found in string"),
            ParseErrorKind::PosOverflow => out.append("number too large to fit in target type"),
            ParseErrorKind::NegOverflow => out.append("number too small to fit in target type"),
        }
        proof {
            assert(out@ =~= parse_error_text(self.token@, self.kind));
        }
        out
    }
}

impl DistError {
    /// The diagnostic message for this error.
    pub fn message(&self) -> (r: String)
        ensures
            r@ == dist_error_text(*self),
    {
        match self {
            DistError::MissingSubChips => {
                let mut out = String::new();
                out.append("SubChips array not found or not an array");
                out
            },
            DistError::MissingInternalData => {
                let mut out = String::new();
                out.append("InternalData not found or not an array");
                out
            },
            DistError::InsufficientCapacity(n) => {
                let mut out = String::new();
                out.append("Insufficient SubChips to write all numbers, ");
                crate::decimal::push_usize_dec(&mut out, *n);
                out.append(" remaining");
                proof {
                    assert(out@ =~= dist_error_text(*self));
                }
                out
            },
        }
    }
}

impl ProcessError {
    /// The diagnostic message for this error.
    pub fn message(&self) -> (r: String)
        ensures
            self matches ProcessError::NumberParse(e) ==> r@ == parse_error_text(e.token@, e.kind),
            self matches ProcessError::Distribute(e) ==> r@ == dist_error_text(*e),
    {
        match self {
            ProcessError::NumberParse(e) => e.message(),
            ProcessError::Distribute(e) => e.message(),
        }
    }
}

/// The first hundred characters of the text, for diagnostic logging of what
/// was read.
pub fn content_preview(content: &str) -> (r: String)
    ensures
        r@ == content@.take(
            if content@.len() < 100 {
                content@.len() as int
            } else {
                100
            },
        ),
{
    let len = content.unicode_len();
    let end = if len < 100 {
        len
    } else {
        100
    };
    let s = content.substring_char(0, end);
    proof {
        assert(s@ =~= content@.take(end as int));
    }
    s.to_owned()
}

/// Parses the text and distributes the integers into the document's slot
/// arrays. Where the text does not parse, nothing is written and the parse
/// failure comes back; otherwise the document and the result are exactly what
/// the distributor's `dist_post` relation says for the parsed integers.
pub fn process_text_and_update_json(json: &mut ChipDocument, content: &str) -> (r: Result<
    (),
    ProcessError,
>)
    ensures
        match parse_content_spec(content@) {
            Err((t, k)) => *final(json) == *old(json) && (r matches Err(e) && e matches
                ProcessError::NumberParse(pe) && pe.token@ == t && pe.kind == k),
            Ok(nums) => match r {
                Ok(u) => dist_post(old(json)@, final(json)@, nums, Ok(u)),
                Err(e) => e matches ProcessError::Distribute(de) && dist_post(
                    old(json)@,
                    final(json)@,
                    nums,
                    Err(de),
                ),
            },
        },
{
    let numbers = match parse_text_content(content) {
        Ok(v) => v,
        Err(e) => {
            return Err(ProcessError::NumberParse(e));
        },
    };
    match write_numbers_to_subchips(json, numbers.as_slice()) {
        Ok(u) => Ok(u),
        Err(de) => Err(ProcessError::Distribute(de)),
    }
}

} // verus!
