//! The verdict that a judge's reply stands for.

use vstd::prelude::*;
use vstd::string::StringExecFns;
use crate::text::{lowercase, find_pattern, lower_of, pattern_found};

verus! {

/// The pattern for the whole word `true`.
pub open spec fn true_word() -> Seq<char> {
    "\\btrue\\b"@
}

/// The pattern for the whole word `false`.
pub open spec fn false_word() -> Seq<char> {
    "\\bfalse\\b"@
}

/// The outcome of judging one generated answer.
#[derive(Clone, Copy, Debug, PartialEq, Eq, Structural)]
pub enum Verdict {
    True,
    False,
    Unknown,
    /// The judge could not be consulted at all.
    Error,
}

impl Verdict {
    /// The label under which a verdict is recorded.
    pub open spec fn label(self) -> Seq<char> {
        match self {
            Verdict::True => "true"@,
            Verdict::False => "false"@,
            Verdict::Unknown => "unknown"@,
            Verdict::Error => "Error validating response"@,
        }
    }

    /// The verdict's label as text.
    pub fn as_string(&self) -> (r: String)
        ensures
            r@ == self.label(),
    {
        match self {
            Verdict::True => String::from_str("true"),
            Verdict::False => String::from_str("false"),
            Verdict::Unknown => String::from_str("unknown"),
            Verdict::Error => String::from_str("Error validating response"),
        }
    }
}

/// The verdict for an already lowercased reply, given whether the whole
/// words `true` and `false` occur in it. An exact `true` or `false` decides
/// first; then the word `true` wins over the word `false`.
pub open spec fn verdict_for(lowered: Seq<char>, has_true: bool, has_false: bool) -> Verdict {
    if lowered == "true"@ {
        Verdict::True
    } else if lowered == "false"@ {
        Verdict::False
    } else if has_true {
        Verdict::True
    } else if has_false {
        Verdict::False
    } else {
        Verdict::Unknown
    }
}

/// Whether a search for `pattern` found it.
pub open spec fn found(pattern: Seq<char>, text: Seq<char>) -> bool {
    pattern_found(pattern, text) == Some(true)
}

/// The verdict for a reply as the judge wrote it.
pub open spec fn classify_spec(reply: Seq<char>) -> Verdict {
    let lowered = lower_of(reply);
    verdict_for(lowered, found(true_word(), lowered), found(false_word(), lowered))
}

/// Decides the verdict for a lowercased reply from the two word searches.
pub fn verdict_of(lowered: &str, has_true: bool, has_false: bool) -> (r: Verdict)
    ensures
        r == verdict_for(lowered@, has_true, has_false),
{
    let text = String::from_str(lowered);
    if text == String::from_str("true") {
        Verdict::True
    } else if text == String::from_str("false") {
        Verdict::False
    } else if has_true {
        Verdict::True
    } else if has_false {
        Verdict::False
    } else {
        Verdict::Unknown
    }
}

/// Maps a judge's free-text reply to `True`, `False` or `Unknown`.
pub fn classify(reply: &str) -> (r: Verdict)
    ensures
        r == classify_spec(reply@),
        r == Verdict::True || r == Verdict::False || r == Verdict::Unknown,
{
    let lowered = lowercase(reply);
    let has_true = find_pattern("\\btrue\\b", lowered.as_str()) == Some(true);
    let has_false = find_pattern("\\bfalse\\b", lowered.as_str()) == Some(true);
    verdict_of(lowered.as_str(), has_true, has_false)
}

} // verus!
