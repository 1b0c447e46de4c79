//! Error values for configuration validation, parsing and linking.
//!
//! Every error is fatal to the assembly run: the engine reports the first
//! one and stops. Parse-time errors carry the 1-based source line and,
//! where one exists, the offending token or tag.

use vstd::prelude::*;

verus! {

/// A fatal error raised while validating a `Config`.
///
/// `segment` and `rule` are indices into `segment_widths` and `rules`.
#[derive(Clone, Copy, Debug, PartialEq, Eq, Structural)]
pub enum ConfigError {
    /// A segment width lies outside 1..=8.
    BadSegmentWidth { segment: usize },
    /// The tag-creation regex does not compile.
    BadTagRegex,
    /// The tag-creation regex does not have exactly one capture group.
    TagRegexGroupCount,
    /// A rule's `segment_values` does not have one entry per segment.
    SegmentValueCount { rule: usize },
    /// A rule's regex does not compile.
    BadRuleRegex { rule: usize },
    /// A rule's capture descriptors do not match its regex's capture groups.
    CaptureCount { rule: usize },
    /// A self-reference names a segment or index that does not exist.
    BadSelfReference { rule: usize },
    /// A tag feedback names a segment or index that does not exist.
    BadTagFeedback { rule: usize },
    /// A string capture names a segment that does not exist.
    BadStrCapture { rule: usize },
    /// A numeric base lies outside 2..=36.
    BadNumBase { rule: usize },
    /// A numeric feedback names a segment or index that does not exist.
    BadNumFeedback { rule: usize },
}

/// A fatal error raised while parsing source text or linking.
#[derive(Debug)]
pub enum AsmError {
    /// A non-empty token matched neither the tag-creation regex nor any rule.
    UnrecognizedToken { line: usize, token: String },
    /// A captured substring could not be parsed as a signed 64-bit integer
    /// in the configured base.
    NumberParseFailure { line: usize, text: String },
    /// A named tag was created twice.
    DuplicateTag { line: usize, tag: String },
    /// A replacement references a tag with no matching definition.
    UndefinedTag { line: usize, tag: String },
    /// A fill feedback computed a negative repeat count.
    NegativeFill { line: usize },
    /// A capture group of a matched regex did not participate in the match.
    UnmatchedCapture { line: usize },
    /// A feedback's target index fell outside its rule's remaining template
    /// (possible once fill feedbacks have consumed template slots).
    FeedbackOutOfRange { line: usize },
    /// A replacement's patch site lies outside the emitted words.
    PatchOutOfRange { line: usize },
}

/// Any failure of a whole assembly run.
#[derive(Debug)]
pub enum RunError {
    /// The configuration failed validation.
    Config(ConfigError),
    /// Parsing or linking failed.
    Assembly(AsmError),
}

/// The mathematical shape of an `AsmError`: strings become char sequences.
pub enum ErrModel {
    UnrecognizedToken { line: usize, token: Seq<char> },
    NumberParseFailure { line: usize, text: Seq<char> },
    DuplicateTag { line: usize, tag: Seq<char> },
    UndefinedTag { line: usize, tag: Seq<char> },
    NegativeFill { line: usize },
    UnmatchedCapture { line: usize },
    FeedbackOutOfRange { line: usize },
    PatchOutOfRange { line: usize },
}

impl View for AsmError {
    type V = ErrModel;

    open spec fn view(&self) -> ErrModel {
        match self {
            AsmError::UnrecognizedToken { line, token } => ErrModel::UnrecognizedToken {
                line: *line,
                token: token@,
            },
            AsmError::NumberParseFailure { line, text } => ErrModel::NumberParseFailure {
                line: *line,
                text: text@,
            },
            AsmError::DuplicateTag { line, tag } => ErrModel::DuplicateTag {
                line: *line,
                tag: tag@,
            },
            AsmError::UndefinedTag { line, tag } => ErrModel::UndefinedTag {
                line: *line,
                tag: tag@,
            },
            AsmError::NegativeFill { line } => ErrModel::NegativeFill { line: *line },
            AsmError::UnmatchedCapture { line } => ErrModel::UnmatchedCapture { line: *line },
            AsmError::FeedbackOutOfRange { line } => ErrModel::FeedbackOutOfRange { line: *line },
            AsmError::PatchOutOfRange { line } => ErrModel::PatchOutOfRange { line: *line },
        }
    }
}

impl ErrModel {
    /// Errors that a fill feedback can raise after it has already pushed
    /// words: the only errors permitted to leave a rule partially emitted.
    pub open spec fn is_fill_time(self) -> bool {
        match self {
            ErrModel::NegativeFill { .. } => true,
            ErrModel::FeedbackOutOfRange { .. } => true,
            _ => false,
        }
    }
}

} // verus!
