//! What ends a mirror run before it is complete.

use vstd::prelude::*;
use vstd::string::StringExecFns;

verus! {

/// A fatal error: the run stops where it arises.
pub enum MirrorError {
    /// A start URL that is no absolute URL.
    InvalidUrl { input: String },
    /// A reference that does not resolve against the URL it was found
    /// under.
    Unresolvable { reference: String, base: String },
    /// A start URL whose extension names neither kind of manifest.
    UnsupportedExtension { extension: String },
    /// An action that the driver could not carry out.
    ActionFailed { reason: String },
    /// An event that does not answer the action that was asked for.
    OutOfTurn,
}

pub enum ErrorView {
    InvalidUrl { input: Seq<char> },
    Unresolvable { reference: Seq<char>, base: Seq<char> },
    UnsupportedExtension { extension: Seq<char> },
    ActionFailed { reason: Seq<char> },
    OutOfTurn,
}

impl View for MirrorError {
    type V = ErrorView;

    open spec fn view(&self) -> ErrorView {
        match self {
            MirrorError::InvalidUrl { input } => ErrorView::InvalidUrl { input: input@ },
            MirrorError::Unresolvable { reference, base } => ErrorView::Unresolvable {
                reference: reference@,
                base: base@,
            },
            MirrorError::UnsupportedExtension { extension } => ErrorView::UnsupportedExtension {
                extension: extension@,
            },
            MirrorError::ActionFailed { reason } => ErrorView::ActionFailed { reason: reason@ },
            MirrorError::OutOfTurn => ErrorView::OutOfTurn,
        }
    }
}

/// The words in which an error is told to the operator.
pub open spec fn message_of(e: ErrorView) -> Seq<char> {
    match e {
        ErrorView::InvalidUrl { input } => "parsing start URL "@ + input,
        ErrorView::Unresolvable { reference, base } => "resolving URI '"@ + reference
            + "' relative to "@ + base,
        ErrorView::UnsupportedExtension { extension } => "Unsupported start URL extension: "@
            + extension,
        ErrorView::ActionFailed { reason } => reason,
        ErrorView::OutOfTurn => "event out of turn"@,
    }
}

impl MirrorError {
    pub fn clone(&self) -> (c: MirrorError)
        ensures
            c@ == self@,
    {
        match self {
            MirrorError::InvalidUrl { input } => MirrorError::InvalidUrl { input: input.clone() },
            MirrorError::Unresolvable { reference, base } => MirrorError::Unresolvable {
                reference: reference.clone(),
                base: base.clone(),
            },
            MirrorError::UnsupportedExtension { extension } => MirrorError::UnsupportedExtension {
                extension: extension.clone(),
            },
            MirrorError::ActionFailed { reason } => MirrorError::ActionFailed {
                reason: reason.clone(),
            },
            MirrorError::OutOfTurn => MirrorError::OutOfTurn,
        }
    }

    /// The error in words.
    pub fn message(&self) -> (m: String)
        ensures
            m@ == message_of(self@),
    {
        match self {
            MirrorError::InvalidUrl { input } => {
                let mut m = "parsing start URL ".to_owned();
                m.append(input.as_str());
                m
            },
            MirrorError::Unresolvable { reference, base } => {
                let mut m = "resolving URI '".to_owned();
                m.append(reference.as_str());
                m.append("' relative to ");
                m.append(base.as_str());
                m
            },
            MirrorError::UnsupportedExtension { extension } => {
                let mut m = "Unsupported start URL extension: ".to_owned();
                m.append(extension.as_str());
                m
            },
            MirrorError::ActionFailed { reason } => reason.clone(),
            MirrorError::OutOfTurn => "event out of turn".to_owned(),
        }
    }
}

} // verus!
