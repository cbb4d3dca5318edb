//! Error kinds for the codec and the surrounding service layer.
//!
//! A decode either returns a fully formed value or one [`DecodeError`]; no
//! partial value is ever returned. Each error carries the input fragments
//! needed to locate the fault: the offending tag or attribute name and the
//! name or id of the nearest enclosing identified element.

use vstd::prelude::*;
use vstd::string::StringExecFns;

verus! {

/// Why a decode failed.
#[derive(Debug, Clone, PartialEq, Eq)]
pub enum DecodeError {
    /// An element not legal in the active grammar context: `tag` is the
    /// offending tag name, `context` the name or id of the enclosing element.
    StructuralError { tag: String, context: String },
    /// A required attribute was absent: `attr` is the attribute name, `elem`
    /// the element it was required on.
    MissingRequiredAttribute { attr: String, elem: String },
    /// A boolean, numeric or enumerated attribute held a value outside its
    /// closed literal set.
    MalformedAttributeValue { attr: String, value: String },
    /// End of input was reached before a required closing tag: `elem` is the
    /// id of the unclosed element where it has one, else its tag name.
    TruncatedInput { elem: String },
    /// Both a `value` attribute and nested value content were present where
    /// only one of the two is allowed: `elem` is the property name.
    ConflictingEncoding { elem: String },
}

/// The mathematical shadow of [`DecodeError`]: the same five kinds over
/// character sequences.
pub enum DecodeErrorView {
    StructuralError { tag: Seq<char>, context: Seq<char> },
    MissingRequiredAttribute { attr: Seq<char>, elem: Seq<char> },
    MalformedAttributeValue { attr: Seq<char>, value: Seq<char> },
    TruncatedInput { elem: Seq<char> },
    ConflictingEncoding { elem: Seq<char> },
}

impl View for DecodeError {
    type V = DecodeErrorView;

    open spec fn view(&self) -> DecodeErrorView {
        match self {
            DecodeError::StructuralError { tag, context } => DecodeErrorView::StructuralError {
                tag: tag@,
                context: context@,
            },
            DecodeError::MissingRequiredAttribute { attr, elem } => DecodeErrorView::MissingRequiredAttribute {
                attr: attr@,
                elem: elem@,
            },
            DecodeError::MalformedAttributeValue { attr, value } => DecodeErrorView::MalformedAttributeValue {
                attr: attr@,
                value: value@,
            },
            DecodeError::TruncatedInput { elem } => DecodeErrorView::TruncatedInput { elem: elem@ },
            DecodeError::ConflictingEncoding { elem } => DecodeErrorView::ConflictingEncoding {
                elem: elem@,
            },
        }
    }
}

impl DecodeError {
    /// A human-readable account of the error.
    pub fn message(&self) -> String {
        let mut s = String::new();
        match self {
            DecodeError::StructuralError { tag, context } => {
                s.append("unexpected element '");
                s.append(tag.as_str());
                s.append("' in ");
                s.append(context.as_str());
            },
            DecodeError::MissingRequiredAttribute { attr, elem } => {
                s.append("missing required attribute '");
                s.append(attr.as_str());
                s.append("' on ");
                s.append(elem.as_str());
            },
            DecodeError::MalformedAttributeValue { attr, value } => {
                s.append("malformed value for attribute '");
                s.append(attr.as_str());
                s.append("': ");
                s.append(value.as_str());
            },
            DecodeError::TruncatedInput { elem } => {
                s.append("input ended inside ");
                s.append(elem.as_str());
            },
            DecodeError::ConflictingEncoding { elem } => {
                s.append("value attribute conflicts with nested content in property ");
                s.append(elem.as_str());
            },
        }
        s
    }
}

/// The error type of the service layer around the codec.
#[derive(Debug)]
pub enum PSError {
    /// The server could not be reached.
    CommunicationError { msg: String },
    /// A server response could not be decoded.
    ParseError { msg: String, xml: String },
    /// The server reported a failure.
    ServerError { msg: String },
    /// A session token could not be obtained or used.
    TokenError { msg: String },
}

pub type PSResult<T> = Result<T, PSError>;

} // verus!
