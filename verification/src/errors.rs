//! The closed error taxonomy of the feed reader: one tagged union over
//! the four lower-level failure kinds (I/O, HTTP, XML parse, date parse)
//! and the feed-semantic kinds, with conversions from each wrapped error
//! and a fixed human-readable rendering.

use vstd::prelude::*;

verus! {

/// The error type of std's I/O layer, opaque to the verifier.
#[verifier::external_type_specification]
#[verifier::external_body]
pub struct ExIoError(std::io::Error);

/// The error type of the reqwest HTTP client, opaque to the verifier.
#[verifier::external_type_specification]
#[verifier::external_body]
pub struct ExHttpError(reqwest::Error);

/// The error type of the xml crate's tree builder, opaque to the verifier.
#[verifier::external_type_specification]
#[verifier::external_body]
pub struct ExBuilderError(xml::BuilderError);

/// The error type of chrono's format parser, opaque to the verifier.
#[verifier::external_type_specification]
#[verifier::external_body]
pub struct ExDateParseError(chrono::format::ParseError);

pub type FeedResult<T> = Result<T, FeedError>;

/// A set of errors that can occur handling RSS or Atom feeds. The first
/// four kinds wrap the corresponding lower-level error unmodified.
pub enum FeedError {
    /// Error detected at the I/O level
    Io(std::io::Error),
    /// Error detected at the HTTP level
    Http(reqwest::Error),
    /// Error detected at the XML parsing level
    XMLParse(xml::BuilderError),
    /// Error detected at the date parsing level
    DateParse(chrono::format::ParseError),
    /// XML, but feed type not recognized. Reserved for multi-format
    /// dispatch; nothing constructs it while RSS is assumed throughout.
    UnknownFeedType,
    /// Required feed field missing or invalid
    Field(String),
    /// Got an HTML page instead of an XML page. Declared for detection
    /// that is not implemented yet; nothing constructs it.
    WasHTML(String),
}

impl From<std::io::Error> for FeedError {
    fn from(err: std::io::Error) -> FeedError {
        FeedError::Io(err)
    }
}

impl vstd::std_specs::convert::FromSpecImpl<std::io::Error> for FeedError {
    open spec fn obeys_from_spec() -> bool {
        true
    }

    open spec fn from_spec(err: std::io::Error) -> FeedError {
        FeedError::Io(err)
    }
}

impl From<reqwest::Error> for FeedError {
    fn from(err: reqwest::Error) -> FeedError {
        FeedError::Http(err)
    }
}

impl vstd::std_specs::convert::FromSpecImpl<reqwest::Error> for FeedError {
    open spec fn obeys_from_spec() -> bool {
        true
    }

    open spec fn from_spec(err: reqwest::Error) -> FeedError {
        FeedError::Http(err)
    }
}

impl From<xml::BuilderError> for FeedError {
    fn from(err: xml::BuilderError) -> FeedError {
        FeedError::XMLParse(err)
    }
}

impl vstd::std_specs::convert::FromSpecImpl<xml::BuilderError> for FeedError {
    open spec fn obeys_from_spec() -> bool {
        true
    }

    open spec fn from_spec(err: xml::BuilderError) -> FeedError {
        FeedError::XMLParse(err)
    }
}

impl From<chrono::format::ParseError> for FeedError {
    fn from(err: chrono::format::ParseError) -> FeedError {
        FeedError::DateParse(err)
    }
}

impl vstd::std_specs::convert::FromSpecImpl<chrono::format::ParseError> for FeedError {
    open spec fn obeys_from_spec() -> bool {
        true
    }

    open spec fn from_spec(err: chrono::format::ParseError) -> FeedError {
        FeedError::DateParse(err)
    }
}

impl FeedError {
    /// The human-readable rendering, the sole user-visible error surface:
    /// a wrapped error renders through its own renderer, the feed-semantic
    /// kinds through a fixed message template.
    pub fn message(&self) -> (r: String)
        ensures
            self is UnknownFeedType ==> r@ == "Unknown feed type."@,
            self matches FeedError::Field(s) ==> r@ == "Required field \""@ + s@
                + "\" missing from RSS/Atom feed."@,
            self matches FeedError::WasHTML(s) ==> r@
                == "Expected an RSS/ATOM feed but received a web page \""@ + s@ + "\"."@,
    {
        match self {
            FeedError::Io(xerr) => xerr.to_string(),
            FeedError::Http(xerr) => xerr.to_string(),
            FeedError::XMLParse(xerr) => xerr.to_string(),
            FeedError::DateParse(xerr) => xerr.to_string(),
            FeedError::UnknownFeedType => "Unknown feed type.".to_owned(),
            FeedError::Field(s) => {
                let mut m = "Required field \"".to_owned();
                m.append(s.as_str());
                m.append("\" missing from RSS/Atom feed.");
                m
            },
            FeedError::WasHTML(s) => {
                let mut m = "Expected an RSS/ATOM feed but received a web page \"".to_owned();
                m.append(s.as_str());
                m.append("\".");
                m
            },
        }
    }
}

} // verus!
