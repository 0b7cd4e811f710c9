//! The review protocol that a remote speaks, parsed without regard to case.
use vstd::prelude::*;

verus! {

/// The review protocols known to the manifest format.
#[derive(Debug, PartialEq, Eq, Structural, Copy, Clone)]
pub enum ReviewProtocolType {
    AGit,
    Gerrit,
}

/// The failure to recognise a review protocol; it holds the text as given.
#[derive(Debug)]
pub enum ProtocolTypeError {
    UnexpectedProtocol(String),
}

impl ProtocolTypeError {
    /// A readable account of the error.
    pub fn message(&self) -> (r: String)
        ensures
            match self {
                ProtocolTypeError::UnexpectedProtocol(s) => r@ == "Unknown protocol: "@ + s@,
            },
    {
        match self {
            ProtocolTypeError::UnexpectedProtocol(s) => {
                let mut r = String::from_str("Unknown protocol: ");
                r.append(s.as_str());
                r
            },
        }
    }
}

/// What `str::to_lowercase` makes of a text.
pub uninterp spec fn lowercase_of(s: Seq<char>) -> Seq<char>;

/// Relies on `str::to_lowercase`: its result depends on the characters of the
/// text alone.
#[verifier::external_body]
fn to_lowercase(s: &str) -> (r: String)
    ensures
        r@ == lowercase_of(s@),
{
    s.to_lowercase()
}

/// The protocol that a text names once folded to lower case, if any.
pub open spec fn protocol_of_lowercase(lowered: Seq<char>) -> Option<ReviewProtocolType> {
    if lowered == "agit"@ {
        Some(ReviewProtocolType::AGit)
    } else if lowered == "gerrit"@ {
        Some(ReviewProtocolType::Gerrit)
    } else {
        None
    }
}

/// Recognises a protocol from the lower-case form `lowered` of the text
/// `source`; an unknown protocol is reported with `source` itself.
pub fn protocol_from_lowercase(lowered: &String, source: &str) -> (r: Result<
    ReviewProtocolType,
    ProtocolTypeError,
>)
    ensures
        match protocol_of_lowercase(lowered@) {
            Some(p) => r == Ok::<ReviewProtocolType, ProtocolTypeError>(p),
            None => r matches Err(ProtocolTypeError::UnexpectedProtocol(e)) && e@ == source@,
        },
{
    let agit = String::from_str("agit");
    let gerrit = String::from_str("gerrit");
    if lowered.eq(&agit) {
        Ok(ReviewProtocolType::AGit)
    } else if lowered.eq(&gerrit) {
        Ok(ReviewProtocolType::Gerrit)
    } else {
        Err(ProtocolTypeError::UnexpectedProtocol(String::from_str(source)))
    }
}

impl ReviewProtocolType {
    /// Parses a protocol name in any mix of upper and lower case.
    pub fn parse(it: &str) -> (r: Result<ReviewProtocolType, ProtocolTypeError>)
        ensures
            match protocol_of_lowercase(lowercase_of(it@)) {
                Some(p) => r == Ok::<ReviewProtocolType, ProtocolTypeError>(p),
                None => r matches Err(ProtocolTypeError::UnexpectedProtocol(e)) && e@ == it@,
            },
    {
        let lowered = to_lowercase(it);
        protocol_from_lowercase(&lowered, it)
    }
}

impl core::str::FromStr for ReviewProtocolType {
    type Err = ProtocolTypeError;

    fn from_str(it: &str) -> (r: Result<ReviewProtocolType, ProtocolTypeError>)
        ensures
            match protocol_of_lowercase(lowercase_of(it@)) {
                Some(p) => r == Ok::<ReviewProtocolType, ProtocolTypeError>(p),
                None => r matches Err(ProtocolTypeError::UnexpectedProtocol(e)) && e@ == it@,
            },
    {
        ReviewProtocolType::parse(it)
    }
}

impl core::convert::TryFrom<String> for ReviewProtocolType {
    type Error = ProtocolTypeError;

    fn try_from(it: String) -> (r: Result<ReviewProtocolType, ProtocolTypeError>) {
        let lowered = to_lowercase(it.as_str());
        match protocol_from_lowercase(&lowered, it.as_str()) {
            Ok(p) => Ok(p),
            Err(_) => Err(ProtocolTypeError::UnexpectedProtocol(it)),
        }
    }
}

impl vstd::std_specs::convert::TryFromSpecImpl<String> for ReviewProtocolType {
    open spec fn obeys_try_from_spec() -> bool {
        true
    }

    /// The protocol that the text names without regard to case; an unknown
    /// text is reported as it was given.
    open spec fn try_from_spec(it: String) -> Result<ReviewProtocolType, ProtocolTypeError> {
        match protocol_of_lowercase(lowercase_of(it@)) {
            Some(p) => Ok(p),
            None => Err(ProtocolTypeError::UnexpectedProtocol(it)),
        }
    }
}

} // verus!
