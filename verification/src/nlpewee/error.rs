use vstd::prelude::*;

verus! {

/// Why a response of the service could not be read.
#[derive(Debug)]
pub enum DeserializationError {
    FieldMissing,
    FieldOutOfRange,
}

impl DeserializationError {
    /// The message of the error.
    pub fn message(&self) -> (r: &'static str)
        ensures
            r@ == match self {
                DeserializationError::FieldMissing =>
                    "error deserializing NLPewee response: missing field"@,
                DeserializationError::FieldOutOfRange =>
                    "error deserializing NLPewee response: field out of range"@,
            },
    {
        match self {
            DeserializationError::FieldMissing =>
                "error deserializing NLPewee response: missing field",
            DeserializationError::FieldOutOfRange =>
                "error deserializing NLPewee response: field out of range",
        }
    }
}

/// Why no connection to the service was made.
#[derive(Debug)]
pub enum ConnectionError {
    /// The address of the service is no address.
    InvalidUri,
    /// The transport failed, with its message.
    Tonic(String),
}

/// Why a request to the service gave nothing.
#[derive(Debug)]
pub enum RequestError {
    /// The service answered with an error status, with its message.
    Tonic(String),
    /// The answer of the service could not be read.
    Deserialization(DeserializationError),
}

impl From<DeserializationError> for RequestError {
    fn from(err: DeserializationError) -> (r: Self) {
        RequestError::Deserialization(err)
    }
}

impl vstd::std_specs::convert::FromSpecImpl<DeserializationError> for RequestError {
    open spec fn obeys_from_spec() -> bool {
        true
    }

    open spec fn from_spec(err: DeserializationError) -> RequestError {
        RequestError::Deserialization(err)
    }
}

impl ConnectionError {
    /// The message of the error.
    pub fn message(&self) -> (r: &str)
        ensures
            r@ == match self {
                ConnectionError::InvalidUri => "invalid URI"@,
                ConnectionError::Tonic(m) => m@,
            },
    {
        match self {
            ConnectionError::InvalidUri => "invalid URI",
            ConnectionError::Tonic(m) => m.as_str(),
        }
    }
}

impl RequestError {
    /// The message of the error.
    pub fn message(&self) -> (r: &str)
        ensures
            r@ == match self {
                RequestError::Tonic(m) => m@,
                RequestError::Deserialization(DeserializationError::FieldMissing) =>
                    "error deserializing NLPewee response: missing field"@,
                RequestError::Deserialization(DeserializationError::FieldOutOfRange) =>
                    "error deserializing NLPewee response: field out of range"@,
            },
    {
        match self {
            RequestError::Tonic(m) => m.as_str(),
            RequestError::Deserialization(err) => err.message(),
        }
    }
}

/// The field, or the error for a field that is missing.
pub fn required<T>(field: Option<T>) -> (r: Result<T, DeserializationError>)
    ensures
        match field {
            Some(value) => r == Ok::<T, DeserializationError>(value),
            None => r == Err::<T, DeserializationError>(DeserializationError::FieldMissing),
        },
{
    match field {
        Some(value) => Ok(value),
        None => Err(DeserializationError::FieldMissing),
    }
}

} // verus!
