//! The error kinds of the wire protocol.
use vstd::prelude::*;
use vstd::string::*;

verus! {

#[derive(Debug, PartialEq, Eq, Structural)]
pub struct InvalidClientTokenId;

#[derive(Debug, PartialEq, Eq, Structural)]
pub struct SignatureDoesNotMatch;

#[derive(Debug, PartialEq, Eq, Structural)]
pub struct MissingAuthenticationToken;

#[derive(Debug, PartialEq, Eq, Structural)]
pub struct IncompleteSignature;

#[derive(Debug, PartialEq, Eq, Structural)]
pub struct InvalidRequestException;

#[derive(Debug, PartialEq, Eq, Structural)]
pub struct InvalidParameterException;

#[derive(Debug, PartialEq, Eq, Structural)]
pub struct ResourceNotFoundException;

#[derive(Debug, PartialEq, Eq, Structural)]
pub struct ResourceExistsException;

#[derive(Debug, PartialEq, Eq, Structural)]
pub struct NotImplemented;

#[derive(Debug, PartialEq, Eq, Structural)]
pub struct InternalServiceError;

/// Every error that a request can end in.
#[derive(Debug, PartialEq, Eq, Structural)]
pub enum AwsError {
    InvalidClientTokenId(InvalidClientTokenId),
    SignatureDoesNotMatch(SignatureDoesNotMatch),
    MissingAuthenticationToken(MissingAuthenticationToken),
    IncompleteSignature(IncompleteSignature),
    InvalidRequestException(InvalidRequestException),
    InvalidParameterException(InvalidParameterException),
    ResourceNotFoundException(ResourceNotFoundException),
    ResourceExistsException(ResourceExistsException),
    NotImplemented(NotImplemented),
    InternalServiceError(InternalServiceError),
}

pub open spec fn invalid_request() -> AwsError {
    AwsError::InvalidRequestException(InvalidRequestException)
}

pub open spec fn invalid_parameter() -> AwsError {
    AwsError::InvalidParameterException(InvalidParameterException)
}

pub open spec fn not_found() -> AwsError {
    AwsError::ResourceNotFoundException(ResourceNotFoundException)
}

pub open spec fn already_exists() -> AwsError {
    AwsError::ResourceExistsException(ResourceExistsException)
}

/// The wire name of each kind.
pub open spec fn kind_name(e: AwsError) -> Seq<char> {
    match e {
        AwsError::InvalidClientTokenId(_) => "InvalidClientTokenId"@,
        AwsError::SignatureDoesNotMatch(_) => "SignatureDoesNotMatch"@,
        AwsError::MissingAuthenticationToken(_) => "MissingAuthenticationToken"@,
        AwsError::IncompleteSignature(_) => "IncompleteSignature"@,
        AwsError::InvalidRequestException(_) => "InvalidRequestException"@,
        AwsError::InvalidParameterException(_) => "InvalidParameterException"@,
        AwsError::ResourceNotFoundException(_) => "ResourceNotFoundException"@,
        AwsError::ResourceExistsException(_) => "ResourceExistsException"@,
        AwsError::NotImplemented(_) => "NotImplemented"@,
        AwsError::InternalServiceError(_) => "InternalServiceError"@,
    }
}

/// The HTTP status of each kind: 403 for a rejected identity or signature,
/// 400 otherwise.
pub open spec fn kind_status(e: AwsError) -> u16 {
    match e {
        AwsError::InvalidClientTokenId(_) => 403,
        AwsError::SignatureDoesNotMatch(_) => 403,
        _ => 400,
    }
}

/// The message of each kind.
pub open spec fn kind_message(e: AwsError) -> Seq<char> {
    match e {
        AwsError::InvalidClientTokenId(_) => "The X.509 certificate or AWS access key ID provided does not exist in our records."@,
        AwsError::SignatureDoesNotMatch(_) => "The request signature we calculated does not match the signature you provided. Check your AWS Secret Access Key and signing method. Consult the service documentation for details."@,
        AwsError::MissingAuthenticationToken(_) => "Missing Authentication Token"@,
        AwsError::IncompleteSignature(_) => "The request signature does not conform to AWS standards."@,
        AwsError::InvalidRequestException(_) => "A parameter value is not valid for the current state of the resource."@,
        AwsError::InvalidParameterException(_) => "The parameter name or value is invalid."@,
        AwsError::ResourceNotFoundException(_) => "Secrets Manager can't find the resource that you asked for."@,
        AwsError::ResourceExistsException(_) => "A resource with the ID you requested already exists."@,
        AwsError::NotImplemented(_) => "This operation is not implemented in this server"@,
        AwsError::InternalServiceError(_) => "An error occurred on the server side."@,
    }
}

impl AwsError {
    /// The name that the `__type` field and the `x-amzn-errortype` header carry.
    pub fn error_type(&self) -> (r: String)
        ensures
            r@ == kind_name(*self),
    {
        match self {
            AwsError::InvalidClientTokenId(_) => String::from_str("InvalidClientTokenId"),
            AwsError::SignatureDoesNotMatch(_) => String::from_str("SignatureDoesNotMatch"),
            AwsError::MissingAuthenticationToken(_) => String::from_str(
                "MissingAuthenticationToken",
            ),
            AwsError::IncompleteSignature(_) => String::from_str("IncompleteSignature"),
            AwsError::InvalidRequestException(_) => String::from_str("InvalidRequestException"),
            AwsError::InvalidParameterException(_) => String::from_str("InvalidParameterException"),
            AwsError::ResourceNotFoundException(_) => String::from_str("ResourceNotFoundException"),
            AwsError::ResourceExistsException(_) => String::from_str("ResourceExistsException"),
            AwsError::NotImplemented(_) => String::from_str("NotImplemented"),
            AwsError::InternalServiceError(_) => String::from_str("InternalServiceError"),
        }
    }

    /// The HTTP status code of the error response.
    pub fn status_code(&self) -> (r: u16)
        ensures
            r == kind_status(*self),
    {
        match self {
            AwsError::InvalidClientTokenId(_) => 403,
            AwsError::SignatureDoesNotMatch(_) => 403,
            _ => 400,
        }
    }

    /// The human readable message of the error response.
    pub fn message(&self) -> (r: String)
        ensures
            r@ == kind_message(*self),
    {
        match self {
            AwsError::InvalidClientTokenId(_) => String::from_str(
                "The X.509 certificate or AWS access key ID provided does not exist in our records.",
            ),
            AwsError::SignatureDoesNotMatch(_) => String::from_str(
                "The request signature we calculated does not match the signature you provided. Check your AWS Secret Access Key and signing method. Consult the service documentation for details.",
            ),
            AwsError::MissingAuthenticationToken(_) => String::from_str(
                "Missing Authentication Token",
            ),
            AwsError::IncompleteSignature(_) => String::from_str(
                "The request signature does not conform to AWS standards.",
            ),
            AwsError::InvalidRequestException(_) => String::from_str(
                "A parameter value is not valid for the current state of the resource.",
            ),
            AwsError::InvalidParameterException(_) => String::from_str(
                "The parameter name or value is invalid.",
            ),
            AwsError::ResourceNotFoundException(_) => String::from_str(
                "Secrets Manager can't find the resource that you asked for.",
            ),
            AwsError::ResourceExistsException(_) => String::from_str(
                "A resource with the ID you requested already exists.",
            ),
            AwsError::NotImplemented(_) => String::from_str(
                "This operation is not implemented in this server",
            ),
            AwsError::InternalServiceError(_) => String::from_str(
                "An error occurred on the server side.",
            ),
        }
    }
}

} // verus!
