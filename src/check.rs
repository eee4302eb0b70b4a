use vstd::prelude::*;

use crate::wire::{be_u16_at, read_u16_be};

verus! {

/// The packet kind, carried big-endian in the first two bytes of every packet.
#[derive(Clone, Copy, Debug, PartialEq, Eq, Structural)]
pub enum TokenType {
    IndividualTokenRequest,
    IndividualTokenResponse,
    IndividualTokenValidation,
    IndividualTokenStatus,
    GroupTokenRequest,
    GroupTokenResponse,
    GroupTokenValidation,
    GroupTokenStatus,
    ErrorMessage,
}

impl TokenType {
    pub open spec fn spec_code(self) -> u16 {
        match self {
            TokenType::IndividualTokenRequest => 1,
            TokenType::IndividualTokenResponse => 2,
            TokenType::IndividualTokenValidation => 3,
            TokenType::IndividualTokenStatus => 4,
            TokenType::GroupTokenRequest => 5,
            TokenType::GroupTokenResponse => 6,
            TokenType::GroupTokenValidation => 7,
            TokenType::GroupTokenStatus => 8,
            TokenType::ErrorMessage => 256,
        }
    }

    pub fn code(&self) -> (r: u16)
        ensures
            r == self.spec_code(),
    {
        match self {
            TokenType::IndividualTokenRequest => 1,
            TokenType::IndividualTokenResponse => 2,
            TokenType::IndividualTokenValidation => 3,
            TokenType::IndividualTokenStatus => 4,
            TokenType::GroupTokenRequest => 5,
            TokenType::GroupTokenResponse => 6,
            TokenType::GroupTokenValidation => 7,
            TokenType::GroupTokenStatus => 8,
            TokenType::ErrorMessage => 256,
        }
    }
}

/// The code of an error packet, carried big-endian in bytes 2 and 3.
#[derive(Clone, Copy, Debug, PartialEq, Eq, Structural)]
pub enum ErrorMessage {
    InvalidMessageCode,
    IncorrectMessageLength,
    InvalidParameter,
    InvalidSingleToken,
    AsciiDecodeError,
}

pub open spec fn error_message_of(code: u16) -> Option<ErrorMessage> {
    if code == 1 {
        Some(ErrorMessage::InvalidMessageCode)
    } else if code == 2 {
        Some(ErrorMessage::IncorrectMessageLength)
    } else if code == 3 {
        Some(ErrorMessage::InvalidParameter)
    } else if code == 4 {
        Some(ErrorMessage::InvalidSingleToken)
    } else if code == 5 {
        Some(ErrorMessage::AsciiDecodeError)
    } else {
        None
    }
}

impl ErrorMessage {
    pub open spec fn spec_text(self) -> Seq<char> {
        match self {
            ErrorMessage::InvalidMessageCode => "Error: Invalid message code!"@,
            ErrorMessage::IncorrectMessageLength => "Error: Incorrect message length!"@,
            ErrorMessage::InvalidParameter => "Error: Invalid parameter!"@,
            ErrorMessage::InvalidSingleToken => "Error: Invalid single token!"@,
            ErrorMessage::AsciiDecodeError => "Error: ASCII decode error!"@,
        }
    }

    pub fn from_code(code: u16) -> (r: Option<ErrorMessage>)
        ensures
            r == error_message_of(code),
    {
        match code {
            1 => Some(ErrorMessage::InvalidMessageCode),
            2 => Some(ErrorMessage::IncorrectMessageLength),
            3 => Some(ErrorMessage::InvalidParameter),
            4 => Some(ErrorMessage::InvalidSingleToken),
            5 => Some(ErrorMessage::AsciiDecodeError),
            _ => None,
        }
    }

    /// The fixed text reported for this code.
    pub fn text(&self) -> (r: &'static str)
        ensures
            r@ == self.spec_text(),
    {
        match self {
            ErrorMessage::InvalidMessageCode => "Error: Invalid message code!",
            ErrorMessage::IncorrectMessageLength => "Error: Incorrect message length!",
            ErrorMessage::InvalidParameter => "Error: Invalid parameter!",
            ErrorMessage::InvalidSingleToken => "Error: Invalid single token!",
            ErrorMessage::AsciiDecodeError => "Error: ASCII decode error!",
        }
    }
}

/// Why an operation failed. None of these is retried but a failed transport, which the
/// retrying exchange turns into `TransportExhausted` once its attempts are spent.
#[derive(Clone, Copy, Debug, PartialEq, Eq, Structural)]
pub enum AuthError {
    /// Missing or malformed arguments, an unparseable number, or a count that disagrees
    /// with the entries given.
    InvalidArgument,
    /// The server answered with an error packet.
    Protocol(ErrorMessage),
    /// The packet kind is not the one the operation expects.
    UnexpectedTokenType,
    /// A text field holds bytes that are not ASCII.
    EncodingError,
    /// The packet is shorter than its layout requires.
    Truncated,
    /// Every attempt of the exchange failed at the transport.
    TransportExhausted,
}

/// The in-band error carried by a packet of kind `token_type` with code word `code`.
pub open spec fn in_band_error(token_type: u16, code: u16) -> Option<ErrorMessage> {
    if token_type == 256 {
        error_message_of(code)
    } else {
        None
    }
}

/// What checking the header of packet `b` against kind `expected` gives: an in-band error
/// first, whatever was expected; then the kind itself.
pub open spec fn check_spec(b: Seq<u8>, expected: TokenType) -> Result<(), AuthError> {
    if b.len() < 2 {
        Err(AuthError::Truncated)
    } else if be_u16_at(b, 0) == 256 && b.len() < 4 {
        Err(AuthError::Truncated)
    } else if be_u16_at(b, 0) == 256 && error_message_of(be_u16_at(b, 2)) is Some {
        Err(AuthError::Protocol(error_message_of(be_u16_at(b, 2))->0))
    } else if be_u16_at(b, 0) == expected.spec_code() {
        Ok(())
    } else {
        Err(AuthError::UnexpectedTokenType)
    }
}

/// The kind word, and the code word where the packet is long enough to hold one.
pub fn extract_token_info(buf: &[u8]) -> (r: (u16, Option<u16>))
    requires
        buf@.len() >= 2,
    ensures
        r.0 == be_u16_at(buf@, 0),
        buf@.len() >= 4 ==> r.1 == Some(be_u16_at(buf@, 2)),
        buf@.len() < 4 ==> r.1 is None,
{
    let token_type = read_u16_be(buf, 0);
    if buf.len() >= 4 {
        (token_type, Some(read_u16_be(buf, 2)))
    } else {
        (token_type, None)
    }
}

pub fn check_error_code(token_type: u16, code: u16) -> (r: Option<ErrorMessage>)
    ensures
        r == in_band_error(token_type, code),
{
    if token_type == 256 {
        ErrorMessage::from_code(code)
    } else {
        None
    }
}

/// Checks the header of a received packet against the kind the operation expects.
pub fn check_packet(buf: &[u8], expected: TokenType) -> (r: Result<(), AuthError>)
    ensures
        r == check_spec(buf@, expected),
{
    if buf.len() < 2 {
        return Err(AuthError::Truncated);
    }
    let (token_type, code) = extract_token_info(buf);
    if token_type == 256 {
        match code {
            None => {
                return Err(AuthError::Truncated);
            },
            Some(c) => {
                if let Some(m) = check_error_code(token_type, c) {
                    return Err(AuthError::Protocol(m));
                }
            },
        }
    }
    if token_type == expected.code() {
        Ok(())
    } else {
        Err(AuthError::UnexpectedTokenType)
    }
}

pub fn check_sas_request(buf: &[u8]) -> (r: Result<(), AuthError>)
    ensures
        r == check_spec(buf@, TokenType::IndividualTokenRequest),
{
    check_packet(buf, TokenType::IndividualTokenRequest)
}

pub fn check_sas_response(buf: &[u8]) -> (r: Result<(), AuthError>)
    ensures
        r == check_spec(buf@, TokenType::IndividualTokenResponse),
{
    check_packet(buf, TokenType::IndividualTokenResponse)
}

pub fn check_sas_status(buf: &[u8]) -> (r: Result<(), AuthError>)
    ensures
        r == check_spec(buf@, TokenType::IndividualTokenStatus),
{
    check_packet(buf, TokenType::IndividualTokenStatus)
}

pub fn check_sas_validation(buf: &[u8]) -> (r: Result<(), AuthError>)
    ensures
        r == check_spec(buf@, TokenType::IndividualTokenValidation),
{
    check_packet(buf, TokenType::IndividualTokenValidation)
}

pub fn check_gas_request(buf: &[u8]) -> (r: Result<(), AuthError>)
    ensures
        r == check_spec(buf@, TokenType::GroupTokenRequest),
{
    check_packet(buf, TokenType::GroupTokenRequest)
}

pub fn check_gas_response(buf: &[u8]) -> (r: Result<(), AuthError>)
    ensures
        r == check_spec(buf@, TokenType::GroupTokenResponse),
{
    check_packet(buf, TokenType::GroupTokenResponse)
}

pub fn check_gas_status(buf: &[u8]) -> (r: Result<(), AuthError>)
    ensures
        r == check_spec(buf@, TokenType::GroupTokenStatus),
{
    check_packet(buf, TokenType::GroupTokenStatus)
}

pub fn check_gas_validation(buf: &[u8]) -> (r: Result<(), AuthError>)
    ensures
        r == check_spec(buf@, TokenType::GroupTokenValidation),
{
    check_packet(buf, TokenType::GroupTokenValidation)
}

/// An error packet with a known code yields that protocol error, whatever kind of packet
/// the operation expected.
pub proof fn lemma_error_precedence(b: Seq<u8>, expected: TokenType)
    requires
        b.len() >= 4,
        be_u16_at(b, 0) == 256,
        error_message_of(be_u16_at(b, 2)) is Some,
    ensures
        check_spec(b, expected) == Err::<(), AuthError>(
            AuthError::Protocol(error_message_of(be_u16_at(b, 2))->0),
        ),
{
}

/// In particular, the bytes `01 00 00 03` open an invalid-parameter error for every expected
/// kind, whatever follows them.
pub proof fn lemma_invalid_parameter_precedence(b: Seq<u8>, expected: TokenType)
    requires
        b.len() >= 4,
        b[0] == 1,
        b[1] == 0,
        b[2] == 0,
        b[3] == 3,
    ensures
        check_spec(b, expected) == Err::<(), AuthError>(
            AuthError::Protocol(ErrorMessage::InvalidParameter),
        ),
{
}

/// A packet that is neither an error packet nor of the expected kind is refused as such,
/// never parsed.
pub proof fn lemma_type_mismatch(b: Seq<u8>, expected: TokenType)
    requires
        b.len() >= 2,
        be_u16_at(b, 0) != 256,
        be_u16_at(b, 0) != expected.spec_code(),
    ensures
        check_spec(b, expected) == Err::<(), AuthError>(AuthError::UnexpectedTokenType),
{
}

} // verus!
