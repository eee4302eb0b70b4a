use vstd::prelude::*;
use vstd::string::StringSliceAdditionalSpecFns;

use crate::check::{
    check_sas_response, check_sas_status, check_spec, error_message_of, AuthError, TokenType,
};
use crate::wire::{
    decimal_digits, fixed_field, is_ascii_bytes, parse_u32, parse_u32_spec, push_decimal,
    push_fixed_field, push_u16_be, push_u32_be, read_u32_be, trim_nul, trimmed_field, u16_be,
    u32_be, all_ascii, be_u32_at, be_u16_at, split_bytes, split_on, lemma_trim_nul_prefix,
    lemma_trim_fixed_field, lemma_u32_be_inverse, copy_range,
};
use vstd::utf8::encode_utf8;

verus! {

pub const SIZE_ID_LEN: usize = 12;

pub const SIZE_NONCE_LEN: usize = 4;

pub const SIZE_TOKEN_LEN: usize = 64;

pub const ID_OFFSET: usize = 2;

pub const NONCE_OFFSET: usize = 14;

pub const TOKEN_OFFSET: usize = 18;

pub const STATUS_OFFSET: usize = 82;

/// How many bytes to receive for an individual response.
pub const RESPONSE_BUFFER_SIZE: usize = 82;

/// How many bytes to receive for an individual status.
pub const STATUS_BUFFER_SIZE: usize = 100;

/// One subject as decoded from a packet: its id and token without their zero padding.
pub struct SasEntry {
    pub id: Vec<u8>,
    pub nonce: u32,
    pub token: Vec<u8>,
}

impl View for SasEntry {
    type V = (Seq<u8>, u32, Seq<u8>);

    open spec fn view(&self) -> (Seq<u8>, u32, Seq<u8>) {
        (self.id@, self.nonce, self.token@)
    }
}

/// The bytes of a text field from `start` to `end`, unpadded, provided they are ASCII.
pub open spec fn text_spec(b: Seq<u8>, start: int, end: int) -> Result<Seq<u8>, AuthError> {
    if is_ascii_bytes(b.subrange(start, end)) {
        Ok(trim_nul(b.subrange(start, end)))
    } else {
        Err(AuthError::EncodingError)
    }
}

/// The bytes from `start` to `end` exactly as received, provided they are ASCII.
pub open spec fn raw_text_spec(b: Seq<u8>, start: int, end: int) -> Result<Seq<u8>, AuthError> {
    if is_ascii_bytes(b.subrange(start, end)) {
        Ok(b.subrange(start, end))
    } else {
        Err(AuthError::EncodingError)
    }
}

/// The entry at `at`: a 12-byte id, a 4-byte nonce, then a token field that runs up to
/// `token_end`; both text fields are zero-padded.
pub open spec fn entry_spec(b: Seq<u8>, at: int, token_end: int) -> Result<
    (Seq<u8>, u32, Seq<u8>),
    AuthError,
> {
    match text_spec(b, at, at + 12) {
        Err(e) => Err(e),
        Ok(id) => match text_spec(b, at + 16, token_end) {
            Err(e) => Err(e),
            Ok(token) => Ok((id, be_u32_at(b, at + 12), token)),
        },
    }
}

pub proof fn lemma_text_ascii(b: Seq<u8>, start: int, end: int)
    requires
        0 <= start <= end <= b.len(),
        text_spec(b, start, end) is Ok,
    ensures
        is_ascii_bytes(text_spec(b, start, end)->Ok_0),
{
    let s = b.subrange(start, end);
    lemma_trim_nul_prefix(s);
    let t = trim_nul(s);
    assert forall|i: int| 0 <= i < t.len() implies t[i] < 128 by {
        assert(t[i] == s[i]);
    }
}

pub proof fn lemma_entry_ascii(b: Seq<u8>, at: int, token_end: int)
    requires
        0 <= at,
        at + 16 <= token_end <= b.len(),
        entry_spec(b, at, token_end) is Ok,
    ensures
        is_ascii_bytes(entry_spec(b, at, token_end)->Ok_0.0),
        is_ascii_bytes(entry_spec(b, at, token_end)->Ok_0.2),
{
    lemma_text_ascii(b, at, at + 12);
    lemma_text_ascii(b, at + 16, token_end);
}

/// `entry_id:nonce:token`, the nonce in decimal.
pub open spec fn render_spec(e: (Seq<u8>, u32, Seq<u8>)) -> Seq<u8> {
    e.0 + seq![58u8] + decimal_digits(e.1 as nat) + seq![58u8] + e.2
}

pub open spec fn ascii_chars(b: Seq<u8>) -> Seq<char> {
    b.map_values(|c: u8| c as char)
}

/// Relies on `String::from_utf8`: bytes below 128 are valid UTF-8, one character each.
#[verifier::external_body]
pub(crate) fn ascii_string(b: Vec<u8>) -> (r: String)
    requires
        is_ascii_bytes(b@),
    ensures
        r@ == ascii_chars(b@),
{
    String::from_utf8(b).unwrap()
}

pub fn read_text(b: &[u8], start: usize, end: usize) -> (r: Result<Vec<u8>, AuthError>)
    requires
        start <= end <= b@.len(),
    ensures
        r matches Ok(t) ==> text_spec(b@, start as int, end as int) == Ok::<Seq<u8>, AuthError>(t@),
        r matches Err(e) ==> text_spec(b@, start as int, end as int) == Err::<Seq<u8>, AuthError>(e),
{
    if all_ascii(b, start, end) {
        Ok(trimmed_field(b, start, end - start))
    } else {
        Err(AuthError::EncodingError)
    }
}

pub fn read_raw_text(b: &[u8], start: usize, end: usize) -> (r: Result<Vec<u8>, AuthError>)
    requires
        start <= end <= b@.len(),
    ensures
        r matches Ok(t) ==> raw_text_spec(b@, start as int, end as int) == Ok::<Seq<u8>, AuthError>(
            t@,
        ),
        r matches Err(e) ==> raw_text_spec(b@, start as int, end as int) == Err::<
            Seq<u8>,
            AuthError,
        >(e),
{
    if all_ascii(b, start, end) {
        Ok(copy_range(b, start, end))
    } else {
        Err(AuthError::EncodingError)
    }
}

pub fn read_entry(b: &[u8], at: usize, token_end: usize) -> (r: Result<SasEntry, AuthError>)
    requires
        at + 16 <= token_end <= b@.len(),
    ensures
        r matches Ok(e) ==> entry_spec(b@, at as int, token_end as int) == Ok::<
            (Seq<u8>, u32, Seq<u8>),
            AuthError,
        >(e@),
        r matches Err(e) ==> entry_spec(b@, at as int, token_end as int) == Err::<
            (Seq<u8>, u32, Seq<u8>),
            AuthError,
        >(e),
{
    let id = read_text(b, at, at + 12)?;
    let nonce = read_u32_be(b, at + 12);
    let token = read_text(b, at + 16, token_end)?;
    Ok(SasEntry { id, nonce, token })
}

impl SasEntry {
    /// Appends the entry as `id:nonce:token`.
    pub fn render_into(&self, out: &mut Vec<u8>)
        ensures
            final(out)@ == old(out)@ + render_spec(self@),
    {
        let mut i: usize = 0;
        while i < self.id.len()
            invariant
                i <= self.id@.len(),
                out@ == old(out)@ + self.id@.take(i as int),
            decreases self.id@.len() - i,
        {
            out.push(self.id[i]);
            i = i + 1;
            assert(out@ =~= old(out)@ + self.id@.take(i as int));
        }
        out.push(58u8);
        push_decimal(out, self.nonce);
        out.push(58u8);
        let mut j: usize = 0;
        let ghost head = out@;
        while j < self.token.len()
            invariant
                j <= self.token@.len(),
                out@ == head + self.token@.take(j as int),
            decreases self.token@.len() - j,
        {
            out.push(self.token[j]);
            j = j + 1;
            assert(out@ =~= head + self.token@.take(j as int));
        }
        assert(self.id@.take(i as int) =~= self.id@);
        assert(self.token@.take(j as int) =~= self.token@);
        assert(out@ =~= old(out)@ + render_spec(self@));
    }

    /// The entry as `id:nonce:token`.
    pub fn render(&self) -> (r: String)
        requires
            is_ascii_bytes(self.id@),
            is_ascii_bytes(self.token@),
        ensures
            r@ == ascii_chars(render_spec(self@)),
    {
        let mut out: Vec<u8> = Vec::new();
        self.render_into(&mut out);
        assert(out@ =~= render_spec(self@));
        proof {
            lemma_decimal_ascii(self.nonce as nat);
        }
        ascii_string(out)
    }
}

pub proof fn lemma_decimal_ascii(n: nat)
    ensures
        is_ascii_bytes(decimal_digits(n)),
    decreases n,
{
    if n >= 10 {
        lemma_decimal_ascii(n / 10);
    }
}

/// `[type:2][id:12][nonce:4]`.
pub open spec fn request_bytes(id: Seq<u8>, nonce: u32) -> Seq<u8> {
    u16_be(1) + fixed_field(id, 12) + u32_be(nonce)
}

/// `[type:2][id:12][nonce:4][token:64]`.
pub open spec fn validation_bytes(id: Seq<u8>, nonce: u32, token: Seq<u8>) -> Seq<u8> {
    u16_be(3) + fixed_field(id, 12) + u32_be(nonce) + fixed_field(token, 64)
}

/// What decoding an individual response gives: the id without its zero padding, the nonce,
/// and the token, which is the rest of the packet as received.
pub open spec fn response_spec(b: Seq<u8>) -> Result<(Seq<u8>, u32, Seq<u8>), AuthError> {
    match check_spec(b, TokenType::IndividualTokenResponse) {
        Err(e) => Err(e),
        Ok(_) => if b.len() < 18 {
            Err(AuthError::Truncated)
        } else {
            match text_spec(b, 2, 14) {
                Err(e) => Err(e),
                Ok(id) => match raw_text_spec(b, 18, b.len() as int) {
                    Err(e) => Err(e),
                    Ok(token) => Ok((id, be_u32_at(b, 14), token)),
                },
            }
        },
    }
}

/// What decoding an individual status gives: the byte after the 82-byte echo.
pub open spec fn status_spec(b: Seq<u8>) -> Result<u8, AuthError> {
    match check_spec(b, TokenType::IndividualTokenStatus) {
        Err(e) => Err(e),
        Ok(_) => if b.len() <= 82 {
            Err(AuthError::Truncated)
        } else {
            Ok(b[82])
        },
    }
}

pub struct SASPackageRequest {
    raw: Vec<u8>,
}

impl View for SASPackageRequest {
    type V = Seq<u8>;

    closed spec fn view(&self) -> Seq<u8> {
        self.raw@
    }
}

impl SASPackageRequest {
    /// Encodes a request for subject `id` with the nonce given in decimal.
    pub fn new(id: &str, nonce: &str) -> (r: Result<Self, AuthError>)
        ensures
            parse_u32_spec(nonce.spec_bytes()) is None ==> r == Err::<Self, AuthError>(
                AuthError::InvalidArgument,
            ),
            parse_u32_spec(nonce.spec_bytes()) matches Some(n) ==> r matches Ok(p) && p@
                == request_bytes(id.spec_bytes(), n),
    {
        Self::from_bytes(id.as_bytes(), nonce.as_bytes())
    }

    pub fn from_bytes(id: &[u8], nonce: &[u8]) -> (r: Result<Self, AuthError>)
        ensures
            parse_u32_spec(nonce@) is None ==> r == Err::<Self, AuthError>(
                AuthError::InvalidArgument,
            ),
            parse_u32_spec(nonce@) matches Some(n) ==> r matches Ok(p) && p@ == request_bytes(
                id@,
                n,
            ),
    {
        let n = match parse_u32(nonce) {
            Some(n) => n,
            None => {
                return Err(AuthError::InvalidArgument);
            },
        };
        let mut buffer: Vec<u8> = Vec::new();
        push_u16_be(&mut buffer, TokenType::IndividualTokenRequest.code());
        push_fixed_field(&mut buffer, id, SIZE_ID_LEN);
        push_u32_be(&mut buffer, n);
        assert(buffer@ =~= request_bytes(id@, n));
        Ok(SASPackageRequest { raw: buffer })
    }

    pub fn as_bytes(&self) -> (r: &Vec<u8>)
        ensures
            r@ == self@,
    {
        &self.raw
    }
}

pub struct SASPackageResponse {
    raw: Vec<u8>,
    entry: SasEntry,
}

impl SASPackageResponse {
    pub closed spec fn raw(&self) -> Seq<u8> {
        self.raw@
    }

    /// Decodes an individual response; the token is whatever follows the nonce.
    pub fn new(bytes: &[u8]) -> (r: Result<Self, AuthError>)
        ensures
            r matches Ok(p) ==> response_spec(bytes@) == Ok::<(Seq<u8>, u32, Seq<u8>), AuthError>(
                p.spec_entry(),
            ) && p.raw() == bytes@,
            r matches Err(e) ==> response_spec(bytes@) == Err::<(Seq<u8>, u32, Seq<u8>), AuthError>(
                e,
            ),
    {
        check_sas_response(bytes)?;
        if bytes.len() < TOKEN_OFFSET {
            return Err(AuthError::Truncated);
        }
        let id = read_text(bytes, ID_OFFSET, NONCE_OFFSET)?;
        let nonce = read_u32_be(bytes, NONCE_OFFSET);
        let token = read_raw_text(bytes, TOKEN_OFFSET, bytes.len())?;
        proof {
            lemma_text_ascii(bytes@, 2, 14);
        }
        let entry = SasEntry { id, nonce, token };
        let mut raw: Vec<u8> = Vec::new();
        raw.extend_from_slice(bytes);
        Ok(SASPackageResponse { raw, entry })
    }

    #[verifier::type_invariant]
    closed spec fn inv(&self) -> bool {
        is_ascii_bytes(self.entry.id@) && is_ascii_bytes(self.entry.token@)
    }

    /// The decoded response as `id:nonce:token`.
    pub fn render(&self) -> (r: String)
        ensures
            r@ == ascii_chars(render_spec(self.spec_entry())),
    {
        proof {
            use_type_invariant(self);
        }
        self.entry.render()
    }

    pub closed spec fn spec_entry(&self) -> (Seq<u8>, u32, Seq<u8>) {
        self.entry@
    }

    pub fn entry(&self) -> (r: &SasEntry)
        ensures
            r@ == self.spec_entry(),
    {
        &self.entry
    }

    pub fn as_bytes(&self) -> (r: &Vec<u8>)
        ensures
            r@ == self.raw(),
    {
        &self.raw
    }
}

pub struct SASPackageStatus {
    raw: Vec<u8>,
    status: u8,
}

impl SASPackageStatus {
    pub closed spec fn raw(&self) -> Seq<u8> {
        self.raw@
    }

    pub closed spec fn spec_status(&self) -> u8 {
        self.status
    }

    /// Decodes an individual status; the status byte follows the 82-byte echo of the
    /// validation.
    pub fn new(bytes: &[u8]) -> (r: Result<Self, AuthError>)
        ensures
            r matches Ok(p) ==> status_spec(bytes@) == Ok::<u8, AuthError>(p.spec_status())
                && p.raw() == bytes@,
            r matches Err(e) ==> status_spec(bytes@) == Err::<u8, AuthError>(e),
    {
        check_sas_status(bytes)?;
        if bytes.len() <= STATUS_OFFSET {
            return Err(AuthError::Truncated);
        }
        let status = bytes[STATUS_OFFSET];
        let mut raw: Vec<u8> = Vec::new();
        raw.extend_from_slice(bytes);
        Ok(SASPackageStatus { raw, status })
    }

    pub fn status(&self) -> (r: u8)
        ensures
            r == self.spec_status(),
    {
        self.status
    }

    pub fn as_bytes(&self) -> (r: &Vec<u8>)
        ensures
            r@ == self.raw(),
    {
        &self.raw
    }
}

pub struct SASPackageValidation {
    raw: Vec<u8>,
}

impl View for SASPackageValidation {
    type V = Seq<u8>;

    closed spec fn view(&self) -> Seq<u8> {
        self.raw@
    }
}

impl SASPackageValidation {
    /// Encodes a validation of `token` for subject `id` with the nonce given in decimal.
    pub fn new(id: &str, nonce: &str, token: &str) -> (r: Result<Self, AuthError>)
        ensures
            parse_u32_spec(nonce.spec_bytes()) is None ==> r == Err::<Self, AuthError>(
                AuthError::InvalidArgument,
            ),
            parse_u32_spec(nonce.spec_bytes()) matches Some(n) ==> r matches Ok(p) && p@
                == validation_bytes(id.spec_bytes(), n, token.spec_bytes()),
    {
        Self::from_bytes(id.as_bytes(), nonce.as_bytes(), token.as_bytes())
    }

    pub fn from_bytes(id: &[u8], nonce: &[u8], token: &[u8]) -> (r: Result<Self, AuthError>)
        ensures
            parse_u32_spec(nonce@) is None ==> r == Err::<Self, AuthError>(
                AuthError::InvalidArgument,
            ),
            parse_u32_spec(nonce@) matches Some(n) ==> r matches Ok(p) && p@ == validation_bytes(
                id@,
                n,
                token@,
            ),
    {
        let n = match parse_u32(nonce) {
            Some(n) => n,
            None => {
                return Err(AuthError::InvalidArgument);
            },
        };
        let mut buffer: Vec<u8> = Vec::new();
        push_u16_be(&mut buffer, TokenType::IndividualTokenValidation.code());
        push_fixed_field(&mut buffer, id, SIZE_ID_LEN);
        push_u32_be(&mut buffer, n);
        push_fixed_field(&mut buffer, token, SIZE_TOKEN_LEN);
        assert(buffer@ =~= validation_bytes(id@, n, token@));
        Ok(SASPackageValidation { raw: buffer })
    }

    pub fn as_bytes(&self) -> (r: &Vec<u8>)
        ensures
            r@ == self@,
    {
        &self.raw
    }
}

/// The request that `itr <id> <nonce>` sends: the first two arguments are the id and the
/// nonce, any further ones are ignored.
pub open spec fn request_args_spec(args: Seq<Seq<char>>) -> Result<Seq<u8>, AuthError> {
    if args.len() < 2 {
        Err(AuthError::InvalidArgument)
    } else {
        match parse_u32_spec(encode_utf8(args[1])) {
            None => Err(AuthError::InvalidArgument),
            Some(n) => Ok(request_bytes(encode_utf8(args[0]), n)),
        }
    }
}

/// The validation that `itv <id>:<nonce>:<token>` sends: the first argument split at `:`
/// must have at least three pieces, of which the first three are used.
pub open spec fn validation_args_spec(args: Seq<Seq<char>>) -> Result<Seq<u8>, AuthError> {
    if args.len() < 1 {
        Err(AuthError::InvalidArgument)
    } else {
        let parts = split_on(encode_utf8(args[0]), 58);
        if parts.len() < 3 {
            Err(AuthError::InvalidArgument)
        } else {
            match parse_u32_spec(parts[1]) {
                None => Err(AuthError::InvalidArgument),
                Some(n) => Ok(validation_bytes(parts[0], n, parts[2])),
            }
        }
    }
}

pub open spec fn string_views(args: Seq<String>) -> Seq<Seq<char>> {
    args.map_values(|a: String| a@)
}

/// Builds the request packet of an individual token request from its arguments.
pub fn request_package(args: &Vec<String>) -> (r: Result<SASPackageRequest, AuthError>)
    ensures
        r matches Ok(p) ==> request_args_spec(string_views(args@)) == Ok::<Seq<u8>, AuthError>(
            p@,
        ),
        r matches Err(e) ==> request_args_spec(string_views(args@)) == Err::<Seq<u8>, AuthError>(
            e,
        ),
{
    if args.len() < 2 {
        return Err(AuthError::InvalidArgument);
    }
    SASPackageRequest::new(args[0].as_str(), args[1].as_str())
}

/// Builds the validation packet of an individual token validation from its arguments.
pub fn validation_package(args: &Vec<String>) -> (r: Result<SASPackageValidation, AuthError>)
    ensures
        r matches Ok(p) ==> validation_args_spec(string_views(args@)) == Ok::<Seq<u8>, AuthError>(
            p@,
        ),
        r matches Err(e) ==> validation_args_spec(string_views(args@)) == Err::<
            Seq<u8>,
            AuthError,
        >(e),
{
    if args.len() < 1 {
        return Err(AuthError::InvalidArgument);
    }
    let parts = split_bytes(args[0].as_str().as_bytes(), 58u8);
    if parts.len() < 3 {
        return Err(AuthError::InvalidArgument);
    }
    SASPackageValidation::from_bytes(parts[0].as_slice(), parts[1].as_slice(), parts[2].as_slice())
}

/// Encoding an individual request and decoding its fields again gives back the id, up to its
/// zero padding, and the nonce; the header passes as a request.
pub proof fn lemma_request_round_trip(id: Seq<u8>, nonce: u32)
    requires
        id.len() <= 12,
        is_ascii_bytes(id),
    ensures
        check_spec(request_bytes(id, nonce), TokenType::IndividualTokenRequest) == Ok::<
            (),
            AuthError,
        >(()),
        text_spec(request_bytes(id, nonce), 2, 14) == Ok::<Seq<u8>, AuthError>(trim_nul(id)),
        be_u32_at(request_bytes(id, nonce), 14) == nonce,
{
    let b = request_bytes(id, nonce);
    let f = fixed_field(id, 12);
    assert(b.subrange(2, 14) =~= f);
    assert(b.subrange(14, 18) =~= u32_be(nonce));
    lemma_trim_fixed_field(id, 12);
    lemma_u32_be_inverse(nonce);
    assert(be_u32_at(b, 14) == be_u32_at(u32_be(nonce), 0));
}

/// Encoding an individual validation and decoding its 82 bytes as an entry gives back the id
/// and the token, up to their zero padding, and the nonce; the header passes as a validation.
pub proof fn lemma_validation_round_trip(id: Seq<u8>, nonce: u32, token: Seq<u8>)
    requires
        id.len() <= 12,
        token.len() <= 64,
        is_ascii_bytes(id),
        is_ascii_bytes(token),
    ensures
        check_spec(validation_bytes(id, nonce, token), TokenType::IndividualTokenValidation)
            == Ok::<(), AuthError>(()),
        entry_spec(validation_bytes(id, nonce, token), 2, 82) == Ok::<
            (Seq<u8>, u32, Seq<u8>),
            AuthError,
        >((trim_nul(id), nonce, trim_nul(token))),
{
    let b = validation_bytes(id, nonce, token);
    assert(b.subrange(2, 14) =~= fixed_field(id, 12));
    assert(b.subrange(14, 18) =~= u32_be(nonce));
    assert(b.subrange(18, 82) =~= fixed_field(token, 64));
    lemma_trim_fixed_field(id, 12);
    lemma_trim_fixed_field(token, 64);
    lemma_u32_be_inverse(nonce);
    assert(be_u32_at(b, 14) == be_u32_at(u32_be(nonce), 0));
}

/// An error packet with a known code yields that protocol error from both individual
/// decoders.
pub proof fn lemma_individual_error_precedence(b: Seq<u8>)
    requires
        b.len() >= 4,
        be_u16_at(b, 0) == 256,
        error_message_of(be_u16_at(b, 2)) is Some,
    ensures
        response_spec(b) == Err::<(Seq<u8>, u32, Seq<u8>), AuthError>(
            AuthError::Protocol(error_message_of(be_u16_at(b, 2))->0),
        ),
        status_spec(b) == Err::<u8, AuthError>(
            AuthError::Protocol(error_message_of(be_u16_at(b, 2))->0),
        ),
{
}

/// A reply to an individual request that is neither a response nor an error packet is
/// refused as unexpected, never read as a response.
pub proof fn lemma_response_type_mismatch(b: Seq<u8>)
    requires
        b.len() >= 2,
        be_u16_at(b, 0) != 2,
        be_u16_at(b, 0) != 256,
    ensures
        response_spec(b) == Err::<(Seq<u8>, u32, Seq<u8>), AuthError>(
            AuthError::UnexpectedTokenType,
        ),
{
}

/// An id longer than its field is sent as its first 12 bytes, a token longer than its field
/// as its first 64 bytes.
pub proof fn lemma_truncation(id: Seq<u8>, nonce: u32, token: Seq<u8>)
    ensures
        id.len() >= 12 ==> request_bytes(id, nonce).subrange(2, 14) == id.take(12),
        id.len() >= 12 ==> validation_bytes(id, nonce, token).subrange(2, 14) == id.take(12),
        token.len() >= 64 ==> validation_bytes(id, nonce, token).subrange(18, 82) == token.take(
            64,
        ),
        request_bytes(id, nonce).len() == 18,
        validation_bytes(id, nonce, token).len() == 82,
{
    assert(request_bytes(id, nonce).subrange(2, 14) =~= fixed_field(id, 12));
    assert(validation_bytes(id, nonce, token).subrange(2, 14) =~= fixed_field(id, 12));
    assert(validation_bytes(id, nonce, token).subrange(18, 82) =~= fixed_field(token, 64));
}

} // verus!
