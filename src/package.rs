use vstd::prelude::*;
use vstd::utf8::encode_utf8;

pub use crate::check::TokenType;
use crate::check::{check_sas_response, AuthError};
use crate::sas::{
    read_raw_text, read_text, request_bytes, response_spec, ID_OFFSET, NONCE_OFFSET, SIZE_ID_LEN,
    TOKEN_OFFSET,
};
use crate::wire::{
    fixed_field, lemma_be_u32_inverse, lemma_pad_trimmed, parse_u32, parse_u32_spec,
    push_fixed_field, push_u16_be, push_u32_be, read_u32_be, u16_be, u32_be,
};

verus! {

/// The body of an individual request: the id field and the nonce field.
pub struct ITReq {
    id: Vec<u8>,
    nonce: Vec<u8>,
}

impl ITReq {
    pub closed spec fn spec_bytes(&self) -> Seq<u8> {
        self.id@ + self.nonce@
    }

    pub fn new(id: Vec<u8>, nonce: Vec<u8>) -> (r: Self)
        ensures
            r.spec_bytes() == id@ + nonce@,
    {
        ITReq { id, nonce }
    }

    pub fn get_bytes(&self) -> (r: Vec<u8>)
        ensures
            r@ == self.spec_bytes(),
    {
        let mut buffer: Vec<u8> = Vec::new();
        buffer.extend_from_slice(self.id.as_slice());
        buffer.extend_from_slice(self.nonce.as_slice());
        buffer
    }
}

/// The body of an individual response: the id without its zero padding, the nonce and the
/// token.
pub struct ITRes {
    id: Vec<u8>,
    nonce: u32,
    token: Vec<u8>,
}

impl ITRes {
    pub closed spec fn spec_id(&self) -> Seq<u8> {
        self.id@
    }

    pub closed spec fn spec_nonce(&self) -> u32 {
        self.nonce
    }

    pub closed spec fn spec_token(&self) -> Seq<u8> {
        self.token@
    }

    pub open spec fn spec_bytes(&self) -> Seq<u8> {
        fixed_field(self.spec_id(), 12) + u32_be(self.spec_nonce()) + self.spec_token()
    }

    pub fn new(id: Vec<u8>, nonce: u32, token: Vec<u8>) -> (r: Self)
        ensures
            r.spec_id() == id@,
            r.spec_nonce() == nonce,
            r.spec_token() == token@,
    {
        ITRes { id, nonce, token }
    }

    pub fn get_bytes(&self) -> (r: Vec<u8>)
        ensures
            r@ == self.spec_bytes(),
    {
        let mut buffer: Vec<u8> = Vec::new();
        push_fixed_field(&mut buffer, self.id.as_slice(), SIZE_ID_LEN);
        push_u32_be(&mut buffer, self.nonce);
        buffer.extend_from_slice(self.token.as_slice());
        buffer
    }
}

/// What a packet carries after its kind.
pub enum Information {
    Request(ITReq),
    Response(ITRes),
}

impl Information {
    pub open spec fn spec_bytes(&self) -> Seq<u8> {
        match self {
            Information::Request(q) => q.spec_bytes(),
            Information::Response(s) => s.spec_bytes(),
        }
    }

    /// The fields of a response body.
    pub open spec fn response_fields(&self) -> (Seq<u8>, u32, Seq<u8>)
        recommends
            self is Response,
    {
        match self {
            Information::Response(s) => (s.spec_id(), s.spec_nonce(), s.spec_token()),
            Information::Request(_) => (Seq::empty(), 0, Seq::empty()),
        }
    }

    pub fn get_bytes(&self) -> (r: Vec<u8>)
        ensures
            r@ == self.spec_bytes(),
    {
        match self {
            Information::Request(q) => q.get_bytes(),
            Information::Response(s) => s.get_bytes(),
        }
    }
}

/// A packet: its kind and its body.
pub struct Package {
    token_type: u16,
    information: Information,
}

impl Package {
    pub closed spec fn spec_token_type(&self) -> u16 {
        self.token_type
    }

    pub closed spec fn spec_information(&self) -> &Information {
        &self.information
    }

    pub open spec fn spec_bytes(&self) -> Seq<u8> {
        u16_be(self.spec_token_type()) + self.spec_information().spec_bytes()
    }

    pub fn to_bytes(&self) -> (r: Vec<u8>)
        ensures
            r@ == self.spec_bytes(),
    {
        let mut buffer: Vec<u8> = Vec::new();
        push_u16_be(&mut buffer, self.token_type);
        let body = self.information.get_bytes();
        buffer.extend_from_slice(body.as_slice());
        buffer
    }

    /// An individual request for subject `id` with the nonce given in decimal.
    pub fn new_request_itr(id: &String, nonce: &String) -> (r: Result<Self, AuthError>)
        ensures
            parse_u32_spec(encode_utf8(nonce@)) is None ==> r == Err::<Self, AuthError>(
                AuthError::InvalidArgument,
            ),
            parse_u32_spec(encode_utf8(nonce@)) matches Some(n) ==> r matches Ok(p)
                && p.spec_bytes() == request_bytes(encode_utf8(id@), n),
    {
        let n = match parse_u32(nonce.as_str().as_bytes()) {
            Some(n) => n,
            None => {
                return Err(AuthError::InvalidArgument);
            },
        };
        let mut id_bytes: Vec<u8> = Vec::new();
        push_fixed_field(&mut id_bytes, id.as_str().as_bytes(), SIZE_ID_LEN);
        let mut nonce_bytes: Vec<u8> = Vec::new();
        push_u32_be(&mut nonce_bytes, n);
        assert(id_bytes@ =~= fixed_field(encode_utf8(id@), 12));
        assert(nonce_bytes@ =~= u32_be(n));
        let p = Package {
            token_type: TokenType::IndividualTokenRequest.code(),
            information: Information::Request(ITReq::new(id_bytes, nonce_bytes)),
        };
        assert(p.spec_bytes() =~= request_bytes(encode_utf8(id@), n));
        Ok(p)
    }

    /// Reads an individual response: the id without its zero padding, the nonce, and the
    /// rest of the packet as the token.
    pub fn new_response_itr(bytes: &[u8]) -> (r: Result<Self, AuthError>)
        ensures
            r matches Ok(p) ==> p.spec_token_type() == 2 && p.spec_information() is Response
                && response_spec(bytes@) == Ok::<(Seq<u8>, u32, Seq<u8>), AuthError>(
                p.spec_information().response_fields(),
            ),
            r matches Err(e) ==> response_spec(bytes@) == Err::<
                (Seq<u8>, u32, Seq<u8>),
                AuthError,
            >(e),
    {
        check_sas_response(bytes)?;
        if bytes.len() < TOKEN_OFFSET {
            return Err(AuthError::Truncated);
        }
        let id = read_text(bytes, ID_OFFSET, NONCE_OFFSET)?;
        let nonce = read_u32_be(bytes, NONCE_OFFSET);
        let token = read_raw_text(bytes, TOKEN_OFFSET, bytes.len())?;
        Ok(
            Package {
                token_type: TokenType::IndividualTokenResponse.code(),
                information: Information::Response(ITRes::new(id, nonce, token)),
            },
        )
    }
}

/// Reading a response and writing it out again gives back the bytes received.
pub proof fn lemma_response_reencodes(b: Seq<u8>)
    requires
        response_spec(b) is Ok,
    ensures
        u16_be(2) + fixed_field(response_spec(b)->Ok_0.0, 12) + u32_be(response_spec(b)->Ok_0.1)
            + response_spec(b)->Ok_0.2 == b,
{
    lemma_be_u32_inverse(b, 14);
    lemma_pad_trimmed(b.subrange(2, 14));
    assert(u16_be(2) + b.subrange(2, 14) + b.subrange(14, 18) + b.subrange(18, b.len() as int)
        =~= b);
}

} // verus!
