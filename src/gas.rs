use vstd::prelude::*;

use crate::check::{
    check_gas_response, check_gas_status, check_spec, error_message_of, AuthError, TokenType,
};
use crate::sas::{
    ascii_chars, ascii_string, lemma_decimal_ascii, entry_spec, lemma_entry_ascii, read_entry, read_raw_text,
    render_spec, string_views, raw_text_spec, SasEntry, SIZE_ID_LEN, SIZE_TOKEN_LEN,
};
use crate::wire::{
    be_u16_at, byte_views, fixed_field, is_ascii_bytes, parse_u32, parse_u32_spec, push_fixed_field,
    push_u16_be, push_u32_be, split_bytes, split_on, u16_be, u32_be,
};
use vstd::utf8::encode_utf8;

verus! {

/// The size of one subject entry: id, nonce and token.
pub const SAS_DATA_SIZE: usize = 80;

/// Type and count.
pub const PACK_HEAD_SIZE: usize = 4;

/// Where the status byte of a group status stands when no subject precedes it: after the
/// header and a 64-byte overall token. Each subject moves it by 80 bytes.
pub const STATUS_OFFSET: usize = 68;

/// The largest count the two-byte count field holds.
pub const MAX_GROUP_COUNT: usize = 0xffff;

/// `[id:12][nonce:4][token:64]`.
pub open spec fn entry_bytes(id: Seq<u8>, nonce: u32, token: Seq<u8>) -> Seq<u8> {
    fixed_field(id, 12) + u32_be(nonce) + fixed_field(token, 64)
}

/// The entry that the pieces `id`, `nonce`, `token` of one argument encode to: there must be
/// exactly three, the second a number.
pub open spec fn sas_entry_spec(parts: Seq<Seq<u8>>) -> Option<Seq<u8>> {
    if parts.len() != 3 {
        None
    } else {
        match parse_u32_spec(parts[1]) {
            None => None,
            Some(n) => Some(entry_bytes(parts[0], n, parts[2])),
        }
    }
}

/// The entries of all `items`, in order, or `None` where one of them is malformed.
pub open spec fn entries_spec(items: Seq<Seq<Seq<u8>>>) -> Option<Seq<u8>>
    decreases items.len(),
{
    if items.len() == 0 {
        Some(Seq::empty())
    } else {
        match entries_spec(items.drop_last()) {
            None => None,
            Some(head) => match sas_entry_spec(items.last()) {
                None => None,
                Some(e) => Some(head + e),
            },
        }
    }
}

/// `[type:2][count:2][entry]*count`.
pub open spec fn group_request_spec(items: Seq<Seq<Seq<u8>>>) -> Result<Seq<u8>, AuthError> {
    if items.len() > 0xffff {
        Err(AuthError::InvalidArgument)
    } else {
        match entries_spec(items) {
            None => Err(AuthError::InvalidArgument),
            Some(e) => Ok(u16_be(5) + u16_be(items.len() as u16) + e),
        }
    }
}

pub open spec fn item_views(v: Seq<Vec<Vec<u8>>>) -> Seq<Seq<Seq<u8>>> {
    v.map_values(|x: Vec<Vec<u8>>| byte_views(x@))
}

/// Splits one `id:nonce:token` argument at its colons.
pub fn make_sas_from_arg(arg: &[u8]) -> (r: Vec<Vec<u8>>)
    ensures
        byte_views(r@) == split_on(arg@, 58),
{
    split_bytes(arg, 58u8)
}

/// Appends the entry of one subject given as its pieces; leaves `buf` as it was when they
/// do not make one.
pub fn add_sas_to_buffer(buf: &mut Vec<u8>, sas: &Vec<Vec<u8>>) -> (r: Result<(), AuthError>)
    ensures
        sas_entry_spec(byte_views(sas@)) matches Some(e) ==> r is Ok && final(buf)@ == old(buf)@
            + e,
        sas_entry_spec(byte_views(sas@)) is None ==> r == Err::<(), AuthError>(
            AuthError::InvalidArgument,
        ) && final(buf)@ == old(buf)@,
{
    if sas.len() != 3 {
        return Err(AuthError::InvalidArgument);
    }
    assert(byte_views(sas@)[1] == sas@[1]@);
    let nonce = match parse_u32(sas[1].as_slice()) {
        Some(n) => n,
        None => {
            return Err(AuthError::InvalidArgument);
        },
    };
    push_fixed_field(buf, sas[0].as_slice(), SIZE_ID_LEN);
    push_u32_be(buf, nonce);
    push_fixed_field(buf, sas[2].as_slice(), SIZE_TOKEN_LEN);
    assert(byte_views(sas@)[0] == sas@[0]@);
    assert(byte_views(sas@)[2] == sas@[2]@);
    assert(final(buf)@ =~= old(buf)@ + entry_bytes(sas@[0]@, nonce, sas@[2]@));
    Ok(())
}

pub struct GASPackageRequest {
    raw: Vec<u8>,
}

impl View for GASPackageRequest {
    type V = Seq<u8>;

    closed spec fn view(&self) -> Seq<u8> {
        self.raw@
    }
}

impl GASPackageRequest {
    /// Encodes a group request, one entry for each subject given as its pieces.
    pub fn new(vec_sas: &Vec<Vec<Vec<u8>>>) -> (r: Result<Self, AuthError>)
        ensures
            r matches Ok(p) ==> group_request_spec(item_views(vec_sas@)) == Ok::<
                Seq<u8>,
                AuthError,
            >(p@),
            r matches Err(e) ==> group_request_spec(item_views(vec_sas@)) == Err::<
                Seq<u8>,
                AuthError,
            >(e),
    {
        if vec_sas.len() > MAX_GROUP_COUNT {
            return Err(AuthError::InvalidArgument);
        }
        let mut buffer: Vec<u8> = Vec::new();
        push_u16_be(&mut buffer, TokenType::GroupTokenRequest.code());
        push_u16_be(&mut buffer, vec_sas.len() as u16);
        let ghost head = buffer@;
        let mut i: usize = 0;
        assert(item_views(vec_sas@).take(0) =~= Seq::<Seq<Seq<u8>>>::empty());
        while i < vec_sas.len()
            invariant
                i <= vec_sas@.len(),
                entries_spec(item_views(vec_sas@).take(i as int)) matches Some(e) && buffer@
                    == head + e,
            decreases vec_sas@.len() - i,
        {
            let ghost items = item_views(vec_sas@);
            assert(items.take(i + 1).drop_last() =~= items.take(i as int));
            assert(items.take(i + 1).last() == byte_views(vec_sas@[i as int]@));
            let ghost before = buffer@;
            match add_sas_to_buffer(&mut buffer, &vec_sas[i]) {
                Ok(()) => {},
                Err(e) => {
                    proof {
                        lemma_entries_prefix_none(items, i + 1);
                    }
                    return Err(e);
                },
            }
            i = i + 1;
            assert(buffer@ =~= head + entries_spec(items.take(i as int))->Some_0);
        }
        assert(item_views(vec_sas@).take(i as int) =~= item_views(vec_sas@));
        Ok(GASPackageRequest { raw: buffer })
    }

    pub fn as_bytes(&self) -> (r: &Vec<u8>)
        ensures
            r@ == self@,
    {
        &self.raw
    }
}

/// Once a prefix of the items is malformed, so are all of them.
proof fn lemma_entries_prefix_none(items: Seq<Seq<Seq<u8>>>, k: int)
    requires
        0 <= k <= items.len(),
        entries_spec(items.take(k)) is None,
    ensures
        entries_spec(items) is None,
    decreases items.len(),
{
    if k < items.len() {
        assert(items.drop_last().take(k) =~= items.take(k));
        lemma_entries_prefix_none(items.drop_last(), k);
    } else {
        assert(items.take(k) =~= items);
    }
}

pub open spec fn split_all(pieces: Seq<Seq<u8>>) -> Seq<Seq<Seq<u8>>> {
    pieces.map_values(|p: Seq<u8>| split_on(p, 58))
}

/// `[type:2][count:2][entry]*count[overall token]`: every piece but the last is one subject
/// `id:nonce:token`, the last is the overall token, sent as it is.
pub open spec fn group_validation_spec(pieces: Seq<Seq<u8>>) -> Result<Seq<u8>, AuthError> {
    if pieces.len() == 0 || pieces.len() - 1 > 0xffff {
        Err(AuthError::InvalidArgument)
    } else {
        let n = pieces.len() - 1;
        match entries_spec(split_all(pieces.take(n))) {
            None => Err(AuthError::InvalidArgument),
            Some(e) => Ok(u16_be(7) + u16_be(n as u16) + e + pieces[n]),
        }
    }
}

pub struct GASPackageValidation {
    raw: Vec<u8>,
}

impl View for GASPackageValidation {
    type V = Seq<u8>;

    closed spec fn view(&self) -> Seq<u8> {
        self.raw@
    }
}

impl GASPackageValidation {
    /// Encodes a group validation from the pieces of its argument.
    pub fn new(vec_sas: &Vec<Vec<u8>>) -> (r: Result<Self, AuthError>)
        ensures
            r matches Ok(p) ==> group_validation_spec(byte_views(vec_sas@)) == Ok::<
                Seq<u8>,
                AuthError,
            >(p@),
            r matches Err(e) ==> group_validation_spec(byte_views(vec_sas@)) == Err::<
                Seq<u8>,
                AuthError,
            >(e),
    {
        if vec_sas.len() == 0 || vec_sas.len() - 1 > MAX_GROUP_COUNT {
            return Err(AuthError::InvalidArgument);
        }
        let n: usize = vec_sas.len() - 1;
        let ghost items = split_all(byte_views(vec_sas@).take(n as int));
        let mut buffer: Vec<u8> = Vec::new();
        push_u16_be(&mut buffer, TokenType::GroupTokenValidation.code());
        push_u16_be(&mut buffer, n as u16);
        let ghost head = buffer@;
        let mut i: usize = 0;
        assert(items.take(0) =~= Seq::<Seq<Seq<u8>>>::empty());
        while i < n
            invariant
                n == vec_sas@.len() - 1,
                i <= n,
                items == split_all(byte_views(vec_sas@).take(n as int)),
                entries_spec(items.take(i as int)) matches Some(e) && buffer@ == head + e,
            decreases n - i,
        {
            let sas = make_sas_from_arg(vec_sas[i].as_slice());
            assert(items.take(i + 1).drop_last() =~= items.take(i as int));
            assert(items.take(i + 1).last() == byte_views(sas@));
            match add_sas_to_buffer(&mut buffer, &sas) {
                Ok(()) => {},
                Err(e) => {
                    proof {
                        lemma_entries_prefix_none(items, i + 1);
                    }
                    return Err(e);
                },
            }
            i = i + 1;
            assert(buffer@ =~= head + entries_spec(items.take(i as int))->Some_0);
        }
        assert(items.take(i as int) =~= items);
        let ghost body = buffer@;
        buffer.extend_from_slice(vec_sas[n].as_slice());
        assert(buffer@ =~= body + byte_views(vec_sas@)[n as int]);
        Ok(GASPackageValidation { raw: buffer })
    }

    pub fn as_bytes(&self) -> (r: &Vec<u8>)
        ensures
            r@ == self@,
    {
        &self.raw
    }
}

pub open spec fn arg_bytes(args: Seq<Seq<char>>) -> Seq<Seq<u8>> {
    args.map_values(|a: Seq<char>| encode_utf8(a))
}

/// The request that `gtr <count> <id:nonce:token> ...` sends, with its count: exactly
/// `count` subjects must follow the count.
pub open spec fn group_request_args_spec(args: Seq<Seq<char>>) -> Result<
    (Seq<u8>, nat),
    AuthError,
> {
    if args.len() < 1 {
        Err(AuthError::InvalidArgument)
    } else {
        match parse_u32_spec(encode_utf8(args[0])) {
            None => Err(AuthError::InvalidArgument),
            Some(n) => if args.len() - 1 != n {
                Err(AuthError::InvalidArgument)
            } else {
                match group_request_spec(split_all(arg_bytes(args.drop_first()))) {
                    Err(e) => Err(e),
                    Ok(b) => Ok((b, n as nat)),
                }
            },
        }
    }
}

/// The validation that `gtv <id:nonce:token>+...+<overall token>` sends, with its count:
/// the first argument split at `+`.
pub open spec fn group_validation_args_spec(args: Seq<Seq<char>>) -> Result<
    (Seq<u8>, nat),
    AuthError,
> {
    if args.len() < 1 {
        Err(AuthError::InvalidArgument)
    } else {
        let pieces = split_on(encode_utf8(args[0]), 43);
        match group_validation_spec(pieces) {
            Err(e) => Err(e),
            Ok(b) => Ok((b, (pieces.len() - 1) as nat)),
        }
    }
}

/// Builds the packet of a group token request from its arguments, with the number of
/// subjects it holds.
pub fn request_package(args: &Vec<String>) -> (r: Result<(GASPackageRequest, usize), AuthError>)
    ensures
        r matches Ok((p, n)) ==> group_request_args_spec(string_views(args@)) == Ok::<
            (Seq<u8>, nat),
            AuthError,
        >((p@, n as nat)),
        r matches Err(e) ==> group_request_args_spec(string_views(args@)) == Err::<
            (Seq<u8>, nat),
            AuthError,
        >(e),
{
    if args.len() < 1 {
        return Err(AuthError::InvalidArgument);
    }
    let count = match parse_u32(args[0].as_str().as_bytes()) {
        Some(c) => c,
        None => {
            return Err(AuthError::InvalidArgument);
        },
    };
    let ghost rest = split_all(arg_bytes(string_views(args@).drop_first()));
    let mut vec_sas: Vec<Vec<Vec<u8>>> = Vec::new();
    let mut i: usize = 1;
    while i < args.len()
        invariant
            1 <= i <= args@.len(),
            rest == split_all(arg_bytes(string_views(args@).drop_first())),
            item_views(vec_sas@) == rest.take(i - 1),
        decreases args@.len() - i,
    {
        let sas = make_sas_from_arg(args[i].as_str().as_bytes());
        assert(string_views(args@).drop_first()[i - 1] == args@[i as int]@);
        assert(rest[i - 1] == split_on(encode_utf8(args@[i as int]@), 58));
        let ghost before = vec_sas@;
        vec_sas.push(sas);
        assert(vec_sas@ == before.push(sas));
        assert(item_views(vec_sas@) =~= item_views(before).push(byte_views(sas@)));
        assert(rest.take(i as int) =~= rest.take(i - 1).push(rest[i - 1]));
        i = i + 1;
        assert(item_views(vec_sas@) =~= rest.take(i - 1));
    }
    assert(rest.take(i - 1) =~= rest);
    if vec_sas.len() as u64 != count as u64 {
        return Err(AuthError::InvalidArgument);
    }
    let pack = GASPackageRequest::new(&vec_sas)?;
    Ok((pack, vec_sas.len()))
}

/// Builds the packet of a group token validation from its arguments, with the number of
/// subjects it holds.
pub fn validation_package(args: &Vec<String>) -> (r: Result<(GASPackageValidation, usize), AuthError>)
    ensures
        r matches Ok((p, n)) ==> group_validation_args_spec(string_views(args@)) == Ok::<
            (Seq<u8>, nat),
            AuthError,
        >((p@, n as nat)),
        r matches Err(e) ==> group_validation_args_spec(string_views(args@)) == Err::<
            (Seq<u8>, nat),
            AuthError,
        >(e),
{
    if args.len() < 1 {
        return Err(AuthError::InvalidArgument);
    }
    let pieces = split_bytes(args[0].as_str().as_bytes(), 43u8);
    let pack = GASPackageValidation::new(&pieces)?;
    Ok((pack, pieces.len() - 1))
}

/// How many bytes to receive for the response to a request for `n` subjects.
pub fn response_buffer_size(n: usize) -> (r: usize)
    requires
        n <= MAX_GROUP_COUNT,
    ensures
        r == 80 * n + 68,
{
    SAS_DATA_SIZE * n + STATUS_OFFSET
}

/// How many bytes to receive for the status of a validation of `n` subjects.
pub fn status_buffer_size(n: usize) -> (r: usize)
    requires
        n <= MAX_GROUP_COUNT,
    ensures
        r == 80 * n + 69,
{
    SAS_DATA_SIZE * n + STATUS_OFFSET + 1
}

/// The first `k` subject echoes of a group packet, 80 bytes each after the header.
pub open spec fn entries_decode(b: Seq<u8>, k: nat) -> Result<
    Seq<(Seq<u8>, u32, Seq<u8>)>,
    AuthError,
>
    decreases k,
{
    if k == 0 {
        Ok(Seq::empty())
    } else {
        match entries_decode(b, (k - 1) as nat) {
            Err(e) => Err(e),
            Ok(head) => {
                let at = 4 + 80 * (k - 1);
                match entry_spec(b, at, at + 80) {
                    Err(e) => Err(e),
                    Ok(x) => Ok(head.push(x)),
                }
            },
        }
    }
}

/// What decoding a group response for `n` subjects gives: their echoes, then the overall
/// token, which is the rest of the packet as received.
pub open spec fn group_response_spec(b: Seq<u8>, n: nat) -> Result<
    (Seq<(Seq<u8>, u32, Seq<u8>)>, Seq<u8>),
    AuthError,
> {
    match check_spec(b, TokenType::GroupTokenResponse) {
        Err(e) => Err(e),
        Ok(_) => if b.len() < 4 + 80 * n {
            Err(AuthError::Truncated)
        } else {
            match entries_decode(b, n) {
                Err(e) => Err(e),
                Ok(es) => match raw_text_spec(b, (4 + 80 * n) as int, b.len() as int) {
                    Err(e) => Err(e),
                    Ok(t) => Ok((es, t)),
                },
            }
        },
    }
}

/// What decoding a group status for `n` subjects gives: the byte after their echoes and the
/// 64-byte overall token.
pub open spec fn group_status_spec(b: Seq<u8>, n: nat) -> Result<u8, AuthError> {
    match check_spec(b, TokenType::GroupTokenStatus) {
        Err(e) => Err(e),
        Ok(_) => if b.len() <= 68 + 80 * n {
            Err(AuthError::Truncated)
        } else {
            Ok(b[(68 + 80 * n) as int])
        },
    }
}

pub open spec fn entries_ascii(v: Seq<SasEntry>) -> bool {
    forall|i: int|
        0 <= i < v.len() ==> is_ascii_bytes(#[trigger] v[i].id@) && is_ascii_bytes(v[i].token@)
}

pub open spec fn entry_views(v: Seq<SasEntry>) -> Seq<(Seq<u8>, u32, Seq<u8>)> {
    v.map_values(|e: SasEntry| e@)
}

/// The echoes as `id:nonce:token`, each followed by `+`.
pub open spec fn group_render_prefix(es: Seq<(Seq<u8>, u32, Seq<u8>)>) -> Seq<u8>
    decreases es.len(),
{
    if es.len() == 0 {
        Seq::empty()
    } else {
        group_render_prefix(es.drop_last()) + render_spec(es.last()) + seq![43u8]
    }
}

pub struct GASPackageResponse {
    raw: Vec<u8>,
    n_sas: usize,
    entries: Vec<SasEntry>,
    token: Vec<u8>,
}

impl GASPackageResponse {
    pub closed spec fn raw(&self) -> Seq<u8> {
        self.raw@
    }

    pub closed spec fn spec_entries(&self) -> Seq<(Seq<u8>, u32, Seq<u8>)> {
        entry_views(self.entries@)
    }

    pub closed spec fn spec_token(&self) -> Seq<u8> {
        self.token@
    }

    pub closed spec fn spec_n_sas(&self) -> nat {
        self.n_sas as nat
    }

    #[verifier::type_invariant]
    closed spec fn inv(&self) -> bool {
        entries_ascii(self.entries@) && is_ascii_bytes(self.token@)
    }

    /// Decodes a group response for the `n_sas` subjects that the request held.
    pub fn new(bytes: &[u8], n_sas: usize) -> (r: Result<Self, AuthError>)
        ensures
            r matches Ok(p) ==> group_response_spec(bytes@, n_sas as nat) == Ok::<
                (Seq<(Seq<u8>, u32, Seq<u8>)>, Seq<u8>),
                AuthError,
            >((p.spec_entries(), p.spec_token())) && p.raw() == bytes@ && p.spec_n_sas()
                == n_sas,
            r matches Err(e) ==> group_response_spec(bytes@, n_sas as nat) == Err::<
                (Seq<(Seq<u8>, u32, Seq<u8>)>, Seq<u8>),
                AuthError,
            >(e),
    {
        check_gas_response(bytes)?;
        let needed: u128 = PACK_HEAD_SIZE as u128 + SAS_DATA_SIZE as u128 * n_sas as u128;
        if (bytes.len() as u128) < needed {
            return Err(AuthError::Truncated);
        }
        let tail: usize = PACK_HEAD_SIZE + SAS_DATA_SIZE * n_sas;
        let mut entries: Vec<SasEntry> = Vec::new();
        let mut i: usize = 0;
        assert(entry_views(entries@) =~= Seq::<(Seq<u8>, u32, Seq<u8>)>::empty());
        while i < n_sas
            invariant
                i <= n_sas,
                tail == 4 + 80 * n_sas <= bytes@.len(),
                check_spec(bytes@, TokenType::GroupTokenResponse) is Ok,
                entries_decode(bytes@, i as nat) == Ok::<
                    Seq<(Seq<u8>, u32, Seq<u8>)>,
                    AuthError,
                >(entry_views(entries@)),
                entries_ascii(entries@),
            decreases n_sas - i,
        {
            let at: usize = PACK_HEAD_SIZE + SAS_DATA_SIZE * i;
            let e = match read_entry(bytes, at, at + SAS_DATA_SIZE) {
                Ok(e) => e,
                Err(err) => {
                    assert(entries_decode(bytes@, (i + 1) as nat) == Err::<
                        Seq<(Seq<u8>, u32, Seq<u8>)>,
                        AuthError,
                    >(err));
                    proof {
                        lemma_entries_decode_err(bytes@, (i + 1) as nat, n_sas as nat);
                    }
                    return Err(err);
                },
            };
            proof {
                lemma_entry_ascii(bytes@, at as int, at + 80);
            }
            assert(is_ascii_bytes(e.id@) && is_ascii_bytes(e.token@));
            let ghost before = entries@;
            entries.push(e);
            i = i + 1;
            assert(entry_views(entries@) =~= entry_views(before).push(e@));
            assert forall|j: int| 0 <= j < entries@.len() implies is_ascii_bytes(
                #[trigger] entries@[j].id@,
            ) && is_ascii_bytes(entries@[j].token@) by {
                if j < before.len() {
                    assert(entries@[j] == before[j]);
                }
            }
        }
        let token = read_raw_text(bytes, tail, bytes.len())?;
        let mut raw: Vec<u8> = Vec::new();
        raw.extend_from_slice(bytes);
        Ok(GASPackageResponse { raw, n_sas, entries, token })
    }

    pub fn n_sas(&self) -> (r: usize)
        ensures
            r == self.spec_n_sas(),
    {
        self.n_sas
    }

    pub fn entries(&self) -> (r: &Vec<SasEntry>)
        ensures
            entry_views(r@) == self.spec_entries(),
    {
        &self.entries
    }

    pub fn token(&self) -> (r: &Vec<u8>)
        ensures
            r@ == self.spec_token(),
    {
        &self.token
    }

    pub fn as_bytes(&self) -> (r: &Vec<u8>)
        ensures
            r@ == self.raw(),
    {
        &self.raw
    }

    /// The decoded response as `id:nonce:token+...+overall_token`.
    pub fn render(&self) -> (r: String)
        ensures
            r@ == ascii_chars(group_render_prefix(self.spec_entries()) + self.spec_token()),
    {
        proof {
            use_type_invariant(self);
        }
        let mut out: Vec<u8> = Vec::new();
        let mut i: usize = 0;
        while i < self.entries.len()
            invariant
                i <= self.entries@.len(),
                out@ == group_render_prefix(entry_views(self.entries@).take(i as int)),
                is_ascii_bytes(out@),
                entries_ascii(self.entries@),
            decreases self.entries@.len() - i,
        {
            let ghost es = entry_views(self.entries@);
            assert(es.take(i + 1).drop_last() =~= es.take(i as int));
            assert(es.take(i + 1).last() == self.entries@[i as int]@);
            proof {
                lemma_decimal_ascii(self.entries@[i as int].nonce as nat);
            }
            self.entries[i].render_into(&mut out);
            out.push(43u8);
            i = i + 1;
            assert(out@ =~= group_render_prefix(es.take(i as int)));
        }
        assert(entry_views(self.entries@).take(i as int) =~= entry_views(self.entries@));
        let ghost body = out@;
        out.extend_from_slice(self.token.as_slice());
        assert(out@ =~= body + self.token@);
        ascii_string(out)
    }
}

/// Once an echo fails to decode, so do all longer runs of echoes.
proof fn lemma_entries_decode_err(b: Seq<u8>, k: nat, n: nat)
    requires
        k <= n,
        entries_decode(b, k) is Err,
    ensures
        entries_decode(b, n) == entries_decode(b, k),
    decreases n - k,
{
    if k < n {
        lemma_entries_decode_err(b, k, (n - 1) as nat);
    }
}

pub struct GASPackageStatus {
    raw: Vec<u8>,
    n_sas: usize,
    status: u8,
}

impl GASPackageStatus {
    pub closed spec fn raw(&self) -> Seq<u8> {
        self.raw@
    }

    pub closed spec fn spec_status(&self) -> u8 {
        self.status
    }

    /// Decodes a group status for the `n_sas` subjects that the validation held.
    pub fn new(bytes: &[u8], n_sas: usize) -> (r: Result<Self, AuthError>)
        ensures
            r matches Ok(p) ==> group_status_spec(bytes@, n_sas as nat) == Ok::<u8, AuthError>(
                p.spec_status(),
            ) && p.raw() == bytes@ && p.spec_n_sas() == n_sas,
            r matches Err(e) ==> group_status_spec(bytes@, n_sas as nat) == Err::<u8, AuthError>(
                e,
            ),
    {
        check_gas_status(bytes)?;
        let needed: u128 = STATUS_OFFSET as u128 + SAS_DATA_SIZE as u128 * n_sas as u128;
        if (bytes.len() as u128) <= needed {
            return Err(AuthError::Truncated);
        }
        let at: usize = STATUS_OFFSET + SAS_DATA_SIZE * n_sas;
        let status = bytes[at];
        let mut raw: Vec<u8> = Vec::new();
        raw.extend_from_slice(bytes);
        Ok(GASPackageStatus { raw, n_sas, status })
    }

    pub fn status(&self) -> (r: u8)
        ensures
            r == self.spec_status(),
    {
        self.status
    }

    pub closed spec fn spec_n_sas(&self) -> nat {
        self.n_sas as nat
    }

    pub fn n_sas(&self) -> (r: usize)
        ensures
            r == self.spec_n_sas(),
    {
        self.n_sas
    }

    pub fn as_bytes(&self) -> (r: &Vec<u8>)
        ensures
            r@ == self.raw(),
    {
        &self.raw
    }
}

/// Each well-formed subject takes 80 bytes, so a group packet's size is fixed by its count.
pub proof fn lemma_entries_size(items: Seq<Seq<Seq<u8>>>)
    requires
        entries_spec(items) is Some,
    ensures
        entries_spec(items)->Some_0.len() == 80 * items.len(),
    decreases items.len(),
{
    if items.len() > 0 {
        lemma_entries_size(items.drop_last());
    }
}

/// A group request whose declared count differs from the number of subjects that follow it
/// is refused as an invalid argument, before any packet exists.
pub proof fn lemma_group_count_mismatch(args: Seq<Seq<char>>)
    requires
        args.len() >= 1,
        parse_u32_spec(encode_utf8(args[0])) is Some,
        args.len() - 1 != parse_u32_spec(encode_utf8(args[0]))->Some_0,
    ensures
        group_request_args_spec(args) == Err::<(Seq<u8>, nat), AuthError>(
            AuthError::InvalidArgument,
        ),
{
}

/// An error packet with a known code yields that protocol error from both group decoders,
/// whatever number of subjects they were told to expect.
pub proof fn lemma_group_error_precedence(b: Seq<u8>, n: nat)
    requires
        b.len() >= 4,
        be_u16_at(b, 0) == 256,
        error_message_of(be_u16_at(b, 2)) is Some,
    ensures
        group_response_spec(b, n) == Err::<(Seq<(Seq<u8>, u32, Seq<u8>)>, Seq<u8>), AuthError>(
            AuthError::Protocol(error_message_of(be_u16_at(b, 2))->0),
        ),
        group_status_spec(b, n) == Err::<u8, AuthError>(
            AuthError::Protocol(error_message_of(be_u16_at(b, 2))->0),
        ),
{
}

} // verus!
