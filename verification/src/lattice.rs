//! The invocation envelope and the addressing model of the lattice: entities
//! and their routable addresses, the bus subject for a player-tick request,
//! and the signed, hashed, uniquely-identified invocation record.

use vstd::prelude::*;
use vstd::utf8::{decode_utf8, encode_utf8, valid_utf8};
use crate::codec::string_from_utf8;

verus! {

broadcast use vstd::seq_lib::group_seq_properties;

/// The scheme with which every entity address begins.
pub const URL_SCHEME: &'static str = "wasmbus";

/// An addressable party in an invocation: a single decision-unit identity,
/// or a named capability provider bound under a link.
#[derive(Debug, Clone, PartialEq)]
pub enum Entity {
    Actor(String),
    Capability { id: String, contract_id: String, link_name: String },
}

/// Mathematical model of an [`Entity`]: its strings as UTF-8 byte sequences.
pub enum EntityModel {
    Actor(Seq<u8>),
    Capability { id: Seq<u8>, contract_id: Seq<u8>, link_name: Seq<u8> },
}

impl View for Entity {
    type V = EntityModel;

    open spec fn view(&self) -> EntityModel {
        match self {
            Entity::Actor(key) => EntityModel::Actor(encode_utf8(key@)),
            Entity::Capability { id, contract_id, link_name } => EntityModel::Capability {
                id: encode_utf8(id@),
                contract_id: encode_utf8(contract_id@),
                link_name: encode_utf8(link_name@),
            },
        }
    }
}

/// One byte of the normalization applied to capability path segments:
/// a colon becomes a slash (only where `colons` is set), a space becomes an
/// underscore, an ASCII capital letter becomes lower case, and every other
/// byte - including each byte of a multi-byte UTF-8 sequence - is unchanged.
pub open spec fn norm_byte(b: u8, colons: bool) -> u8 {
    if colons && b == 0x3a {
        0x2f
    } else if b == 0x20 {
        0x5f
    } else if 0x41 <= b && b <= 0x5a {
        (b + 0x20) as u8
    } else {
        b
    }
}

/// Byte-wise normalization of a path segment.
pub open spec fn normalize(bs: Seq<u8>, colons: bool) -> Seq<u8> {
    Seq::new(bs.len(), |i: int| norm_byte(bs[i], colons))
}

/// A sequence of ASCII bytes is valid UTF-8.
pub proof fn lemma_ascii_bytes_valid(bs: Seq<u8>)
    requires
        forall|i: int| 0 <= i < bs.len() ==> bs[i] < 0x80,
    ensures
        valid_utf8(bs),
    decreases bs.len(),
{
    if bs.len() > 0 {
        let b0 = bs[0];
        assert((b0 & 0x7f) <= 0x7f) by (bit_vector);
        assert(vstd::utf8::valid_first_scalar(bs));
        lemma_ascii_bytes_valid(bs.subrange(1, bs.len() as int));
        assert(vstd::utf8::pop_first_scalar(bs) =~= bs.subrange(1, bs.len() as int));
    }
}

/// Normalization sends valid UTF-8 to valid UTF-8: it rewrites only ASCII
/// bytes to other ASCII bytes and leaves multi-byte encodings untouched.
pub proof fn lemma_normalize_valid(bs: Seq<u8>, colons: bool)
    requires
        valid_utf8(bs),
    ensures
        valid_utf8(normalize(bs, colons)),
    decreases bs.len(),
{
    let nb = normalize(bs, colons);
    if bs.len() == 0 {
        assert(nb.len() == 0);
    } else {
        let b0 = bs[0];
        let len1 = vstd::utf8::length_of_first_scalar(bs);
        if vstd::utf8::is_leading_byte_width_1(b0) {
            let nb0 = nb[0];
            assert(nb0 < 0x80);
            assert((nb0 & 0x7f) <= 0x7f) by (bit_vector);
            assert(vstd::utf8::valid_first_scalar(nb));
            assert(vstd::utf8::length_of_first_scalar(nb) == 1);
        } else {
            assert(b0 >= 0x80);
            assert(nb[0] == b0);
            assert(forall|k: int|
                1 <= k < len1 ==> vstd::utf8::is_continuation_byte(bs[k]) && #[trigger] nb[k]
                    == bs[k]);
            assert(vstd::utf8::decode_first_codepoint(nb) == vstd::utf8::decode_first_codepoint(
                bs,
            ));
            assert(vstd::utf8::valid_first_scalar(nb));
            assert(vstd::utf8::length_of_first_scalar(nb) == len1);
        }
        assert(vstd::utf8::pop_first_scalar(nb) =~= normalize(
            vstd::utf8::pop_first_scalar(bs),
            colons,
        ));
        lemma_normalize_valid(vstd::utf8::pop_first_scalar(bs), colons);
    }
}

/// The UTF-8 bytes of the scheme prefix of every entity address.
pub open spec fn scheme_prefix() -> Seq<u8> {
    encode_utf8("wasmbus://"@)
}

/// The routable address of an entity, as the UTF-8 bytes of the address
/// string. An actor is `wasmbus://<key>`; a capability is
/// `wasmbus://<normalized contract_id>/<normalized link_name>/<id>`.
pub open spec fn entity_url_bytes(e: EntityModel) -> Seq<u8> {
    match e {
        EntityModel::Actor(key) => scheme_prefix() + key,
        EntityModel::Capability { id, contract_id, link_name } => scheme_prefix() + normalize(
            contract_id,
            true,
        ) + seq![0x2fu8] + normalize(link_name, false) + seq![0x2fu8] + id,
    }
}

/// An entity's address is a pure, deterministic function of its fields:
/// structurally equal entities always yield the identical address.
pub proof fn lemma_entity_url_deterministic(e1: EntityModel, e2: EntityModel)
    requires
        e1 == e2,
    ensures
        entity_url_bytes(e1) == entity_url_bytes(e2),
{
}

/// UTF-8 encoding is injective: two strings with the same encoding are the
/// same string.
pub proof fn lemma_encode_utf8_injective(a: Seq<char>, b: Seq<char>)
    requires
        encode_utf8(a) == encode_utf8(b),
    ensures
        a == b,
{
    vstd::utf8::encode_utf8_decode_utf8(a);
    vstd::utf8::encode_utf8_decode_utf8(b);
    assert(decode_utf8(encode_utf8(a)) == decode_utf8(encode_utf8(b)));
}

/// The normalized UTF-8 bytes of a path segment.
fn normalized_bytes(s: &str, colons: bool) -> (r: Vec<u8>)
    ensures
        r@ == normalize(encode_utf8(s@), colons),
{
    let b: Vec<u8> = s.as_bytes_vec();
    let n: usize = b.len();
    let mut out: Vec<u8> = Vec::new();
    let mut i: usize = 0;
    while i < n
        invariant
            i <= n,
            n == b@.len(),
            b@ == encode_utf8(s@),
            out@.len() == i,
            forall|k: int| 0 <= k < i ==> out@[k] == norm_byte(b@[k], colons),
        decreases n - i,
    {
        let x = b[i];
        let y: u8 = if colons && x == 0x3a {
            0x2f
        } else if x == 0x20 {
            0x5f
        } else if 0x41 <= x && x <= 0x5a {
            x + 0x20
        } else {
            x
        };
        out.push(y);
        i = i + 1;
    }
    proof {
        assert(out@ =~= normalize(encode_utf8(s@), colons));
    }
    out
}

impl Entity {
    /// The routable address of the entity. Used for hashing and claims
    /// generation, not for bus routing (see [`rpc_subject`]).
    pub fn url(&self) -> (r: String)
        ensures
            encode_utf8(r@) == entity_url_bytes(self@),
    {
        let mut b: Vec<u8> = "wasmbus://".as_bytes_vec();
        match self {
            Entity::Actor(key) => {
                let kb: Vec<u8> = key.as_str().as_bytes_vec();
                b.extend_from_slice(kb.as_slice());
                proof {
                    vstd::utf8::encode_utf8_valid_utf8("wasmbus://"@);
                    vstd::utf8::encode_utf8_valid_utf8(key@);
                    vstd::utf8::valid_utf8_concat(scheme_prefix(), encode_utf8(key@));
                    assert(b@ =~= entity_url_bytes(self@));
                }
            },
            Entity::Capability { id, contract_id, link_name } => {
                let cb: Vec<u8> = normalized_bytes(contract_id.as_str(), true);
                let lb: Vec<u8> = normalized_bytes(link_name.as_str(), false);
                let ib: Vec<u8> = id.as_str().as_bytes_vec();
                b.extend_from_slice(cb.as_slice());
                b.push(0x2f);
                b.extend_from_slice(lb.as_slice());
                b.push(0x2f);
                b.extend_from_slice(ib.as_slice());
                proof {
                    let p = scheme_prefix();
                    let c = normalize(encode_utf8(contract_id@), true);
                    let l = normalize(encode_utf8(link_name@), false);
                    let idb = encode_utf8(id@);
                    let sl = seq![0x2fu8];
                    vstd::utf8::encode_utf8_valid_utf8("wasmbus://"@);
                    vstd::utf8::encode_utf8_valid_utf8(contract_id@);
                    vstd::utf8::encode_utf8_valid_utf8(link_name@);
                    vstd::utf8::encode_utf8_valid_utf8(id@);
                    lemma_normalize_valid(encode_utf8(contract_id@), true);
                    lemma_normalize_valid(encode_utf8(link_name@), false);
                    lemma_ascii_bytes_valid(sl);
                    vstd::utf8::valid_utf8_concat(p, c);
                    vstd::utf8::valid_utf8_concat(p + c, sl);
                    vstd::utf8::valid_utf8_concat(p + c + sl, l);
                    vstd::utf8::valid_utf8_concat(p + c + sl + l, sl);
                    vstd::utf8::valid_utf8_concat(p + c + sl + l + sl, idb);
                    assert(b@ =~= p + c + sl + l + sl + idb);
                    assert(b@ =~= entity_url_bytes(self@));
                }
            },
        }
        match string_from_utf8(b) {
            Some(st) => st,
            None => {
                proof {
                    assert(false);
                }
                String::new()
            },
        }
    }
}

/// The bus subject on which a request for `actor` is published:
/// `wasmbus.rpc.<prefix or "default">.<actor>`.
pub open spec fn rpc_subject_chars(prefix: Option<Seq<char>>, actor: Seq<char>) -> Seq<char> {
    "wasmbus.rpc."@ + (match prefix {
        Some(p) => p,
        None => "default"@,
    }) + "."@ + actor
}

/// Build the bus subject string for `actor` under `prefix`.
pub fn rpc_subject(prefix: Option<String>, actor: &str) -> (r: String)
    ensures
        r@ == rpc_subject_chars(
            match prefix {
                Some(p) => Some(p@),
                None => None,
            },
            actor@,
        ),
{
    let mut s: String = String::from_str("wasmbus.rpc.");
    match &prefix {
        Some(p) => s.append(p.as_str()),
        None => s.append("default"),
    }
    s.append(".");
    s.append(actor);
    s
}

// ---------------------------------------------------------------------------
// Integrity digest
// ---------------------------------------------------------------------------
/// The SHA-256 digest of a byte sequence, named but not written out: it is a
/// pure function of the bytes alone, computed by an outside crate.
pub uninterp spec fn sha256_of(bytes: Seq<u8>) -> Seq<u8>;

/// Relies on ring's digest with the SHA-256 algorithm: the digest is a
/// function of the input bytes alone, and is 32 bytes long.
#[verifier::external_body]
fn sha256_digest(bytes: &[u8]) -> (r: Vec<u8>)
    ensures
        r@ == sha256_of(bytes@),
        r@.len() == 32,
{
    ring::digest::digest(&ring::digest::SHA256, bytes).as_ref().to_vec()
}

/// One hex digit, upper case, for a value below 16.
pub open spec fn hex_digit(v: u8) -> u8
    recommends
        v < 16,
{
    if v < 10 {
        (0x30 + v) as u8
    } else {
        (0x37 + v) as u8
    }
}

/// Upper-case hex encoding of a byte sequence: two digits per byte, high
/// nibble first.
pub open spec fn hex_upper_bytes(bs: Seq<u8>) -> Seq<u8>
    decreases bs.len(),
{
    if bs.len() == 0 {
        Seq::empty()
    } else {
        seq![hex_digit(bs[0] / 16), hex_digit(bs[0] % 16)] + hex_upper_bytes(bs.drop_first())
    }
}

/// Relies on data_encoding's HEXUPPER.encode: each input byte becomes two
/// upper-case hex digits (symbols `0123456789ABCDEF`), high nibble first.
#[verifier::external_body]
fn hex_upper_encode(bytes: &[u8]) -> (r: String)
    ensures
        encode_utf8(r@) == hex_upper_bytes(bytes@),
{
    data_encoding::HEXUPPER.encode(bytes)
}

/// The integrity digest of an invocation, over the origin address, the
/// target URL and the payload, as the UTF-8 bytes of its hex form.
pub open spec fn invocation_digest(origin_url: Seq<u8>, target_url: Seq<u8>, msg: Seq<u8>) -> Seq<
    u8,
> {
    hex_upper_bytes(sha256_of(origin_url + target_url + msg))
}

/// Compute the integrity digest carried inside an invocation's signed
/// claims: the hex form of the SHA-256 digest of origin address bytes, then
/// target URL bytes, then the payload.
pub fn invocation_hash(target_url: &str, origin_url: &str, msg: &[u8]) -> (r: String)
    ensures
        encode_utf8(r@) == invocation_digest(
            encode_utf8(origin_url@),
            encode_utf8(target_url@),
            msg@,
        ),
{
    let mut clean: Vec<u8> = origin_url.as_bytes_vec();
    clean.extend_from_slice(target_url.as_bytes());
    clean.extend_from_slice(msg);
    proof {
        assert(clean@ =~= encode_utf8(origin_url@) + encode_utf8(target_url@) + msg@);
    }
    let d: Vec<u8> = sha256_digest(clean.as_slice());
    hex_upper_encode(d.as_slice())
}

/// The integrity digest is a function of origin, target and payload alone:
/// recomputing it independently from equal inputs yields the identical
/// digest, so a receiving host can check the envelope bit for bit.
pub proof fn lemma_invocation_digest_deterministic(
    o1: Seq<u8>,
    t1: Seq<u8>,
    m1: Seq<u8>,
    o2: Seq<u8>,
    t2: Seq<u8>,
    m2: Seq<u8>,
)
    requires
        o1 == o2,
        t1 == t2,
        m1 == m2,
    ensures
        invocation_digest(o1, t1, m1) == invocation_digest(o2, t2, m2),
{
}

// ---------------------------------------------------------------------------
// The invocation envelope
// ---------------------------------------------------------------------------
/// An immutable invocation record: a signed, hashed, uniquely identified
/// request from one entity to another for a named operation.
#[derive(Debug, Clone, PartialEq)]
pub struct Invocation {
    pub origin: Entity,
    pub target: Entity,
    pub operation: String,
    pub msg: Vec<u8>,
    pub id: String,
    pub encoded_claims: String,
    pub host_id: String,
}

/// Mathematical model of an [`Invocation`]: strings as UTF-8 byte sequences.
pub struct InvocationModel {
    pub origin: EntityModel,
    pub target: EntityModel,
    pub operation: Seq<u8>,
    pub msg: Seq<u8>,
    pub id: Seq<u8>,
    pub encoded_claims: Seq<u8>,
    pub host_id: Seq<u8>,
}

impl View for Invocation {
    type V = InvocationModel;

    open spec fn view(&self) -> InvocationModel {
        InvocationModel {
            origin: self.origin@,
            target: self.target@,
            operation: encode_utf8(self.operation@),
            msg: self.msg@,
            id: encode_utf8(self.id@),
            encoded_claims: encode_utf8(self.encoded_claims@),
            host_id: encode_utf8(self.host_id@),
        }
    }
}

/// The reply to an invocation, correlated by the originating invocation's id.
#[derive(Debug, Clone, PartialEq)]
pub struct InvocationResponse {
    pub msg: Vec<u8>,
    pub error: Option<String>,
    pub invocation_id: String,
}

/// Mathematical model of an [`InvocationResponse`].
pub struct InvocationResponseModel {
    pub msg: Seq<u8>,
    pub error: Option<Seq<u8>>,
    pub invocation_id: Seq<u8>,
}

impl View for InvocationResponse {
    type V = InvocationResponseModel;

    open spec fn view(&self) -> InvocationResponseModel {
        InvocationResponseModel {
            msg: self.msg@,
            error: match &self.error {
                Some(e) => Some(encode_utf8(e@)),
                None => None,
            },
            invocation_id: encode_utf8(self.invocation_id@),
        }
    }
}

// ---------------------------------------------------------------------------
// Signing, identity and key material, through outside crates
// ---------------------------------------------------------------------------
/// nkeys' ed25519 key pair, as re-exported by wascap; opaque to the library.
#[verifier::external_type_specification]
#[verifier::external_body]
pub struct ExKeyPair(wascap::prelude::KeyPair);

/// Relies on nkeys' KeyPair::new_server: a freshly generated random server
/// key pair. Nothing can be promised of a random key.
#[verifier::external_body]
pub fn new_host_key() -> wascap::prelude::KeyPair {
    wascap::prelude::KeyPair::new_server()
}

/// Relies on nkeys' KeyPair::public_key: the printable public key of the
/// pair. Opaque to the library, which only carries it.
#[verifier::external_body]
fn keypair_public_key(kp: &wascap::prelude::KeyPair) -> String {
    kp.public_key()
}

/// Relies on wascap's Claims::<Invocation>::new and Claims::encode: builds
/// invocation claims binding issuer, subject, target URL, origin URL and the
/// integrity digest (plus an issue timestamp read from the clock), and signs
/// them with the given key. Returns the signed JWT string, or the signing
/// error's message. The claims value itself stays inside the wrapper because
/// wascap's claims type shares its name with this module's envelope.
#[verifier::external_body]
fn sign_invocation_claims(
    issuer: String,
    subject: String,
    target_url: &str,
    origin_url: &str,
    hash: &str,
    kp: &wascap::prelude::KeyPair,
) -> Result<String, String> {
    let claims = wascap::jwt::Claims::<wascap::jwt::Invocation>::new(
        issuer,
        subject,
        target_url,
        origin_url,
        hash,
    );
    match claims.encode(kp) {
        Ok(s) => Ok(s),
        Err(e) => Err(format!("{}", e)),
    }
}

/// Relies on uuid's Uuid::new_v4: a fresh random version-4 identifier with
/// 122 bits of entropy, printed in the 36-character hyphenated form.
#[verifier::external_body]
fn new_invocation_id() -> (r: String)
    ensures
        r@.len() == 36,
{
    format!("{}", uuid::Uuid::new_v4())
}

impl Invocation {
    /// Create a new invocation envelope. The envelope gets a fresh unique
    /// id, and its signed claims bind the issuer (the host public key), the
    /// id, the target URL `<target address>/<operation>`, the origin address
    /// and the integrity digest of (origin address, target URL, payload).
    /// Fails only if the outside signer refuses to encode the claims; the
    /// error is the signer's message.
    pub fn new(
        hostkey: &wascap::prelude::KeyPair,
        origin: Entity,
        target: Entity,
        op: &str,
        msg: Vec<u8>,
    ) -> (r: Result<Invocation, String>)
        ensures
            match r {
                Ok(inv) => inv.origin == origin && inv.target == target && inv.operation@ == op@
                    && inv.msg@ == msg@ && inv.id@.len() == 36,
                Err(_) => true,
            },
    {
        let subject: String = new_invocation_id();
        let issuer: String = keypair_public_key(hostkey);
        let mut target_url: String = target.url();
        target_url.append("/");
        target_url.append(op);
        let origin_url: String = origin.url();
        let hash: String = invocation_hash(target_url.as_str(), origin_url.as_str(), msg.as_slice());
        let signed = sign_invocation_claims(
            issuer.clone(),
            subject.clone(),
            target_url.as_str(),
            origin_url.as_str(),
            hash.as_str(),
            hostkey,
        );
        match signed {
            Ok(encoded) => Ok(
                Invocation {
                    origin,
                    target,
                    operation: String::from_str(op),
                    msg,
                    id: subject,
                    encoded_claims: encoded,
                    host_id: issuer,
                },
            ),
            Err(e) => Err(e),
        }
    }
}

/// Equal entity models name equal entities: the model (strings as their
/// UTF-8 bytes) loses nothing, so the codec round-trip law pins the decoded
/// entity itself, field for field.
pub proof fn lemma_entity_view_injective(a: Entity, b: Entity)
    requires
        a@ == b@,
    ensures
        match (a, b) {
            (Entity::Actor(k1), Entity::Actor(k2)) => k1@ == k2@,
            (
                Entity::Capability { id: i1, contract_id: c1, link_name: l1 },
                Entity::Capability { id: i2, contract_id: c2, link_name: l2 },
            ) => i1@ == i2@ && c1@ == c2@ && l1@ == l2@,
            _ => false,
        },
{
    match (a, b) {
        (Entity::Actor(k1), Entity::Actor(k2)) => {
            lemma_encode_utf8_injective(k1@, k2@);
        },
        (
            Entity::Capability { id: i1, contract_id: c1, link_name: l1 },
            Entity::Capability { id: i2, contract_id: c2, link_name: l2 },
        ) => {
            lemma_encode_utf8_injective(i1@, i2@);
            lemma_encode_utf8_injective(c1@, c2@);
            lemma_encode_utf8_injective(l1@, l2@);
        },
        _ => {
            assert(false);
        },
    }
}

/// Equal invocation models name equal envelopes, field for field.
pub proof fn lemma_invocation_view_injective(a: Invocation, b: Invocation)
    requires
        a@ == b@,
    ensures
        a.origin@ == b.origin@,
        a.target@ == b.target@,
        a.operation@ == b.operation@,
        a.msg@ == b.msg@,
        a.id@ == b.id@,
        a.encoded_claims@ == b.encoded_claims@,
        a.host_id@ == b.host_id@,
{
    lemma_encode_utf8_injective(a.operation@, b.operation@);
    lemma_encode_utf8_injective(a.id@, b.id@);
    lemma_encode_utf8_injective(a.encoded_claims@, b.encoded_claims@);
    lemma_encode_utf8_injective(a.host_id@, b.host_id@);
}

/// Equal response models name equal responses, field for field.
pub proof fn lemma_inv_response_view_injective(a: InvocationResponse, b: InvocationResponse)
    requires
        a@ == b@,
    ensures
        a.msg@ == b.msg@,
        a.invocation_id@ == b.invocation_id@,
        match (a.error, b.error) {
            (Some(e1), Some(e2)) => e1@ == e2@,
            (None, None) => true,
            _ => false,
        },
{
    lemma_encode_utf8_injective(a.invocation_id@, b.invocation_id@);
    match (a.error, b.error) {
        (Some(e1), Some(e2)) => {
            lemma_encode_utf8_injective(e1@, e2@);
        },
        (None, None) => {},
        _ => {
            assert(false);
        },
    }
}

} // verus!
