//! The node's Ed25519 identity: decoding it from hex, encoding it for the key file, and
//! choosing among configured, stored and freshly generated keys.
use crate::config::P2PConfig;
use crate::encoding::{
    decode_hex, encode_hex, hex_decoded, hex_encoded, is_hex_text, is_lower_hex_text,
    lemma_encoded_decodes, lemma_hex_round_trip,
};
use crate::error::P2PError;
use crate::text::{append_decimal, decimal};
use libp2p_identity::Keypair;
use vstd::prelude::*;

verus! {

/// An identity keypair of the networking stack. Opaque here: it is carried to the
/// transport, which signs and authenticates with it.
#[verifier::external_type_specification]
#[verifier::external_body]
pub struct ExKeypair(Keypair);

/// Whether 64 bytes, a secret scalar followed by a public point, form an Ed25519 keypair
/// whose public half is the one the secret derives.
pub uninterp spec fn ed25519_accepts(bytes: Seq<u8>) -> bool;

/// The text form of the peer identifier of the keypair encoded by 64 bytes: derived from
/// its public half alone.
pub uninterp spec fn peer_id_of(bytes: Seq<u8>) -> Seq<char>;

/// What `str::trim` leaves of a text: the text without leading and trailing whitespace.
pub uninterp spec fn trimmed(s: Seq<char>) -> Seq<char>;

/// Relies on libp2p_identity::ed25519::Keypair::try_from_bytes, then `From` into
/// `Keypair`: 64 bytes, secret then public, accepted exactly when `ed25519_accepts`;
/// any other length is refused.
#[verifier::external_body]
fn ed25519_keypair_from_bytes(bytes: Vec<u8>) -> (r: core::result::Result<Keypair, String>)
    ensures
        r.is_ok() == ed25519_accepts(bytes@),
        bytes@.len() != 64 ==> r.is_err(),
{
    let mut bytes = bytes;
    libp2p_identity::ed25519::Keypair::try_from_bytes(&mut bytes).map(Keypair::from).map_err(
        |e| e.to_string(),
    )
}

/// Relies on libp2p_identity::ed25519::Keypair::generate and `to_bytes`: a fresh random
/// keypair, and its 64-byte encoding, whose public half is the one its secret derives.
#[verifier::external_body]
fn generate_ed25519() -> (r: (Keypair, Vec<u8>))
    ensures
        r.1@.len() == 64,
        ed25519_accepts(r.1@),
{
    let pair = libp2p_identity::ed25519::Keypair::generate();
    let bytes = pair.to_bytes().to_vec();
    (Keypair::from(pair), bytes)
}

/// Relies on libp2p_identity::ed25519::Keypair::try_from_bytes and
/// PublicKey::to_peer_id: the text of the identifier of the keypair that 64 bytes
/// encode, present exactly when the bytes are accepted.
#[verifier::external_body]
fn peer_id_of_encoding(bytes: &Vec<u8>) -> (r: Option<String>)
    ensures
        r is Some == ed25519_accepts(bytes@),
        r matches Some(t) ==> t@ == peer_id_of(bytes@),
{
    let mut copy = bytes.clone();
    libp2p_identity::ed25519::Keypair::try_from_bytes(&mut copy).ok().map(
        |pair| libp2p_identity::PublicKey::from(pair.public()).to_peer_id().to_string(),
    )
}

/// Relies on str::trim: the text without surrounding whitespace; hex text has none.
#[verifier::external_body]
fn trim(s: &str) -> (r: String)
    ensures
        r@ == trimmed(s@),
        is_hex_text(s@) ==> r@ == s@,
{
    s.trim().to_string()
}

/// The node's keypair together with its 64-byte encoding and its identifier.
pub struct NodeKey {
    keypair: Keypair,
    encoded: Vec<u8>,
    peer_id: String,
}

impl NodeKey {
    /// The encoding is 64 accepted bytes, and the identifier is the one they derive.
    #[verifier::type_invariant]
    closed spec fn inv(&self) -> bool {
        &&& self.encoded@.len() == 64
        &&& ed25519_accepts(self.encoded@)
        &&& self.peer_id@ == peer_id_of(self.encoded@)
    }

    /// The 64-byte encoding: secret scalar, then public point.
    pub closed spec fn encoding(&self) -> Seq<u8> {
        self.encoded@
    }

    /// The identifier peers see for this key, in its text form.
    pub closed spec fn id(&self) -> Seq<char> {
        self.peer_id@
    }

    /// Builds a key from a keypair and its accepted encoding.
    fn from_parts(keypair: Keypair, encoded: Vec<u8>) -> (r: NodeKey)
        requires
            encoded@.len() == 64,
            ed25519_accepts(encoded@),
        ensures
            r.encoding() == encoded@,
            r.id() == peer_id_of(encoded@),
    {
        match peer_id_of_encoding(&encoded) {
            Some(peer_id) => NodeKey { keypair, encoded, peer_id },
            None => {
                proof {
                    assert(false);
                }
                NodeKey { keypair, encoded, peer_id: String::new() }
            },
        }
    }

    /// The keypair, for the transport's handshake and message signing.
    pub fn keypair(&self) -> &Keypair {
        &self.keypair
    }

    /// The identifier that peers see for this node, in its text form.
    pub fn peer_id(&self) -> (r: String)
        ensures
            r@ == self.id(),
            r@ == peer_id_of(self.encoding()),
    {
        proof {
            use_type_invariant(self);
        }
        self.peer_id.clone()
    }
}

/// Key text that `keypair_from_hex` accepts: hex that decodes to 64 bytes forming an
/// Ed25519 keypair.
pub open spec fn is_key_text(s: Seq<char>) -> bool {
    is_hex_text(s) && hex_decoded(s).len() == 64 && ed25519_accepts(hex_decoded(s))
}

/// The message for key material of the wrong length: `Expected 64 bytes, got <n>`.
pub open spec fn wrong_length_message(n: nat) -> Seq<char> {
    "Expected 64 bytes, got "@ + decimal(n)
}

/// Decodes a keypair from its hex text: 128 hex digits, the secret scalar then the
/// public point. Anything else fails with `KeyDecode`; hex of the wrong length says how
/// many bytes it held.
pub fn keypair_from_hex(hex: &str) -> (r: Result<NodeKey, P2PError>)
    ensures
        r.is_ok() == is_key_text(hex@),
        r matches Ok(k) ==> k.encoding() == hex_decoded(hex@) && k.id() == peer_id_of(
            k.encoding(),
        ),
        r matches Err(e) ==> e is KeyDecode,
        is_hex_text(hex@) && hex_decoded(hex@).len() != 64 ==> (r matches Err(
            P2PError::KeyDecode(m),
        ) && m@ == wrong_length_message(hex_decoded(hex@).len())),
{
    let bytes = match decode_hex(hex) {
        Ok(b) => b,
        Err(msg) => {
            return Err(P2PError::KeyDecode(msg));
        },
    };
    if bytes.len() != 64 {
        let mut msg = String::from_str("Expected 64 bytes, got ");
        append_decimal(&mut msg, bytes.len() as u64);
        return Err(P2PError::KeyDecode(msg));
    }
    let copy = bytes.clone();
    assert(copy@ == bytes@);
    match ed25519_keypair_from_bytes(copy) {
        Ok(keypair) => Ok(NodeKey::from_parts(keypair, bytes)),
        Err(msg) => Err(P2PError::KeyDecode(msg)),
    }
}

/// The hex text of a keypair, as written to the key file: 128 lower-case digits.
pub fn keypair_to_hex(key: &NodeKey) -> (r: String)
    ensures
        r@ == hex_encoded(key.encoding()),
{
    encode_hex(&key.encoded)
}

/// Decoding lower-case key text and encoding the key again gives back the same text.
pub proof fn lemma_key_hex_round_trip(s: Seq<char>, key: NodeKey)
    requires
        is_lower_hex_text(s),
        key.encoding() == hex_decoded(s),
    ensures
        hex_encoded(key.encoding()) == s,
{
    lemma_hex_round_trip(s);
}

/// The hex text written for a key is key text that decodes to the same 64 bytes, and so
/// to the same identifier: a persisted key is reused on the next run.
pub proof fn lemma_persisted_key_reloads(b: Seq<u8>)
    requires
        b.len() == 64,
        ed25519_accepts(b),
    ensures
        is_hex_text(hex_encoded(b)),
        is_key_text(hex_encoded(b)),
        hex_decoded(hex_encoded(b)) == b,
{
    lemma_encoded_decodes(b);
}

/// The key text that the configuration supplies: the configured hex keypair first; else,
/// when a key file is configured and was found, its contents `stored` trimmed of
/// surrounding whitespace; else none, and a key is generated.
pub open spec fn supplied_key_text(config: P2PConfig, stored: Option<String>) -> Option<Seq<char>> {
    match config.private_key_hex {
        Some(h) => Some(h@),
        None => if config.key_file is Some && stored is Some {
            Some(trimmed(stored->0@))
        } else {
            None
        },
    }
}

/// `r` is the outcome of choosing a key for `config` with the key file's contents
/// `stored`: supplied key text decodes to its key, with nothing to persist, or fails
/// with `KeyDecode`; without key text a fresh accepted key is made, and its hex text is
/// to be persisted exactly when a key file is configured.
pub open spec fn is_key_choice(
    config: P2PConfig,
    stored: Option<String>,
    r: Result<(NodeKey, Option<String>), P2PError>,
) -> bool {
    &&& r matches Ok((k, _)) ==> k.id() == peer_id_of(k.encoding())
    &&& r matches Err(e) ==> e is KeyDecode
    &&& match supplied_key_text(config, stored) {
        Some(t) => {
            &&& r.is_ok() == is_key_text(t)
            &&& r matches Ok((k, p)) ==> k.encoding() == hex_decoded(t) && p is None
        },
        None => {
            &&& r matches Ok((k, p))
            &&& k.encoding().len() == 64
            &&& ed25519_accepts(k.encoding())
            &&& (p is Some <==> config.key_file is Some)
            &&& (p matches Some(t) ==> t@ == hex_encoded(k.encoding()))
        },
    }
}

/// Chooses the node's key: first match wins among the configured hex keypair, the
/// contents of the key file, `stored`, trimmed of surrounding whitespace (when a key file
/// is configured and was found), and a freshly generated key. Key material that does not
/// decode fails with `KeyDecode` and is never replaced by a new key. The second
/// component is the hex text to write to the key file. Stored text that is already bare
/// hex is decoded as it stands.
pub fn load_or_generate_keypair(config: &P2PConfig, stored: Option<String>) -> (r: Result<
    (NodeKey, Option<String>),
    P2PError,
>)
    ensures
        is_key_choice(*config, stored, r),
        config.private_key_hex is None && config.key_file is Some && stored is Some && is_hex_text(
            stored->0@,
        ) ==> trimmed(stored->0@) == stored->0@,
{
    if let Some(h) = &config.private_key_hex {
        return match keypair_from_hex(h.as_str()) {
            Ok(k) => Ok((k, None)),
            Err(e) => Err(e),
        };
    }
    if config.key_file.is_some() {
        if let Some(s) = &stored {
            let t = trim(s.as_str());
            return match keypair_from_hex(t.as_str()) {
                Ok(k) => Ok((k, None)),
                Err(e) => Err(e),
            };
        }
    }
    let (keypair, encoded) = generate_ed25519();
    let key = NodeKey::from_parts(keypair, encoded);
    if config.key_file.is_some() {
        let text = keypair_to_hex(&key);
        Ok((key, Some(text)))
    } else {
        Ok((key, None))
    }
}

} // verus!
