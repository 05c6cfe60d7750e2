//! Credential loading and the note codec.
//!
//! The relay handler is built from three externally supplied configuration
//! values: the relay address, the channel identifier, and the contents of a
//! PEM-encoded elliptic-curve key file. Construction either yields a handler
//! with all three in place or nothing at all. Signing, encryption and
//! decryption are done by the messaging library behind trusted wrappers; their
//! deterministic results are named (`pem_keys_of`, `keys_pubkey_of`, the note
//! observers, `decrypt_plain_of`), and every contract here speaks through
//! those names.
use vstd::prelude::*;
use nostro2::notes::{Note, SignedNote};
use nostro2::userkeys::UserKeys;
use crate::CONTACT_NOTE_KIND;

verus! {

#[verifier::external_type_specification]
#[verifier::external_body]
pub struct ExUserKeys(UserKeys);

#[verifier::external_type_specification]
#[verifier::external_body]
pub struct ExNote(Note);

#[verifier::external_type_specification]
#[verifier::external_body]
pub struct ExSignedNote(SignedNote);

/// The key pair a PEM key file derives, where it derives one: the composed
/// outcome of PEM parsing, scalar extraction, hexadecimal rendering and key
/// derivation, a function of the file's bytes alone.
pub uninterp spec fn pem_keys_of(pem: Seq<u8>) -> Option<UserKeys>;

/// The public key of a key pair, in hexadecimal.
pub uninterp spec fn keys_pubkey_of(keys: UserKeys) -> Seq<char>;

/// The kind tag of an unsigned note.
pub uninterp spec fn unsigned_kind_of(note: Note) -> u32;

/// The author public key of an unsigned note.
pub uninterp spec fn unsigned_pubkey_of(note: Note) -> Seq<char>;

/// The content of an unsigned note.
pub uninterp spec fn unsigned_content_of(note: Note) -> Seq<char>;

/// The kind tag of a signed note.
pub uninterp spec fn signed_kind_of(note: SignedNote) -> u32;

/// The author public key of a signed note.
pub uninterp spec fn signed_pubkey_of(note: SignedNote) -> Seq<char>;

/// The content of a signed note.
pub uninterp spec fn signed_content_of(note: SignedNote) -> Seq<char>;

/// What decrypting `ciphertext` with the shared point of a key pair and a peer
/// public key yields; decryption draws no randomness, so this is a function of
/// the three arguments.
pub uninterp spec fn decrypt_plain_of(
    keys: UserKeys,
    ciphertext: Seq<char>,
    peer: Seq<char>,
) -> Option<Seq<char>>;

/// Index of the first `?` in `s` at or after `i`, or the length where there is none.
pub open spec fn first_question_mark(s: Seq<char>, i: int) -> int
    decreases s.len() - i,
{
    if !(0 <= i < s.len()) {
        s.len() as int
    } else if s[i] == '?' {
        i
    } else {
        first_question_mark(s, i + 1)
    }
}

/// The contents on which the decryption library runs to completion: either no
/// `?` marker at all (it reports a missing vector), or an `iv=` segment after
/// the first `?` long enough to hold a whole initialization vector. Anything
/// else can make it fault, so decryption is reached only through this shape.
pub open spec fn nip04_safe_shape(s: Seq<char>) -> bool {
    let q1 = first_question_mark(s, 0);
    let q2 = first_question_mark(s, q1 + 1);
    q1 == s.len() || (q2 - (q1 + 1) >= 27 && s[q1 + 1] == 'i' && s[q1 + 2] == 'v' && s[q1 + 3]
        == '=')
}

/// What decrypting a whole note yields: nothing for a content shape the
/// decryption library cannot take, else the named decryption of its content
/// with its author key.
pub open spec fn spec_decrypt_note(keys: UserKeys, note: SignedNote) -> Option<Seq<char>> {
    if nip04_safe_shape(signed_content_of(note)) {
        decrypt_plain_of(keys, signed_content_of(note), signed_pubkey_of(note))
    } else {
        None
    }
}

/// Relies on `openssl::ec::EcKey::private_key_from_pem_passphrase`,
/// `openssl::ec::EcKeyRef::private_key`, `openssl::bn::BigNumRef::to_hex_str`
/// and `nostro2::userkeys::UserKeys::new`: parses a PEM-encoded elliptic-curve
/// private key and derives the messaging key pair from its scalar's
/// hexadecimal rendering; every failure in the chain comes back as an error.
/// The fixed empty passphrase keeps the parse off OpenSSL's terminal prompt,
/// so an encrypted key file fails rather than waits for input, and the chain
/// is a function of the file's bytes, named `pem_keys_of`.
#[verifier::external_body]
fn keys_from_pem(pem: &[u8]) -> (r: Option<UserKeys>)
    ensures
        r == pem_keys_of(pem@),
{
    let key = openssl::ec::EcKey::private_key_from_pem_passphrase(pem, b"").ok()?;
    let hex = key.private_key().to_hex_str().ok()?;
    UserKeys::new(&hex).ok()
}

/// Relies on `nostro2::userkeys::UserKeys::get_public_key`: the public key of
/// the pair in hexadecimal, a function of the key pair alone.
#[verifier::external_body]
fn public_key_of(keys: &UserKeys) -> (r: String)
    ensures
        r@ == keys_pubkey_of(*keys),
{
    keys.get_public_key()
}

/// Relies on `nostro2::notes::Note::new`: an unsigned note carrying exactly the
/// given author key, kind tag and content. The creation-time stamp keeps the
/// note value itself clock-dependent, so only these three fields are stated.
#[verifier::external_body]
fn make_note(pubkey: &str, kind: u32, content: &str) -> (r: Note)
    ensures
        unsigned_kind_of(r) == kind,
        unsigned_pubkey_of(r) == pubkey@,
        unsigned_content_of(r) == content@,
{
    Note::new(pubkey, kind, content)
}

/// Relies on `nostro2::userkeys::UserKeys::sign_nip_04_encrypted`: encrypts the
/// note's content to the recipient key and signs the envelope, keeping the
/// note's kind and author. Encryption draws a fresh initialization vector, so
/// nothing is pinned of the envelope itself; but the produced content has the
/// full `?iv=` shape, and where the recipient is the note's own author key,
/// decryption with the same key pair and that author key uses the same shared
/// point, so it recovers the content. The one failure source is deriving the
/// shared point from the recipient string, which succeeds on the pair's own
/// rendered public key, so signing to it is owed to succeed.
#[verifier::external_body]
fn sign_encrypted(keys: &UserKeys, note: Note, recipient: String) -> (r: Option<SignedNote>)
    ensures
        recipient@ == keys_pubkey_of(*keys) ==> r is Some,
        r matches Some(n) ==> signed_kind_of(n) == unsigned_kind_of(note),
        r matches Some(n) ==> signed_pubkey_of(n) == unsigned_pubkey_of(note),
        r matches Some(n) ==> (recipient@ == unsigned_pubkey_of(note) ==> nip04_safe_shape(
            signed_content_of(n),
        ) && decrypt_plain_of(*keys, signed_content_of(n), signed_pubkey_of(n)) == Some(
            unsigned_content_of(note),
        )),
{
    keys.sign_nip_04_encrypted(note, recipient).ok()
}

/// Relies on `nostro2::userkeys::UserKeys::decrypt_nip_04_plaintext`: the named
/// deterministic decryption of the content with the holder's key and the peer
/// key. The shape bound keeps out the contents on which the decryption library
/// faults: a post-`?` segment shorter than its `iv=` marker, or an
/// initialization vector shorter than a cipher block.
#[verifier::external_body]
fn decrypt_plaintext(keys: &UserKeys, ciphertext: &str, peer: &str) -> (r: Option<String>)
    requires
        nip04_safe_shape(ciphertext@),
    ensures
        r matches Some(p) ==> decrypt_plain_of(*keys, ciphertext@, peer@) == Some(p@),
        r is None ==> decrypt_plain_of(*keys, ciphertext@, peer@) is None,
{
    keys.decrypt_nip_04_plaintext(ciphertext.to_string(), peer.to_string()).ok()
}

/// Relies on `nostro2::notes::SignedNote::get_content`: the note's content.
#[verifier::external_body]
fn note_content(note: &SignedNote) -> (r: String)
    ensures
        r@ == signed_content_of(*note),
{
    note.get_content()
}

/// Relies on `nostro2::notes::SignedNote::get_pubkey`: the note's author key.
#[verifier::external_body]
fn note_pubkey(note: &SignedNote) -> (r: String)
    ensures
        r@ == signed_pubkey_of(*note),
{
    note.get_pubkey()
}

/// True exactly on the content shapes the decryption library can take.
fn nip04_shape_check(s: &str) -> (r: bool)
    ensures
        r == nip04_safe_shape(s@),
{
    let len = s.unicode_len();
    let mut i: usize = 0;
    while i < len && s.get_char(i) != '?'
        invariant
            i <= len,
            len == s@.len(),
            first_question_mark(s@, 0) == first_question_mark(s@, i as int),
        decreases len - i,
    {
        i = i + 1;
    }
    let q1 = i;
    proof {
        assert(first_question_mark(s@, 0) == q1);
    }
    if q1 == len {
        return true;
    }
    let mut j: usize = q1 + 1;
    while j < len && s.get_char(j) != '?'
        invariant
            q1 + 1 <= j <= len,
            len == s@.len(),
            first_question_mark(s@, q1 + 1) == first_question_mark(s@, j as int),
        decreases len - j,
    {
        j = j + 1;
    }
    let q2 = j;
    proof {
        assert(first_question_mark(s@, q1 + 1) == q2);
    }
    if q2 - (q1 + 1) < 27 {
        return false;
    }
    s.get_char(q1 + 1) == 'i' && s.get_char(q1 + 2) == 'v' && s.get_char(q1 + 3) == '='
}

/// A ready-to-use relay client: the relay address, the destination channel,
/// and the holder's key material with its public key rendered as text.
pub struct RelayHandler {
    pub relay_url: String,
    pub channel_id: String,
    pub public_key: String,
    pub private_key: UserKeys,
}

impl RelayHandler {
    /// Builds a handler from the three configuration values. Succeeds exactly
    /// where all three are present and the key file derives a key pair; the
    /// handler then carries the given address and channel and that pair with
    /// its public key; never a partially initialized handler.
    pub fn new(relay_url: Option<String>, pem_file: Option<Vec<u8>>, channel_id: Option<String>) -> (r:
        Option<RelayHandler>)
        ensures
            r is Some <==> (relay_url is Some && channel_id is Some && pem_file is Some
                && pem_keys_of((pem_file->0)@) is Some),
            r matches Some(h) ==> relay_url matches Some(u) && h.relay_url == u,
            r matches Some(h) ==> channel_id matches Some(c) && h.channel_id == c,
            r matches Some(h) ==> pem_file matches Some(p) && Some(h.private_key) == pem_keys_of(
                p@,
            ) && h.public_key@ == keys_pubkey_of(h.private_key),
    {
        let (url, pem, channel) = match (relay_url, pem_file, channel_id) {
            (Some(u), Some(p), Some(c)) => (u, p, c),
            _ => {
                return None;
            },
        };
        let keys = match keys_from_pem(pem.as_slice()) {
            Some(k) => k,
            None => {
                return None;
            },
        };
        let public_key = public_key_of(&keys);
        Some(RelayHandler { relay_url: url, channel_id: channel, public_key, private_key: keys })
    }

    /// Builds and signs the outbound note for a serialized payload: tagged with
    /// the application's kind, authored by the holder's key, content encrypted
    /// to that same key. Encryption draws fresh randomness, so the envelope is
    /// not pinned; what is pinned is that any note returned decrypts, under
    /// this handler's key pair, back to the message — and that signing to the
    /// pair's own public key, as every handler from `new` does, succeeds.
    pub fn sign_contact_note(&self, message: &str) -> (r: Option<SignedNote>)
        ensures
            self.public_key@ == keys_pubkey_of(self.private_key) ==> r is Some,
            r matches Some(n) ==> signed_kind_of(n) == CONTACT_NOTE_KIND && signed_pubkey_of(n)
                == self.public_key@ && spec_decrypt_note(self.private_key, n) == Some(message@),
    {
        let note = make_note(self.public_key.as_str(), CONTACT_NOTE_KIND, message);
        sign_encrypted(&self.private_key, note, self.public_key.clone())
    }

    /// Decrypts an inbound note addressed to the holder's key: exactly
    /// `spec_decrypt_note` of it. A content shape the decryption library cannot
    /// take is skipped here, before the library is reached.
    pub fn decrypt_note(&self, note: &SignedNote) -> (r: Option<String>)
        ensures
            r matches Some(p) ==> spec_decrypt_note(self.private_key, *note) == Some(p@),
            r is None ==> spec_decrypt_note(self.private_key, *note) is None,
    {
        let content = note_content(note);
        if !nip04_shape_check(content.as_str()) {
            return None;
        }
        let peer = note_pubkey(note);
        decrypt_plaintext(&self.private_key, content.as_str(), peer.as_str())
    }
}

} // verus!
