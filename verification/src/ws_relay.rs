//! Encrypted relay: ships stored rows to the archive over an authenticated connection.
//!
//! Protocol:
//! 1. The client connects; the server sends a 32-byte random nonce.
//! 2. The client answers with HMAC-SHA256(shared secret, nonce); the server verifies it.
//! 3. Both derive the session key by HKDF-SHA256 from the shared secret, salted with the nonce.
//! 4. Every further frame is a 12-byte GCM nonce, the ciphertext and a 16-byte tag.
//!
//! [`Relay`] decides what happens next on such a connection; whoever owns the socket and the
//! database performs the [`Action`] and reports back with an [`Event`].

use crate::json::parsed_bytes;
use crate::ring::opt_text;
use crate::shipment::{
    acked, acknowledged, batch_payload, last_id, row_views, write_batch, RowView, ShippedRow,
};
use aes_gcm::aead::Aead;
use aes_gcm::{AeadCore, KeyInit};
use hmac::Mac;
use vstd::prelude::*;
use vstd::string::StringSliceAdditionalSpecFns;
use vstd::utf8::encode_utf8;

verus! {

/// HKDF info string: binds the derived key to this protocol version.
pub const HKDF_INFO: &'static str = "mantis-ws-v1";

/// Length of the server's nonce, in bytes.
pub const NONCE_LEN: usize = 32;

/// Length of an HMAC-SHA256, in bytes.
pub const HMAC_LEN: usize = 32;

/// Length of a session key, in bytes.
pub const KEY_LEN: usize = 32;

/// Length of the GCM nonce that starts a frame, in bytes.
pub const GCM_NONCE_LEN: usize = 12;

/// Length of the GCM tag that ends a frame, in bytes.
pub const GCM_TAG_LEN: usize = 16;

/// The longest plaintext that AES-GCM takes, in bytes.
pub const PLAINTEXT_MAX: u64 = 0x10_0000_0000;

/// Rows in a batch, at most.
pub const BATCH_SIZE: usize = 100;

/// Configuration of the relay.
#[derive(Clone)]
pub struct RelayConfig {
    /// Address of the endpoint.
    pub url: String,
    /// Pre-shared secret.
    pub shared_secret: Vec<u8>,
}

/// Why a frame could not be made or read.
#[derive(Clone, Copy, Debug, PartialEq, Eq, Structural)]
pub enum RelayError {
    /// The plaintext is longer than AES-GCM takes.
    EncryptFailed,
    /// The frame cannot hold a nonce and a tag; its length in bytes.
    FrameTooShort(usize),
    /// The frame was not made under this session's key, or was changed since.
    DecryptFailed,
    /// The key derivation refused the length of the key.
    KeyDerivation,
}

/// What HMAC-SHA256 gives for a key and a message.
pub uninterp spec fn hmac_sha256(key: Seq<u8>, message: Seq<u8>) -> Seq<u8>;

/// What HKDF-SHA256 gives for a salt, key material and an info string: as many bytes as asked for.
pub uninterp spec fn hkdf_sha256(salt: Seq<u8>, ikm: Seq<u8>, info: Seq<u8>, len: nat) -> Seq<u8>;

/// What AES-256-GCM makes of a plaintext under a key and a nonce: ciphertext and tag.
pub uninterp spec fn gcm_seal(key: Seq<u8>, nonce: Seq<u8>, plaintext: Seq<u8>) -> Seq<u8>;

/// What AES-256-GCM finds in a ciphertext and tag under a key and a nonce; `None` where the tag
/// does not belong to them.
pub uninterp spec fn gcm_open(key: Seq<u8>, nonce: Seq<u8>, sealed: Seq<u8>) -> Option<Seq<u8>>;

/// `hmac::Hmac` over SHA-256, which takes keys of any length: the 32-byte code, a function of the
/// key and the message.
#[verifier::external_body]
fn hmac_code(key: &[u8], message: &[u8]) -> (r: Vec<u8>)
    ensures
        r@ == hmac_sha256(key@, message@),
        r@.len() == HMAC_LEN,
{
    let mac = <hmac::Hmac<sha2::Sha256> as Mac>::new_from_slice(key).expect("any key length");
    mac.chain_update(message).finalize().into_bytes().to_vec()
}

/// `hmac::Mac::verify_slice`: whether the tag is the whole HMAC-SHA256 of the message.
#[verifier::external_body]
fn hmac_is(key: &[u8], message: &[u8], tag: &[u8]) -> (r: bool)
    ensures
        r == (tag@ == hmac_sha256(key@, message@)),
{
    let mac = <hmac::Hmac<sha2::Sha256> as Mac>::new_from_slice(key).expect("any key length");
    mac.chain_update(message).verify_slice(tag).is_ok()
}

/// `hkdf::Hkdf::expand` over SHA-256: `len` bytes of key, a function of the salt, the key
/// material and the info; an error where more than 255 hash lengths are asked for.
#[verifier::external_body]
fn hkdf_key(salt: &[u8], ikm: &[u8], info: &[u8], len: usize) -> (r: Option<Vec<u8>>)
    ensures
        match r {
            Some(k) => {
                &&& len <= 255 * 32
                &&& k@ == hkdf_sha256(salt@, ikm@, info@, len as nat)
                &&& k@.len() == len
            },
            None => len > 255 * 32,
        },
{
    let mut okm = vec![0u8; len];
    hkdf::Hkdf::<sha2::Sha256>::new(Some(salt), ikm).expand(info, &mut okm).ok()?;
    Some(okm)
}

/// `Aes256Gcm::encrypt` without associated data: ciphertext and tag, a function of key, nonce and
/// plaintext, which `Aes256Gcm::decrypt` under the same key and nonce turns back into the
/// plaintext; an error where the plaintext is longer than `P_MAX`. A key of 32 bytes and a nonce
/// of 12 are what it takes.
#[verifier::external_body]
fn gcm_encrypt(key: &[u8], nonce: &[u8], plaintext: &[u8]) -> (r: Option<Vec<u8>>)
    requires
        key@.len() == KEY_LEN,
        nonce@.len() == GCM_NONCE_LEN,
    ensures
        match r {
            Some(c) => {
                &&& plaintext@.len() <= PLAINTEXT_MAX
                &&& c@ == gcm_seal(key@, nonce@, plaintext@)
                &&& c@.len() == plaintext@.len() + GCM_TAG_LEN
                &&& gcm_open(key@, nonce@, c@) == Some(plaintext@)
            },
            None => plaintext@.len() > PLAINTEXT_MAX,
        },
{
    let cipher = aes_gcm::Aes256Gcm::new_from_slice(key).ok()?;
    cipher.encrypt(aes_gcm::Nonce::from_slice(nonce), plaintext).ok()
}

/// `Aes256Gcm::decrypt` without associated data: the plaintext, a function of key, nonce and
/// sealed bytes, or an error. What it accepts is, up to `P_MAX` bytes, what `encrypt` makes of
/// the plaintext it gives back.
#[verifier::external_body]
fn gcm_decrypt(key: &[u8], nonce: &[u8], sealed: &[u8]) -> (r: Option<Vec<u8>>)
    requires
        key@.len() == KEY_LEN,
        nonce@.len() == GCM_NONCE_LEN,
    ensures
        match r {
            Some(p) => {
                &&& gcm_open(key@, nonce@, sealed@) == Some(p@)
                &&& sealed@.len() == p@.len() + GCM_TAG_LEN
                &&& p@.len() <= PLAINTEXT_MAX ==> sealed@ == gcm_seal(key@, nonce@, p@)
            },
            None => gcm_open(key@, nonce@, sealed@) is None,
        },
{
    let cipher = aes_gcm::Aes256Gcm::new_from_slice(key).ok()?;
    cipher.decrypt(aes_gcm::Nonce::from_slice(nonce), sealed).ok()
}

/// `Aes256Gcm::generate_nonce` from the operating system's generator: 12 bytes, any of them. It
/// panics where that generator fails, which depends on the machine alone.
#[verifier::external_body]
fn random_gcm_nonce() -> (r: Vec<u8>)
    ensures
        r@.len() == GCM_NONCE_LEN,
{
    aes_gcm::Aes256Gcm::generate_nonce(&mut aes_gcm::aead::OsRng).to_vec()
}

/// Computes HMAC-SHA256(shared secret, nonce) for the challenge.
pub fn compute_hmac(shared_secret: &[u8], nonce: &[u8]) -> (r: Vec<u8>)
    ensures
        r@ == hmac_sha256(shared_secret@, nonce@),
        r@.len() == HMAC_LEN,
{
    hmac_code(shared_secret, nonce)
}

/// The response is the one that the challenge asks for.
pub open spec fn accepts(secret: Seq<u8>, nonce: Seq<u8>, response: Seq<u8>) -> bool {
    response == hmac_sha256(secret, nonce)
}

/// Whether the response is HMAC-SHA256(shared secret, nonce).
pub fn verify_hmac(shared_secret: &[u8], nonce: &[u8], response: &[u8]) -> (r: bool)
    ensures
        r == accepts(shared_secret@, nonce@, response@),
{
    hmac_is(shared_secret, nonce, response)
}

/// The key of the session between two parties that share `secret`, after the handshake on `nonce`.
pub open spec fn session_key(secret: Seq<u8>, nonce: Seq<u8>) -> Seq<u8> {
    hkdf_sha256(nonce, secret, HKDF_INFO.spec_bytes(), KEY_LEN as nat)
}

/// What a frame says under a session key; `None` where it is too short or does not belong to the
/// key.
pub open spec fn frame_plaintext(key: Seq<u8>, frame: Seq<u8>) -> Option<Seq<u8>> {
    if frame.len() < GCM_NONCE_LEN + GCM_TAG_LEN {
        None
    } else {
        gcm_open(key, frame.take(GCM_NONCE_LEN as int), frame.skip(GCM_NONCE_LEN as int))
    }
}

/// The frame that carries `plaintext` under a session key and a GCM nonce.
pub open spec fn frame_of(key: Seq<u8>, gcm_nonce: Seq<u8>, plaintext: Seq<u8>) -> Seq<u8> {
    gcm_nonce + gcm_seal(key, gcm_nonce, plaintext)
}

/// Makes a frame of a GCM nonce and what was sealed under it.
pub fn join_frame(gcm_nonce: &[u8], sealed: &[u8]) -> (r: Vec<u8>)
    ensures
        r@ == gcm_nonce@ + sealed@,
{
    let mut out: Vec<u8> = Vec::new();
    out.extend_from_slice(gcm_nonce);
    out.extend_from_slice(sealed);
    assert(out@ =~= gcm_nonce@ + sealed@);
    out
}

/// Takes a frame apart into the GCM nonce and what was sealed under it; `None` where it cannot hold
/// a nonce and a tag.
pub fn split_frame(frame: &[u8]) -> (r: Option<(&[u8], &[u8])>)
    ensures
        match r {
            Some((nonce, sealed)) => {
                &&& frame@.len() >= GCM_NONCE_LEN + GCM_TAG_LEN
                &&& nonce@ == frame@.take(GCM_NONCE_LEN as int)
                &&& sealed@ == frame@.skip(GCM_NONCE_LEN as int)
            },
            None => frame@.len() < GCM_NONCE_LEN + GCM_TAG_LEN,
        },
{
    if frame.len() < GCM_NONCE_LEN + GCM_TAG_LEN {
        return None;
    }
    let (nonce, sealed) = frame.split_at(GCM_NONCE_LEN);
    assert(nonce@ =~= frame@.take(GCM_NONCE_LEN as int));
    assert(sealed@ =~= frame@.skip(GCM_NONCE_LEN as int));
    Some((nonce, sealed))
}

/// A live encrypted session, made after a successful handshake.
pub struct Session {
    key: Vec<u8>,
}

impl View for Session {
    type V = Seq<u8>;

    /// The session key.
    closed spec fn view(&self) -> Seq<u8> {
        self.key@
    }
}

impl Session {
    #[verifier::type_invariant]
    spec fn key_fits(self) -> bool {
        self.key@.len() == KEY_LEN
    }

    /// Derives a session from the shared secret and the handshake nonce.
    pub fn derive(shared_secret: &[u8], nonce: &[u8]) -> (r: Result<Session, RelayError>)
        ensures
            match r {
                Ok(s) => s@ == session_key(shared_secret@, nonce@),
                Err(_) => false,
            },
    {
        match hkdf_key(nonce, shared_secret, HKDF_INFO.as_bytes(), KEY_LEN) {
            Some(key) => Ok(Session { key }),
            None => Err(RelayError::KeyDerivation),
        }
    }

    /// Encrypts a message for transmission, under a GCM nonce drawn at random.
    pub fn encrypt(&self, plaintext: &[u8]) -> (r: Result<Vec<u8>, RelayError>)
        ensures
            match r {
                Ok(frame) => {
                    &&& plaintext@.len() <= PLAINTEXT_MAX
                    &&& frame@.len() == GCM_NONCE_LEN + plaintext@.len() + GCM_TAG_LEN
                    &&& frame@ == frame_of(self@, frame@.take(GCM_NONCE_LEN as int), plaintext@)
                    &&& frame_plaintext(self@, frame@) == Some(plaintext@)
                },
                Err(e) => plaintext@.len() > PLAINTEXT_MAX && e == RelayError::EncryptFailed,
            },
    {
        let nonce: Vec<u8> = random_gcm_nonce();
        match self.encrypt_with(&nonce, plaintext) {
            Ok(frame) => {
                assert(frame@.take(GCM_NONCE_LEN as int) =~= nonce@);
                Ok(frame)
            },
            Err(e) => Err(e),
        }
    }

    /// Encrypts a message for transmission under the given GCM nonce.
    pub fn encrypt_with(&self, gcm_nonce: &[u8], plaintext: &[u8]) -> (r: Result<
        Vec<u8>,
        RelayError,
    >)
        requires
            gcm_nonce@.len() == GCM_NONCE_LEN,
        ensures
            match r {
                Ok(frame) => {
                    &&& plaintext@.len() <= PLAINTEXT_MAX
                    &&& frame@.len() == GCM_NONCE_LEN + plaintext@.len() + GCM_TAG_LEN
                    &&& frame@ == frame_of(self@, gcm_nonce@, plaintext@)
                    &&& frame_plaintext(self@, frame@) == Some(plaintext@)
                },
                Err(e) => plaintext@.len() > PLAINTEXT_MAX && e == RelayError::EncryptFailed,
            },
    {
        proof {
            use_type_invariant(self);
        }
        match gcm_encrypt(&self.key, gcm_nonce, plaintext) {
            Some(sealed) => {
                let out: Vec<u8> = join_frame(gcm_nonce, &sealed);
                assert(out@.take(GCM_NONCE_LEN as int) =~= gcm_nonce@);
                assert(out@.skip(GCM_NONCE_LEN as int) =~= sealed@);
                Ok(out)
            },
            None => Err(RelayError::EncryptFailed),
        }
    }

    /// Decrypts a received frame.
    pub fn decrypt(&self, frame: &[u8]) -> (r: Result<Vec<u8>, RelayError>)
        ensures
            match r {
                Ok(p) => reads(self@, frame@, p@),
                Err(e) => {
                    &&& frame_plaintext(self@, frame@) is None
                    &&& e == if frame@.len() < GCM_NONCE_LEN + GCM_TAG_LEN {
                        RelayError::FrameTooShort(frame@.len() as usize)
                    } else {
                        RelayError::DecryptFailed
                    }
                },
            },
    {
        proof {
            use_type_invariant(self);
        }
        match split_frame(frame) {
            Some((nonce, sealed)) => {
                assert(frame@ =~= nonce@ + sealed@);
                match gcm_decrypt(&self.key, nonce, sealed) {
                    Some(p) => Ok(p),
                    None => Err(RelayError::DecryptFailed),
                }
            },
            None => Err(RelayError::FrameTooShort(frame.len())),
        }
    }
}

/// The response that the challenge asks for is accepted, and no other is.
pub proof fn challenge_has_one_answer(secret: Seq<u8>, nonce: Seq<u8>, response: Seq<u8>)
    ensures
        accepts(secret, nonce, hmac_sha256(secret, nonce)),
        accepts(secret, nonce, response) ==> response == hmac_sha256(secret, nonce),
{
}

/// Two parties that share the secret and saw the same nonce read each other's frames: what one
/// encrypts the other decrypts to the same plaintext.
pub proof fn peers_read_each_other(
    client: Session,
    server: Session,
    secret: Seq<u8>,
    nonce: Seq<u8>,
    frame: Seq<u8>,
    plaintext: Seq<u8>,
)
    requires
        client@ == session_key(secret, nonce),
        server@ == session_key(secret, nonce),
        frame_plaintext(client@, frame) == Some(plaintext),
    ensures
        frame_plaintext(server@, frame) == Some(plaintext),
{
}

/// What a session reads in a frame, as far as AES-GCM takes it: the frame is then the one that
/// says it under the frame's own nonce.
pub open spec fn reads(key: Seq<u8>, frame: Seq<u8>, plaintext: Seq<u8>) -> bool {
    &&& frame_plaintext(key, frame) == Some(plaintext)
    &&& frame.len() == GCM_NONCE_LEN + plaintext.len() + GCM_TAG_LEN
    &&& plaintext.len() <= PLAINTEXT_MAX ==> frame == frame_of(
        key,
        frame.take(GCM_NONCE_LEN as int),
        plaintext,
    )
}

/// Two frames with the same nonce that a session reads as the same message are the same frame: a
/// frame that was changed behind its nonce is not read as what it said.
pub proof fn changed_frame_is_not_read_as_before(
    key: Seq<u8>,
    frame: Seq<u8>,
    changed: Seq<u8>,
    plaintext: Seq<u8>,
)
    requires
        plaintext.len() <= PLAINTEXT_MAX,
        reads(key, frame, plaintext),
        reads(key, changed, plaintext),
        changed.take(GCM_NONCE_LEN as int) == frame.take(GCM_NONCE_LEN as int),
    ensures
        changed == frame,
{
}

/// Where a connection stands.
#[derive(Clone, Copy, Debug, PartialEq, Eq, Structural)]
pub enum Phase {
    /// About to connect.
    Connect,
    /// Connected, waiting for the server's nonce.
    Nonce,
    /// The response is on its way.
    Respond,
    /// Waiting for the server's verdict.
    Verdict,
    /// Authenticated, waiting for the next poll or message.
    Idle,
    /// Looking for feed rows beyond the watermark.
    ReadFeeds,
    /// A batch of feed rows is on its way; the id of its last row.
    SendFeeds(i64),
    /// Looking for book rows beyond the watermark.
    ReadBooks,
    /// A batch of book rows is on its way; the id of its last row.
    SendBooks(i64),
    /// Disconnected, waiting before the next attempt.
    Backoff,
    /// Shut down.
    Done,
}

/// What happened.
pub enum Event {
    /// Shutdown was asked for.
    Stop,
    Connected,
    ConnectFailed,
    /// A binary message.
    Binary(Vec<u8>),
    /// The peer closed the connection.
    Close,
    /// Any other message.
    Other,
    /// No message: the stream ended or failed, or the time for one ran out.
    NoMessage,
    /// The bytes of the last [`Action::Send`] went out.
    Sent,
    SendFailed,
    /// Time to look for rows.
    Tick,
    /// The rows that were found, in the order of their ids; there may be none.
    Rows(Vec<ShippedRow>),
    ReadFailed,
    /// The wait is over.
    Waited,
}

/// What happened, for contracts.
#[verifier::ext_equal]
pub enum EventView {
    Stop,
    Connected,
    ConnectFailed,
    Binary(Seq<u8>),
    Close,
    Other,
    NoMessage,
    Sent,
    SendFailed,
    Tick,
    Rows(Seq<RowView>),
    ReadFailed,
    Waited,
}

impl View for Event {
    type V = EventView;

    open spec fn view(&self) -> EventView {
        match *self {
            Event::Stop => EventView::Stop,
            Event::Connected => EventView::Connected,
            Event::ConnectFailed => EventView::ConnectFailed,
            Event::Binary(data) => EventView::Binary(data@),
            Event::Close => EventView::Close,
            Event::Other => EventView::Other,
            Event::NoMessage => EventView::NoMessage,
            Event::Sent => EventView::Sent,
            Event::SendFailed => EventView::SendFailed,
            Event::Tick => EventView::Tick,
            Event::Rows(rows) => EventView::Rows(row_views(rows@)),
            Event::ReadFailed => EventView::ReadFailed,
            Event::Waited => EventView::Waited,
        }
    }
}

/// What to do next.
pub enum Action {
    Connect,
    /// Receive one message, within the time allowed for a handshake step.
    Receive,
    /// Send these bytes as a binary message.
    Send(Vec<u8>),
    /// Wait for the next poll or message. How many rows the message just read acknowledges, if
    /// there was one and it does.
    Listen(Option<String>),
    /// Look for feed rows with an id beyond the first number, at most as many as the second.
    ReadFeeds(i64, usize),
    /// Look for book rows with an id beyond the first number, at most as many as the second.
    ReadBooks(i64, usize),
    /// Drop the connection and wait.
    Wait,
    Quit,
}

/// The relay's state, for contracts.
#[verifier::ext_equal]
pub struct RelayView {
    pub secret: Seq<u8>,
    pub phase: Phase,
    /// The nonce of the current handshake.
    pub nonce: Seq<u8>,
    /// The key of the current session.
    pub key: Option<Seq<u8>>,
    /// The id of the last feed row shipped.
    pub feeds: i64,
    /// The id of the last book row shipped.
    pub books: i64,
}

impl RelayView {
    /// Ready to begin.
    pub open spec fn start(secret: Seq<u8>) -> RelayView {
        RelayView {
            secret,
            phase: Phase::Connect,
            nonce: Seq::empty(),
            key: None,
            feeds: 0,
            books: 0,
        }
    }

    /// The phases in which there is a session.
    pub open spec fn authenticated(self) -> bool {
        match self.phase {
            Phase::Idle => true,
            Phase::ReadFeeds => true,
            Phase::SendFeeds(_) => true,
            Phase::ReadBooks => true,
            Phase::SendBooks(_) => true,
            _ => false,
        }
    }

    /// There is a session key exactly after a handshake, and it is the one that this secret and
    /// the server's nonce give.
    pub open spec fn valid(self) -> bool {
        &&& self.authenticated() <==> self.key is Some
        &&& self.key is Some ==> self.key == Some(session_key(self.secret, self.nonce))
        &&& (self.authenticated() || self.phase == Phase::Respond || self.phase == Phase::Verdict)
            ==> self.nonce.len() == NONCE_LEN
    }

    /// In another phase of the same connection.
    pub open spec fn at(self, phase: Phase) -> RelayView {
        RelayView { phase, ..self }
    }

    /// The connection is gone; the watermarks stay.
    pub open spec fn dropped(self) -> RelayView {
        RelayView { phase: Phase::Backoff, key: None, ..self }
    }

    /// The state after an event.
    pub open spec fn after(self, event: EventView) -> RelayView {
        if self.phase == Phase::Done || event == EventView::Stop {
            RelayView { phase: Phase::Done, key: None, ..self }
        } else {
            match self.phase {
                Phase::Connect => match event {
                    EventView::Connected => self.at(Phase::Nonce),
                    _ => self.dropped(),
                },
                Phase::Nonce => match event {
                    EventView::Binary(data) => if data.len() == NONCE_LEN {
                        RelayView { phase: Phase::Respond, nonce: data, ..self }
                    } else {
                        self.dropped()
                    },
                    _ => self.dropped(),
                },
                Phase::Respond => match event {
                    EventView::Sent => self.at(Phase::Verdict),
                    _ => self.dropped(),
                },
                Phase::Verdict => match event {
                    EventView::Binary(_) => self.opened(),
                    EventView::Other => self.opened(),
                    _ => self.dropped(),
                },
                Phase::Idle => match event {
                    EventView::Tick => self.at(Phase::ReadFeeds),
                    EventView::Binary(frame) => if frame_plaintext(self.key->0, frame) is Some {
                        self
                    } else {
                        self.dropped()
                    },
                    EventView::Close => self.dropped(),
                    EventView::NoMessage => self.dropped(),
                    _ => self,
                },
                Phase::ReadFeeds => match event {
                    EventView::Rows(rows) => if rows.len() == 0 {
                        self.at(Phase::ReadBooks)
                    } else if batch_payload("feeds"@, rows).len() <= PLAINTEXT_MAX {
                        self.at(Phase::SendFeeds(rows.last().id))
                    } else {
                        self.dropped()
                    },
                    _ => self.at(Phase::ReadBooks),
                },
                Phase::SendFeeds(last) => match event {
                    EventView::Sent => RelayView { feeds: last, phase: Phase::ReadBooks, ..self },
                    _ => self.dropped(),
                },
                Phase::ReadBooks => match event {
                    EventView::Rows(rows) => if rows.len() == 0 {
                        self.at(Phase::Idle)
                    } else if batch_payload("books"@, rows).len() <= PLAINTEXT_MAX {
                        self.at(Phase::SendBooks(rows.last().id))
                    } else {
                        self.dropped()
                    },
                    _ => self.at(Phase::Idle),
                },
                Phase::SendBooks(last) => match event {
                    EventView::Sent => RelayView { books: last, phase: Phase::Idle, ..self },
                    _ => self.dropped(),
                },
                Phase::Backoff => match event {
                    EventView::Waited => self.at(Phase::Connect),
                    _ => self,
                },
                Phase::Done => self,
            }
        }
    }

    /// The handshake succeeded.
    pub open spec fn opened(self) -> RelayView {
        RelayView {
            phase: Phase::Idle,
            key: Some(session_key(self.secret, self.nonce)),
            ..self
        }
    }

    /// The action that leads on from this state, reached from `before` by `event`.
    pub open spec fn wants(self, before: RelayView, event: EventView, action: Action) -> bool {
        match self.phase {
            Phase::Connect => action is Connect,
            Phase::Nonce => action is Receive,
            Phase::Respond => action matches Action::Send(bytes) && bytes@ == hmac_sha256(
                self.secret,
                self.nonce,
            ),
            Phase::Verdict => action is Receive,
            Phase::Idle => match (before.phase, event) {
                (Phase::Idle, EventView::Binary(frame)) => {
                    action matches Action::Listen(count) && opt_text(count) == acknowledged(
                        parsed_bytes(frame_plaintext(self.key->0, frame)->0),
                    )
                },
                _ => action == Action::Listen(None),
            },
            Phase::ReadFeeds => action == Action::ReadFeeds(self.feeds, BATCH_SIZE),
            Phase::ReadBooks => action == Action::ReadBooks(self.books, BATCH_SIZE),
            Phase::SendFeeds(_) => match event {
                EventView::Rows(rows) => action matches Action::Send(bytes) && frame_plaintext(
                    self.key->0,
                    bytes@,
                ) == Some(batch_payload("feeds"@, rows)),
                _ => false,
            },
            Phase::SendBooks(_) => match event {
                EventView::Rows(rows) => action matches Action::Send(bytes) && frame_plaintext(
                    self.key->0,
                    bytes@,
                ) == Some(batch_payload("books"@, rows)),
                _ => false,
            },
            Phase::Backoff => action is Wait,
            Phase::Done => action is Quit,
        }
    }
}

/// The client side of the relay.
pub struct Relay {
    state: RelayState,
}

struct RelayState {
    secret: Vec<u8>,
    phase: Phase,
    nonce: Vec<u8>,
    session: Option<Session>,
    feed_watermark: i64,
    book_watermark: i64,
}

impl View for RelayState {
    type V = RelayView;

    closed spec fn view(&self) -> RelayView {
        RelayView {
            secret: self.secret@,
            phase: self.phase,
            nonce: self.nonce@,
            key: match self.session {
                Some(s) => Some(s@),
                None => None,
            },
            feeds: self.feed_watermark,
            books: self.book_watermark,
        }
    }
}

impl View for Relay {
    type V = RelayView;

    closed spec fn view(&self) -> RelayView {
        self.state@
    }
}

impl Relay {
    #[verifier::type_invariant]
    spec fn state_is_valid(self) -> bool {
        self.state@.valid()
    }

    /// A relay that has shipped nothing; the first thing to do is to connect.
    pub fn new(shared_secret: Vec<u8>) -> (r: Relay)
        ensures
            r@ == RelayView::start(shared_secret@),
            r@.valid(),
    {
        Relay { state: RelayState::start(shared_secret) }
    }

    /// Takes in what happened and says what to do next.
    pub fn step(&mut self, event: Event) -> (r: Action)
        ensures
            final(self)@ == old(self)@.after(event@),
            final(self)@.valid(),
            final(self)@.wants(old(self)@, event@, r),
    {
        proof {
            use_type_invariant(&*self);
        }
        let mut state: RelayState = RelayState::start(Vec::new());
        core::mem::swap(&mut self.state, &mut state);
        let action: Action = state.step(event);
        self.state = state;
        action
    }
}

impl RelayState {
    fn start(secret: Vec<u8>) -> (r: RelayState)
        ensures
            r@ == RelayView::start(secret@),
            r@.valid(),
    {
        let nonce: Vec<u8> = Vec::new();
        assert(nonce@ =~= Seq::empty());
        RelayState {
            secret,
            phase: Phase::Connect,
            nonce,
            session: None,
            feed_watermark: 0,
            book_watermark: 0,
        }
    }

    fn step(&mut self, event: Event) -> (r: Action)
        requires
            old(self)@.valid(),
        ensures
            final(self)@ == old(self)@.after(event@),
            final(self)@.valid(),
            final(self)@.wants(old(self)@, event@, r),
    {
        if self.phase == Phase::Done || matches!(event, Event::Stop) {
            self.phase = Phase::Done;
            self.session = None;
            return Action::Quit;
        }
        match self.phase {
            Phase::Connect => match event {
                Event::Connected => {
                    self.phase = Phase::Nonce;
                    Action::Receive
                },
                _ => self.drop_connection(),
            },
            Phase::Nonce => match event {
                Event::Binary(data) => if data.len() == NONCE_LEN {
                    let response: Vec<u8> = compute_hmac(&self.secret, &data);
                    self.nonce = data;
                    self.phase = Phase::Respond;
                    Action::Send(response)
                } else {
                    self.drop_connection()
                },
                _ => self.drop_connection(),
            },
            Phase::Respond => match event {
                Event::Sent => {
                    self.phase = Phase::Verdict;
                    Action::Receive
                },
                _ => self.drop_connection(),
            },
            Phase::Verdict => match event {
                Event::Binary(_) => self.open_session(),
                Event::Other => self.open_session(),
                _ => self.drop_connection(),
            },
            Phase::Idle => match event {
                Event::Tick => {
                    self.phase = Phase::ReadFeeds;
                    Action::ReadFeeds(self.feed_watermark, BATCH_SIZE)
                },
                Event::Binary(frame) => match &self.session {
                    Some(session) => match session.decrypt(&frame) {
                        Ok(plaintext) => Action::Listen(acked(&plaintext)),
                        Err(_) => self.drop_connection(),
                    },
                    None => self.drop_connection(),
                },
                Event::Close => self.drop_connection(),
                Event::NoMessage => self.drop_connection(),
                _ => Action::Listen(None),
            },
            Phase::ReadFeeds => match event {
                Event::Rows(rows) => match last_id(&rows) {
                    Some(id) => self.ship(Phase::SendFeeds(id), "feeds", rows),
                    None => {
                        self.phase = Phase::ReadBooks;
                        Action::ReadBooks(self.book_watermark, BATCH_SIZE)
                    },
                },
                _ => {
                    self.phase = Phase::ReadBooks;
                    Action::ReadBooks(self.book_watermark, BATCH_SIZE)
                },
            },
            Phase::SendFeeds(last) => match event {
                Event::Sent => {
                    self.feed_watermark = last;
                    self.phase = Phase::ReadBooks;
                    Action::ReadBooks(self.book_watermark, BATCH_SIZE)
                },
                _ => self.drop_connection(),
            },
            Phase::ReadBooks => match event {
                Event::Rows(rows) => match last_id(&rows) {
                    Some(id) => self.ship(Phase::SendBooks(id), "books", rows),
                    None => {
                        self.phase = Phase::Idle;
                        Action::Listen(None)
                    },
                },
                _ => {
                    self.phase = Phase::Idle;
                    Action::Listen(None)
                },
            },
            Phase::SendBooks(last) => match event {
                Event::Sent => {
                    self.book_watermark = last;
                    self.phase = Phase::Idle;
                    Action::Listen(None)
                },
                _ => self.drop_connection(),
            },
            Phase::Backoff => match event {
                Event::Waited => {
                    self.phase = Phase::Connect;
                    Action::Connect
                },
                _ => Action::Wait,
            },
            Phase::Done => Action::Quit,
        }
    }

    fn drop_connection(&mut self) -> (r: Action)
        ensures
            final(self)@ == old(self)@.dropped(),
            r is Wait,
    {
        self.phase = Phase::Backoff;
        self.session = None;
        Action::Wait
    }

    fn open_session(&mut self) -> (r: Action)
        ensures
            final(self)@ == old(self)@.opened(),
            r == Action::Listen(None),
    {
        match Session::derive(&self.secret, &self.nonce) {
            Ok(session) => {
                self.session = Some(session);
                self.phase = Phase::Idle;
                Action::Listen(None)
            },
            Err(_) => self.drop_connection(),
        }
    }

    fn ship(&mut self, phase: Phase, name: &str, rows: Vec<ShippedRow>) -> (r: Action)
        requires
            old(self)@.key is Some,
        ensures
            ({
                let payload = batch_payload(name@, row_views(rows@));
                if payload.len() <= PLAINTEXT_MAX {
                    &&& final(self)@ == old(self)@.at(phase)
                    &&& r matches Action::Send(bytes) && frame_plaintext(old(self)@.key->0, bytes@)
                        == Some(payload)
                } else {
                    final(self)@ == old(self)@.dropped() && r is Wait
                }
            }),
    {
        let payload: Vec<u8> = write_batch(name, rows);
        match &self.session {
            Some(session) => match session.encrypt(&payload) {
                Ok(frame) => {
                    self.phase = phase;
                    Action::Send(frame)
                },
                Err(_) => self.drop_connection(),
            },
            None => self.drop_connection(),
        }
    }
}

/// Every state that the relay reaches is valid: there is a session key only after a handshake,
/// and it is the one that the secret and the server's nonce give.
pub proof fn states_stay_valid(relay: RelayView, event: EventView)
    requires
        relay.valid(),
    ensures
        relay.after(event).valid(),
        relay.after(event).secret == relay.secret,
{
}

/// A watermark moves only when a batch went out, and then to the id of the batch's last row.
pub proof fn watermarks_follow_sent_batches(relay: RelayView, event: EventView)
    ensures
        relay.after(event).feeds == match (relay.phase, event) {
            (Phase::SendFeeds(last), EventView::Sent) => last,
            _ => relay.feeds,
        },
        relay.after(event).books == match (relay.phase, event) {
            (Phase::SendBooks(last), EventView::Sent) => last,
            _ => relay.books,
        },
{
}

/// A batch that did not go out leaves the watermarks where they were and drops the connection, so
/// the same rows are asked for again.
pub proof fn failed_batch_is_not_passed(relay: RelayView)
    requires
        relay.phase is SendFeeds || relay.phase is SendBooks,
    ensures
        relay.after(EventView::SendFailed).phase == Phase::Backoff,
        relay.after(EventView::SendFailed).feeds == relay.feeds,
        relay.after(EventView::SendFailed).books == relay.books,
{
}

/// A run of the relay: where it stands, the batch that was read last, and the rows of the batches
/// that went out.
#[verifier::ext_equal]
pub struct Run {
    pub relay: RelayView,
    pub batch: Seq<RowView>,
    pub feeds: Seq<RowView>,
    pub books: Seq<RowView>,
}

impl Run {
    /// The run after one more event.
    pub open spec fn next(self, event: EventView) -> Run {
        Run {
            relay: self.relay.after(event),
            batch: match event {
                EventView::Rows(rows) => rows,
                _ => self.batch,
            },
            feeds: if self.relay.phase is SendFeeds && event is Sent {
                self.feeds + self.batch
            } else {
                self.feeds
            },
            books: if self.relay.phase is SendBooks && event is Sent {
                self.books + self.batch
            } else {
                self.books
            },
        }
    }

    /// Where the relay asked for rows, the event brings the rows that it asked for, of the tables
    /// as they stood: a beginning of what they have become.
    pub open spec fn answered(
        self,
        event: EventView,
        feeds: Seq<RowView>,
        books: Seq<RowView>,
    ) -> bool {
        match (self.relay.phase, event) {
            (Phase::ReadFeeds, EventView::Rows(rows)) => exists|n: int|
                0 <= n <= feeds.len() && rows == unshipped(
                    #[trigger] feeds.take(n),
                    self.relay.feeds,
                    BATCH_SIZE as int,
                ),
            (Phase::ReadBooks, EventView::Rows(rows)) => exists|n: int|
                0 <= n <= books.len() && rows == unshipped(
                    #[trigger] books.take(n),
                    self.relay.books,
                    BATCH_SIZE as int,
                ),
            _ => true,
        }
    }
}

/// The run that a sequence of events makes.
pub open spec fn run_of(secret: Seq<u8>, events: Seq<EventView>) -> Run
    decreases events.len(),
{
    if events.len() == 0 {
        Run {
            relay: RelayView::start(secret),
            batch: Seq::empty(),
            feeds: Seq::empty(),
            books: Seq::empty(),
        }
    } else {
        run_of(secret, events.drop_last()).next(events.last())
    }
}

/// The first rows of a table with an id beyond the watermark, at most `limit` of them.
pub open spec fn unshipped(table: Seq<RowView>, watermark: i64, limit: int) -> Seq<RowView> {
    let rest = table.filter(|row: RowView| row.id > watermark);
    if rest.len() <= limit {
        rest
    } else {
        rest.take(limit)
    }
}

/// A table whose ids are positive and rise.
pub open spec fn numbered(table: Seq<RowView>) -> bool {
    &&& forall|i: int| 0 <= i < table.len() ==> (#[trigger] table[i]).id > 0
    &&& forall|i: int, j: int|
        0 <= i < j < table.len() ==> (#[trigger] table[i]).id < (#[trigger] table[j]).id
}

/// The id that the rows shipped so far reach.
pub open spec fn reached(rows: Seq<RowView>) -> i64 {
    if rows.len() == 0 {
        0
    } else {
        rows.last().id
    }
}

proof fn lemma_rows_beyond(table: Seq<RowView>, k: int, n: int)
    requires
        numbered(table),
        0 <= k <= table.len(),
        0 <= n <= table.len(),
    ensures
        table.take(n).filter(|row: RowView| row.id > reached(table.take(k))) == if n <= k {
            Seq::empty()
        } else {
            table.subrange(k, n)
        },
    decreases n,
{
    let beyond = |row: RowView| row.id > reached(table.take(k));
    reveal(Seq::filter);
    if n > 0 {
        lemma_rows_beyond(table, k, n - 1);
        let part = table.take(n);
        assert(part.drop_last() =~= table.take(n - 1));
        assert(part.last() == table[n - 1]);
        if k > 0 {
            assert(table.take(k).last() == table[k - 1]);
        }
        if n <= k {
            assert(!beyond(part.last()));
        } else {
            assert(beyond(part.last()));
            assert(table.subrange(k, n) =~= if n - 1 <= k {
                Seq::<RowView>::empty().push(table[n - 1])
            } else {
                table.subrange(k, n - 1).push(table[n - 1])
            });
        }
    }
}

/// What was shipped is a beginning of the table, and the watermark stands at its end.
spec fn in_step(table: Seq<RowView>, shipped: Seq<RowView>, watermark: i64) -> bool {
    &&& shipped.len() <= table.len()
    &&& shipped == table.take(shipped.len() as int)
    &&& watermark == reached(shipped)
}

/// The batch is what follows in the table.
spec fn follows(table: Seq<RowView>, shipped: Seq<RowView>, batch: Seq<RowView>) -> bool {
    &&& batch.len() > 0
    &&& shipped.len() + batch.len() <= table.len()
    &&& shipped + batch == table.take((shipped.len() + batch.len()) as int)
}

proof fn lemma_batch_follows(
    table: Seq<RowView>,
    shipped: Seq<RowView>,
    watermark: i64,
    n: int,
    batch: Seq<RowView>,
)
    requires
        numbered(table),
        in_step(table, shipped, watermark),
        0 <= n <= table.len(),
        batch == unshipped(table.take(n), watermark, BATCH_SIZE as int),
        batch.len() > 0,
    ensures
        follows(table, shipped, batch),
{
    let k = shipped.len() as int;
    lemma_rows_beyond(table, k, n);
    assert(k < n);
    assert(batch =~= table.subrange(k, k + batch.len()));
    assert(shipped + batch =~= table.take(k + batch.len()));
}

/// Every row is shipped once, in the order of the ids and without a gap: whatever happens, over any
/// number of connections, the rows of the batches that went out are together a beginning of their
/// table, and the watermark is the id of the last of them.
pub proof fn rows_are_shipped_once_and_in_order(
    secret: Seq<u8>,
    events: Seq<EventView>,
    feeds: Seq<RowView>,
    books: Seq<RowView>,
)
    requires
        numbered(feeds),
        numbered(books),
        forall|i: int|
            0 <= i < events.len() ==> run_of(secret, #[trigger] events.take(i)).answered(
                events[i],
                feeds,
                books,
            ),
    ensures
        ({
            let run = run_of(secret, events);
            &&& run.feeds.len() <= feeds.len()
            &&& run.feeds == feeds.take(run.feeds.len() as int)
            &&& run.relay.feeds == reached(run.feeds)
            &&& run.books.len() <= books.len()
            &&& run.books == books.take(run.books.len() as int)
            &&& run.relay.books == reached(run.books)
        }),
{
    lemma_run_in_step(secret, events, feeds, books);
}

proof fn lemma_run_in_step(
    secret: Seq<u8>,
    events: Seq<EventView>,
    feeds: Seq<RowView>,
    books: Seq<RowView>,
)
    requires
        numbered(feeds),
        numbered(books),
        forall|i: int|
            0 <= i < events.len() ==> run_of(secret, #[trigger] events.take(i)).answered(
                events[i],
                feeds,
                books,
            ),
    ensures
        ({
            let run = run_of(secret, events);
            &&& in_step(feeds, run.feeds, run.relay.feeds)
            &&& in_step(books, run.books, run.relay.books)
            &&& run.relay.phase matches Phase::SendFeeds(last) ==> follows(
                feeds,
                run.feeds,
                run.batch,
            ) && last == run.batch.last().id
            &&& run.relay.phase matches Phase::SendBooks(last) ==> follows(
                books,
                run.books,
                run.batch,
            ) && last == run.batch.last().id
        }),
    decreases events.len(),
{
    let run = run_of(secret, events);
    if events.len() == 0 {
        assert(run.feeds =~= feeds.take(0));
        assert(run.books =~= books.take(0));
    } else {
        let earlier = events.drop_last();
        let event = events.last();
        assert forall|i: int| 0 <= i < earlier.len() implies run_of(
            secret,
            #[trigger] earlier.take(i),
        ).answered(earlier[i], feeds, books) by {
            assert(earlier.take(i) =~= events.take(i));
        }
        lemma_run_in_step(secret, earlier, feeds, books);
        let before = run_of(secret, earlier);
        assert(earlier =~= events.take(events.len() - 1));
        assert(before.answered(event, feeds, books));
        match (before.relay.phase, event) {
            (Phase::ReadFeeds, EventView::Rows(rows)) => {
                let n = choose|n: int|
                    0 <= n <= feeds.len() && rows == unshipped(
                        #[trigger] feeds.take(n),
                        before.relay.feeds,
                        BATCH_SIZE as int,
                    );
                if rows.len() > 0 {
                    lemma_batch_follows(feeds, before.feeds, before.relay.feeds, n, rows);
                }
            },
            (Phase::ReadBooks, EventView::Rows(rows)) => {
                let n = choose|n: int|
                    0 <= n <= books.len() && rows == unshipped(
                        #[trigger] books.take(n),
                        before.relay.books,
                        BATCH_SIZE as int,
                    );
                if rows.len() > 0 {
                    lemma_batch_follows(books, before.books, before.relay.books, n, rows);
                }
            },
            _ => {},
        }
    }
}

/// A refused handshake opens no session: the relay waits and connects again.
pub proof fn refused_handshake_opens_nothing(relay: RelayView, event: EventView)
    requires
        relay.phase == Phase::Verdict,
        event == EventView::Close || event == EventView::NoMessage,
    ensures
        relay.after(event).key is None,
        relay.after(event).phase == Phase::Backoff,
        relay.after(event).after(EventView::Waited).phase == Phase::Connect,
{
}

/// The relay enters a phase in which it ships rows only from one in which it is authenticated.
pub proof fn rows_are_shipped_after_the_handshake(relay: RelayView, event: EventView)
    requires
        relay.valid(),
        relay.after(event).phase is SendFeeds || relay.after(event).phase is SendBooks,
    ensures
        relay.authenticated(),
        relay.after(event).key == Some(session_key(relay.secret, relay.nonce)),
{
}

/// Whatever happens, a request to stop ends the relay for good.
pub proof fn stop_is_final(relay: RelayView, event: EventView)
    ensures
        relay.after(EventView::Stop).phase == Phase::Done,
        relay.after(EventView::Stop).after(event).phase == Phase::Done,
{
}

/// Rows leave encrypted only: what the relay sends is either its answer to the server's challenge
/// or a frame under the session key, which says the rows that were read.
pub proof fn what_leaves_is_sealed(before: RelayView, event: EventView, action: Action)
    requires
        before.valid(),
        before.after(event).wants(before, event, action),
        action is Send,
    ensures
        ({
            let after = before.after(event);
            let bytes = action->Send_0@;
            ||| after.phase == Phase::Respond && accepts(after.secret, after.nonce, bytes)
            ||| event matches EventView::Rows(rows) && frame_plaintext(
                session_key(after.secret, after.nonce),
                bytes,
            ) == Some(
                batch_payload(
                    if after.phase is SendFeeds {
                        "feeds"@
                    } else {
                        "books"@
                    },
                    rows,
                ),
            )
        }),
{
}

/// A session key is 32 bytes of HKDF under the protocol's own name, salted with the server's nonce.
pub proof fn session_keys_are_bound_to_the_protocol(secret: Seq<u8>, nonce: Seq<u8>)
    ensures
        session_key(secret, nonce) == hkdf_sha256(
            nonce,
            secret,
            encode_utf8("mantis-ws-v1"@),
            32,
        ),
{
}

/// A frame is a nonce of 12 bytes and what was sealed under it, at least a tag of 16: it is read
/// under its own nonce, and what is shorter is not read.
pub proof fn frames_carry_their_nonce(
    key: Seq<u8>,
    nonce: Seq<u8>,
    sealed: Seq<u8>,
    plaintext: Seq<u8>,
)
    requires
        nonce.len() == 12,
    ensures
        sealed.len() >= 16 ==> frame_plaintext(key, nonce + sealed) == gcm_open(key, nonce, sealed),
        sealed.len() < 16 ==> frame_plaintext(key, nonce + sealed) is None,
        frame_of(key, nonce, plaintext).take(12) == nonce,
        frame_of(key, nonce, plaintext).skip(12) == gcm_seal(key, nonce, plaintext),
{
    assert((nonce + sealed).take(12) =~= nonce);
    assert((nonce + sealed).skip(12) =~= sealed);
    let frame = frame_of(key, nonce, plaintext);
    assert(frame.take(12) =~= nonce);
    assert(frame.skip(12) =~= gcm_seal(key, nonce, plaintext));
}

/// The handshake takes one way: a connection, a nonce of 32 bytes, an answer that was sent, and a
/// message that is no close. Then there is a session for this nonce and the shared secret. Anything
/// else on the way ends the connection.
pub proof fn handshake_takes_one_way(relay: RelayView, event: EventView)
    requires
        event != EventView::Stop,
    ensures
        relay.phase == Phase::Connect ==> {
            let after = relay.after(event);
            &&& event == EventView::Connected ==> after.phase == Phase::Nonce
            &&& event != EventView::Connected ==> after.phase == Phase::Backoff
        },
        relay.phase == Phase::Nonce ==> {
            let after = relay.after(event);
            match event {
                EventView::Binary(data) => if data.len() == 32 {
                    after.phase == Phase::Respond && after.nonce == data && after.secret
                        == relay.secret
                } else {
                    after.phase == Phase::Backoff
                },
                _ => after.phase == Phase::Backoff,
            }
        },
        relay.phase == Phase::Respond ==> {
            let after = relay.after(event);
            &&& event == EventView::Sent ==> after.phase == Phase::Verdict && after.nonce
                == relay.nonce
            &&& event != EventView::Sent ==> after.phase == Phase::Backoff
        },
        relay.phase == Phase::Verdict ==> {
            let after = relay.after(event);
            if event is Binary || event is Other {
                after.phase == Phase::Idle && after.key == Some(
                    session_key(relay.secret, relay.nonce),
                )
            } else {
                after.phase == Phase::Backoff && after.key is None
            }
        },
{
}

/// A session goes on as long as the peer does: a poll looks for feed rows, a frame under the
/// session's key is read and one under another is the end, as are a close and a stream that ends.
pub proof fn sessions_last_while_frames_are_read(relay: RelayView, event: EventView, key: Seq<u8>)
    requires
        relay.phase == Phase::Idle,
        relay.key == Some(key),
        event != EventView::Stop,
    ensures
        ({
            let after = relay.after(event);
            &&& event == EventView::Tick ==> after.phase == Phase::ReadFeeds && after.key == Some(
                key,
            )
            &&& event == EventView::Close || event == EventView::NoMessage ==> after.phase
                == Phase::Backoff && after.key is None
            &&& event matches EventView::Binary(frame) ==> {
                &&& frame_plaintext(key, frame) is Some ==> after == relay
                &&& frame_plaintext(key, frame) is None ==> after.phase == Phase::Backoff
                    && after.key is None
            }
            &&& !(event is Tick) && !(event is Close) && !(event is NoMessage) && !(event is Binary)
                ==> after == relay
        }),
{
}

/// A poll looks for feeds and then for books. Rows that are found are sent, up to the last of them;
/// where none are, or the read fails, the poll goes on. What was sent moves the watermark of its
/// own table only, and a send that fails moves none.
pub proof fn polls_look_for_feeds_then_books(
    relay: RelayView,
    rows: Seq<RowView>,
    event: EventView,
)
    requires
        event != EventView::Stop,
    ensures
        relay.phase == Phase::ReadFeeds && !(event is Rows) ==> relay.after(event) == relay.at(
            Phase::ReadBooks,
        ),
        relay.phase == Phase::ReadBooks && !(event is Rows) ==> relay.after(event) == relay.at(
            Phase::Idle,
        ),
        relay.phase is SendFeeds && !(event is Sent) ==> relay.after(event).phase == Phase::Backoff
            && relay.after(event).key is None && relay.after(event).feeds == relay.feeds,
        relay.phase is SendBooks && !(event is Sent) ==> relay.after(event).phase == Phase::Backoff
            && relay.after(event).key is None && relay.after(event).books == relay.books,
        relay.phase == Phase::Backoff && !(event is Waited) ==> relay.after(event) == relay,
        relay.phase == Phase::ReadFeeds ==> {
            &&& relay.after(EventView::ReadFailed).phase == Phase::ReadBooks
            &&& relay.after(EventView::Rows(Seq::empty())).phase == Phase::ReadBooks
            &&& rows.len() > 0 && batch_payload("feeds"@, rows).len() <= PLAINTEXT_MAX
                ==> relay.after(EventView::Rows(rows)).phase == Phase::SendFeeds(
                rows[rows.len() - 1].id,
            )
        },
        relay.phase == Phase::ReadBooks ==> {
            &&& relay.after(EventView::ReadFailed).phase == Phase::Idle
            &&& relay.after(EventView::Rows(Seq::empty())).phase == Phase::Idle
            &&& rows.len() > 0 && batch_payload("books"@, rows).len() <= PLAINTEXT_MAX
                ==> relay.after(EventView::Rows(rows)).phase == Phase::SendBooks(
                rows[rows.len() - 1].id,
            )
        },
        relay.phase matches Phase::SendFeeds(last) ==> {
            let sent = relay.after(EventView::Sent);
            &&& sent.phase == Phase::ReadBooks && sent.feeds == last && sent.books == relay.books
            &&& sent.key == relay.key
        },
        relay.phase matches Phase::SendBooks(last) ==> {
            let sent = relay.after(EventView::Sent);
            &&& sent.phase == Phase::Idle && sent.books == last && sent.feeds == relay.feeds
            &&& sent.key == relay.key
        },
        relay.phase == Phase::Backoff ==> relay.after(EventView::Waited).phase == Phase::Connect,
{
}

/// Each phase asks for one thing: to connect, to receive, to answer the nonce with its code, to
/// look for at most a hundred rows beyond the watermark of their own table, to wait, or to quit.
pub proof fn each_phase_asks_for_one_thing(
    before: RelayView,
    event: EventView,
    after: RelayView,
    action: Action,
)
    requires
        after.wants(before, event, action),
    ensures
        after.phase == Phase::Connect ==> action is Connect,
        after.phase == Phase::Nonce || after.phase == Phase::Verdict ==> action is Receive,
        after.phase == Phase::Respond ==> (action matches Action::Send(bytes) && bytes@
            == hmac_sha256(after.secret, after.nonce)),
        after.phase == Phase::ReadFeeds ==> (action matches Action::ReadFeeds(mark, limit) && mark
            == after.feeds && limit == 100),
        after.phase == Phase::ReadBooks ==> (action matches Action::ReadBooks(mark, limit) && mark
            == after.books && limit == 100),
        after.phase == Phase::Idle ==> action is Listen,
        after.phase == Phase::Idle && before.phase == Phase::Idle ==> (event
            matches EventView::Binary(frame) ==> opt_text(action->Listen_0) == acknowledged(
            parsed_bytes(frame_plaintext(after.key->0, frame)->0),
        )),
        after.phase == Phase::Idle && !(before.phase == Phase::Idle && event is Binary)
            ==> action->Listen_0 is None,
        after.phase == Phase::Backoff ==> action is Wait,
        after.phase == Phase::Done ==> action is Quit,
        after.phase is SendFeeds ==> (event matches EventView::Rows(rows) && action
            matches Action::Send(bytes) && frame_plaintext(after.key->0, bytes@) == Some(
            batch_payload("feeds"@, rows),
        )),
        after.phase is SendBooks ==> (event matches EventView::Rows(rows) && action
            matches Action::Send(bytes) && frame_plaintext(after.key->0, bytes@) == Some(
            batch_payload("books"@, rows),
        )),
{
}

} // verus!
