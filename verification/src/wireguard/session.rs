//! Sessions and peers: the timing rules that decide when a session is
//! re-keyed, kept alive or dropped, and the framing of transport data.

use vstd::prelude::*;

use super::crypto::{aead_len_ok, chacha_seal, chacha_tag, CryptoError, EphemeralPrivateKey, Mac};
use super::handshake::HandshakeState;
use super::messages::{Cookie, DataHeader, SocketAddress, MSG_DATA};
use super::protocol::Tai64N;
use super::transport::{spec_nonce, DecryptionKey, EncryptionKey, Tag};

verus! {

/// After this many messages a session is re-keyed.
pub const REKEY_AFTER_MESSAGES: u64 = 0x1000_0000_0000_0000;
/// After this many messages a session refuses to send.
pub const REJECT_AFTER_MESSAGES: u64 = 0xFFFF_FFFF_FFFF_DFFF;
/// Seconds after which a session is re-keyed.
pub const REKEY_AFTER_TIME: u64 = 120;
/// Seconds after which a session refuses to send.
pub const REJECT_AFTER_TIME: u64 = 180;
/// Seconds during which a handshake is retried.
pub const REKEY_ATTEMPT_TIME: u64 = 90;
/// Seconds between handshake retries.
pub const REKEY_TIMEOUT: u64 = 5;
/// Seconds of silence after which a keepalive is sent.
pub const KEEPALIVE_TIMEOUT: u64 = 10;

/// Requests to the tunnel task.
#[derive(Clone, Copy, PartialEq, Eq, Structural)]
pub enum WgCommand {
    Enable,
    Disable,
}

/// Errors of the session layer.
#[derive(Clone, Copy, PartialEq, Eq, Structural)]
pub enum Error {
    InvalidMessage,
    DecryptionError,
    KeyExchangeError,
    Unaligned,
    Rejected,
}

pub open spec fn error_of(e: CryptoError) -> Error {
    match e {
        CryptoError::KeyExchangeError => Error::KeyExchangeError,
        CryptoError::DecryptionError => Error::DecryptionError,
        CryptoError::Rejected => Error::Rejected,
    }
}

impl From<CryptoError> for Error {
    fn from(value: CryptoError) -> (r: Self) {
        match value {
            CryptoError::KeyExchangeError => Error::KeyExchangeError,
            CryptoError::DecryptionError => Error::DecryptionError,
            CryptoError::Rejected => Error::Rejected,
        }
    }
}

impl vstd::std_specs::convert::FromSpecImpl<CryptoError> for Error {
    open spec fn obeys_from_spec() -> bool {
        true
    }

    open spec fn from_spec(v: CryptoError) -> Error {
        error_of(v)
    }
}

/// Index of a peer in the configuration.
#[derive(Clone, Copy, PartialEq, Eq, Structural)]
pub struct PeerId(pub u32);

impl PeerId {
    /// An index no peer has.
    pub fn sentinel() -> (r: Self)
        ensures
            r.0 == u32::MAX,
    {
        PeerId(u32::MAX)
    }
}

/// What a scheduled timer is for, and the session it concerns.
#[derive(Clone, Copy, PartialEq, Eq, Structural)]
pub enum TimerEntryType {
    InitAttempt { session_id: u32 },
    RekeyAttempt { session_id: u32 },
    Keepalive { session_id: u32 },
    ExpireTransport { session_id: u32 },
    ExpireHandshake { session_id: u32 },
}

/// A timer: when it fires and what for.
#[derive(Clone, Copy)]
pub struct TimerEntry {
    pub time: Tai64N,
    pub kind: TimerEntryType,
}

/// A handshake in flight: our ephemeral key and the transcript so far.
pub struct SessionHandshake {
    pub esk_i: EphemeralPrivateKey,
    pub state: HandshakeState,
}

/// An established session: the peer's index for it and the two keys.
pub struct SessionTransport {
    pub receiver: u32,
    pub encrypt: EncryptionKey,
    pub decrypt: DecryptionKey,
}

pub enum SessionState {
    Handshake(SessionHandshake),
    Transport(SessionTransport),
}

/// A session with a peer: when it started, when it last sent, and
/// whether a keepalive is already scheduled.
pub struct Session {
    pub peer: PeerId,
    pub started: Tai64N,
    pub sent: Tai64N,
    pub state: SessionState,
    pub keepalive_pending: bool,
}

/// Timestamps of a session that leave room for the longest delay.
pub open spec fn times_fit(s: &Session) -> bool {
    s.started.secs + REJECT_AFTER_TIME + 1 <= u64::MAX && s.sent.secs + REJECT_AFTER_TIME + 1 <= u64::MAX
}

impl Session {
    /// A handshake is sent again when the last attempt is older than the
    /// retry timeout and the handshake is still young enough.
    pub open spec fn spec_should_reinit(&self, now: Tai64N) -> bool {
        self.sent.spec_add_secs(REKEY_TIMEOUT).spec_lt(now) && now.spec_lt(
            self.started.spec_add_secs(REKEY_ATTEMPT_TIME),
        )
    }

    /// A session is re-keyed when it is old or has sent many messages.
    pub open spec fn spec_should_rekey(&self, now: Tai64N, counter: u64) -> bool {
        self.started.spec_add_secs(REKEY_AFTER_TIME).spec_lt(now) || counter >= REKEY_AFTER_MESSAGES
    }

    /// A keepalive is due after a silence.
    pub open spec fn spec_should_keepalive(&self, now: Tai64N) -> bool {
        self.sent.spec_add_secs(KEEPALIVE_TIMEOUT).spec_lt(now)
    }

    /// A session past its lifetime.
    pub open spec fn spec_should_expire(&self, now: Tai64N) -> bool {
        self.started.spec_add_secs(REJECT_AFTER_TIME).spec_lt(now)
    }

    /// A session that may no longer send.
    pub open spec fn spec_should_reject(&self, now: Tai64N, counter: u64) -> bool {
        self.spec_should_expire(now) || counter >= REJECT_AFTER_MESSAGES
    }

    pub fn should_reinit(&self, now: Tai64N, _hs: &SessionHandshake) -> (r: bool)
        requires
            times_fit(self),
        ensures
            r == self.spec_should_reinit(now),
    {
        self.sent.add_secs(REKEY_TIMEOUT).lt(&now) && now.lt(&self.started.add_secs(REKEY_ATTEMPT_TIME))
    }

    pub fn should_rekey(&self, now: Tai64N, ts: &SessionTransport) -> (r: bool)
        requires
            times_fit(self),
        ensures
            r == self.spec_should_rekey(now, ts.encrypt.spec_counter()),
    {
        self.started.add_secs(REKEY_AFTER_TIME).lt(&now) || ts.encrypt.counter() >= REKEY_AFTER_MESSAGES
    }

    pub fn should_keepalive(&self, now: Tai64N, _ts: &SessionTransport) -> (r: bool)
        requires
            times_fit(self),
        ensures
            r == self.spec_should_keepalive(now),
    {
        self.sent.add_secs(KEEPALIVE_TIMEOUT).lt(&now)
    }

    pub fn should_reject(&self, now: Tai64N, ts: &SessionTransport) -> (r: bool)
        requires
            times_fit(self),
        ensures
            r == self.spec_should_reject(now, ts.encrypt.spec_counter()),
    {
        self.should_expire(now) || ts.encrypt.counter() >= REJECT_AFTER_MESSAGES
    }

    pub fn should_expire(&self, now: Tai64N) -> (r: bool)
        requires
            times_fit(self),
        ensures
            r == self.spec_should_expire(now),
    {
        self.started.add_secs(REJECT_AFTER_TIME).lt(&now)
    }
}

/// What this host tracks of a peer between sessions.
#[derive(Clone, Copy)]
pub struct PeerState {
    pub endpoint: Option<SocketAddress>,
    pub latest_ts: [u8; 12],
    pub cookie: Option<Cookie>,
    pub last_sent_mac1: Mac,
    pub current_handshake: Option<u32>,
    pub current_transport: Option<u32>,
}

/// Header and tag of a transport message whose payload was encrypted in
/// place.
#[derive(Clone, Copy)]
pub struct EncryptedMetadata {
    pub header: DataHeader,
    pub tag: Tag,
    pub payload_len: usize,
}

/// A way to send on the session a completed handshake created.
#[derive(Clone, Copy, PartialEq, Eq, Structural)]
pub struct MessageEncrypter(pub u32);

impl PeerState {
    /// A peer not heard from yet.
    pub fn new(endpoint: Option<SocketAddress>) -> (r: Self)
        ensures
            r.endpoint == endpoint,
            r.latest_ts@ == Seq::new(12, |i: int| 0u8),
            r.cookie is None,
            r.last_sent_mac1@ == Seq::new(16, |i: int| 0u8),
            r.current_handshake is None,
            r.current_transport is None,
    {
        let latest_ts = [0u8; 12];
        let last_sent_mac1 = [0u8; 16];
        assert(latest_ts@ =~= Seq::new(12, |i: int| 0u8));
        assert(last_sent_mac1@ =~= Seq::new(16, |i: int| 0u8));
        PeerState {
            endpoint,
            latest_ts,
            cookie: None,
            last_sent_mac1,
            current_handshake: None,
            current_transport: None,
        }
    }

    /// Encrypts `payload` on the transport session `session` under its next
    /// counter and records the time of sending.
    pub fn force_encrypt(&mut self, session: &mut Session, payload: &mut [u8], now: Tai64N) -> (r: EncryptedMetadata)
        requires
            old(session).state matches SessionState::Transport(ts) && ts.encrypt.spec_counter() < u64::MAX,
            old(payload)@.len() == 0 || old(payload)@.len() % 16 == 0,
            aead_len_ok(old(payload)@.len()),
        ensures
            ({
                let ts = old(session).state->Transport_0;
                let n = ts.encrypt.spec_counter();
                let k = ts.encrypt.key();
                &&& r.header == DataHeader { msg_type: MSG_DATA, receiver: ts.receiver, counter: n }
                &&& r.tag.0@ == chacha_tag(k, spec_nonce(n), seq![], old(payload)@)
                &&& r.payload_len == old(payload)@.len()
                &&& final(payload)@ == chacha_seal(k, spec_nonce(n), seq![], old(payload)@)
                &&& final(payload)@.len() == old(payload)@.len()
                &&& final(session).sent == now
                &&& final(session).started == old(session).started
                &&& final(session).peer == old(session).peer
                &&& final(session).keepalive_pending == old(session).keepalive_pending
                &&& final(session).state matches SessionState::Transport(t2) && t2.receiver == ts.receiver
                    && t2.encrypt.key() == k && t2.encrypt.spec_counter() == n + 1 && t2.decrypt == ts.decrypt
            }),
            *final(self) == *old(self),
    {
        match &mut session.state {
            SessionState::Transport(ts) => {
                let n = ts.encrypt.counter();
                let payload_len = payload.len();
                let tag = ts.encrypt.encrypt(payload);
                let header = DataHeader { msg_type: MSG_DATA, receiver: ts.receiver, counter: n };
                session.sent = now;
                EncryptedMetadata { header, tag, payload_len }
            },
            SessionState::Handshake(_) => {
                assert(false);
                EncryptedMetadata {
                    header: DataHeader { msg_type: MSG_DATA, receiver: 0, counter: 0 },
                    tag: Tag([0u8; 16]),
                    payload_len: 0,
                }
            },
        }
    }

    /// An empty transport message that keeps the session alive.
    pub fn keepalive(&mut self, session: &mut Session, now: Tai64N) -> (r: EncryptedMetadata)
        requires
            old(session).state matches SessionState::Transport(ts) && ts.encrypt.spec_counter() < u64::MAX,
        ensures
            ({
                let ts = old(session).state->Transport_0;
                let n = ts.encrypt.spec_counter();
                let k = ts.encrypt.key();
                &&& r.header == DataHeader { msg_type: MSG_DATA, receiver: ts.receiver, counter: n }
                &&& r.tag.0@ == chacha_tag(k, spec_nonce(n), seq![], seq![])
                &&& r.payload_len == 0
                &&& final(session).sent == now
                &&& final(session).started == old(session).started
                &&& final(session).peer == old(session).peer
                &&& final(session).keepalive_pending == old(session).keepalive_pending
                &&& final(session).state matches SessionState::Transport(t2) && t2.receiver == ts.receiver
                    && t2.encrypt.key() == k && t2.encrypt.spec_counter() == n + 1 && t2.decrypt == ts.decrypt
            }),
            *final(self) == *old(self),
    {
        let mut empty: [u8; 0] = [];
        assert(empty@ =~= seq![]);
        self.force_encrypt(session, &mut empty, now)
    }
}

} // verus!
