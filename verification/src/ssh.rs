//! Authorized SSH keys (reading an `ssh-ed25519` public key line) and the
//! server's answers to the events of a connection.

use vstd::prelude::*;

use crate::text::{is_space, trim_window, trimmed};
use crate::wireguard::config::{b64_byte, b64_val};

verus! {

/// Requests to the SSH server task.
#[derive(Clone, Copy, PartialEq, Eq, Structural)]
pub enum SshCommand {
    Enable,
    Disable,
}

/// `"ssh-ed25519 "`, the optional start of a key line.
pub const KEY_LINE_PREFIX: [u8; 12] = [115, 115, 104, 45, 101, 100, 50, 53, 53, 49, 57, 32];
/// `"ssh-ed25519"`, the key type inside the key blob.
pub const KEY_TYPE: [u8; 11] = [115, 115, 104, 45, 101, 100, 50, 53, 53, 49, 57];

/// End of `[0, b)` once trailing `=` padding is dropped.
pub open spec fn unpadded_len(s: Seq<u8>, b: int) -> int
    decreases b,
{
    if b > 0 && s[b - 1] == 61 {
        unpadded_len(s, b - 1)
    } else {
        b
    }
}

/// Number of bytes `n` base64 symbols decode to.
pub open spec fn decoded_len(n: int) -> int {
    3 * (n / 4) + 3 * (n % 4) / 4
}

/// The bytes of unpadded base64 text, when every symbol is in the
/// alphabet.
pub open spec fn b64_decode_text(s: Seq<u8>) -> Option<Seq<u8>> {
    let n = unpadded_len(s, s.len() as int);
    let t = s.subrange(0, n);
    if forall|i: int| 0 <= i < n ==> b64_val(#[trigger] s[i]) < 64 {
        Some(Seq::new(decoded_len(n) as nat, |j: int| b64_byte(t, j)))
    } else {
        None
    }
}

proof fn lemma_unpadded_bounds(s: Seq<u8>, b: int)
    requires
        0 <= b <= s.len(),
    ensures
        0 <= unpadded_len(s, b) <= b,
    decreases b,
{
    if b > 0 && s[b - 1] == 61 {
        lemma_unpadded_bounds(s, b - 1);
    }
}

fn b64_sym(c: u8) -> (r: u8)
    ensures
        r == b64_val(c),
{
    if 65 <= c && c <= 90 {
        c - 65
    } else if 97 <= c && c <= 122 {
        c - 71
    } else if 48 <= c && c <= 57 {
        c + 4
    } else if c == 43 {
        62
    } else if c == 47 {
        63
    } else {
        64
    }
}

/// Decodes base64 text without its padding; `None` at the first symbol
/// outside the alphabet.
pub fn simple_base64_decode(input: &[u8]) -> (r: Option<Vec<u8>>)
    ensures
        match b64_decode_text(input@) {
            Some(d) => r matches Some(v) && v@ == d,
            None => r is None,
        },
{
    let len = input.len();
    let mut n = len;
    while n > 0 && input[n - 1] == 61
        invariant
            n <= len == input@.len(),
            unpadded_len(input@, len as int) == unpadded_len(input@, n as int),
        decreases n,
    {
        n = n - 1;
    }
    proof {
        lemma_unpadded_bounds(input@, len as int);
    }
    let mut i: usize = 0;
    while i < n
        invariant
            n <= len == input@.len(),
            n == unpadded_len(input@, len as int),
            i <= n,
            forall|k: int| 0 <= k < i ==> b64_val(#[trigger] input@[k]) < 64,
        decreases n - i,
    {
        if b64_sym(input[i]) >= 64 {
            return None;
        }
        i = i + 1;
    }
    let ghost t = input@.subrange(0, n as int);
    let count = 3 * (n / 4) + 3 * (n % 4) / 4;
    let mut out: Vec<u8> = Vec::new();
    let mut j: usize = 0;
    while j < count
        invariant
            n <= len == input@.len(),
            n == unpadded_len(input@, len as int),
            t == input@.subrange(0, n as int),
            forall|k: int| 0 <= k < n ==> b64_val(#[trigger] input@[k]) < 64,
            count == decoded_len(n as int),
            j <= count,
            out@.len() == j,
            forall|k: int| 0 <= k < j ==> out@[k] == b64_byte(t, k),
        decreases count - j,
    {
        let g = j / 3;
        let rr = j % 3;
        assert(4 * g + rr + 1 < n) by (nonlinear_arith)
            requires
                j < 3 * (n / 4) + 3 * (n % 4) / 4,
                g == j / 3,
                rr == j % 3,
        ;
        let byte = if rr == 0 {
            let v0 = b64_sym(input[4 * g]);
            let v1 = b64_sym(input[4 * g + 1]);
            v0 * 4 + v1 / 16
        } else if rr == 1 {
            let v1 = b64_sym(input[4 * g + 1]);
            let v2 = b64_sym(input[4 * g + 2]);
            (v1 % 16) * 16 + v2 / 4
        } else {
            let v2 = b64_sym(input[4 * g + 2]);
            let v3 = b64_sym(input[4 * g + 3]);
            (v2 % 4) * 64 + v3
        };
        assert(byte == b64_byte(t, j as int));
        out.push(byte);
        j = j + 1;
    }
    assert(out@ =~= Seq::new(decoded_len(n as int) as nat, |k: int| b64_byte(t, k)));
    Some(out)
}

/// First white space in `[a, b)`, or `b`.
pub open spec fn token_end(s: Seq<u8>, a: int, b: int) -> int
    decreases b - a,
{
    if a >= b {
        b
    } else if is_space(s[a]) {
        a
    } else {
        token_end(s, a + 1, b)
    }
}

/// Where the key text of a line lies: after an optional `ssh-ed25519 `,
/// trimmed.
pub open spec fn key_window(s: Seq<u8>) -> (int, int) {
    let start = if s.len() >= 12 && s.subrange(0, 12) == KEY_LINE_PREFIX@ {
        12
    } else {
        0
    };
    trimmed(s, start, s.len() as int)
}

/// The raw Ed25519 key of a public key line: the first word after the
/// optional `ssh-ed25519 ` decoded from base64, holding the key type
/// `ssh-ed25519` behind its 4-byte length, then a big-endian length of 32
/// and the 32 key bytes.
pub open spec fn ed25519_key_of(s: Seq<u8>) -> Option<Seq<u8>> {
    let (a, b) = key_window(s);
    if a >= b {
        None
    } else {
        match b64_decode_text(s.subrange(a, token_end(s, a, b))) {
            None => None,
            Some(d) => if d.len() < 51 || d.subrange(4, 15) != KEY_TYPE@ || !(d[15] == 0 && d[16] == 0 && d[17] == 0
                && d[18] == 32) {
                None
            } else {
                Some(d.subrange(19, 51))
            },
        }
    }
}

proof fn lemma_token_end_bounds(s: Seq<u8>, a: int, b: int)
    requires
        a <= b,
    ensures
        a <= token_end(s, a, b) <= b,
    decreases b - a,
{
    if a < b && !is_space(s[a]) {
        lemma_token_end_bounds(s, a + 1, b);
    }
}

/// Reads the raw key of an `ssh-ed25519` public key line.
pub fn parse_ed25519_pubkey(line: &[u8]) -> (r: Option<[u8; 32]>)
    ensures
        match ed25519_key_of(line@) {
            Some(k) => r matches Some(a) && a@ == k,
            None => r is None,
        },
{
    let n = line.len();
    let mut start: usize = 0;
    if n >= 12 {
        let mut same = true;
        let mut i: usize = 0;
        while i < 12
            invariant
                n == line@.len(),
                n >= 12,
                i <= 12,
                same <==> forall|k: int| 0 <= k < i ==> line@[k] == KEY_LINE_PREFIX@[k],
            decreases 12 - i,
        {
            if line[i] != KEY_LINE_PREFIX[i] {
                same = false;
            }
            i = i + 1;
        }
        if same {
            assert(line@.subrange(0, 12) =~= KEY_LINE_PREFIX@);
            start = 12;
        } else {
            assert(line@.subrange(0, 12) != KEY_LINE_PREFIX@) by {
                if line@.subrange(0, 12) == KEY_LINE_PREFIX@ {
                    assert forall|k: int| 0 <= k < 12 implies line@[k] == KEY_LINE_PREFIX@[k] by {
                        assert(line@.subrange(0, 12)[k] == line@[k]);
                    }
                }
            }
        }
    }
    proof {
        crate::wireguard::config::lemma_trimmed_in(line@, start as int, n as int);
    }
    let (a, b) = trim_window(line, start, n);
    if a >= b {
        return None;
    }
    let mut e = a;
    while e < b && !(line[e] == 32 || (9 <= line[e] && line[e] <= 13))
        invariant
            a <= e <= b <= n == line@.len(),
            token_end(line@, a as int, b as int) == token_end(line@, e as int, b as int),
        decreases b - e,
    {
        e = e + 1;
    }
    let token = &line[a..e];
    let decoded = match simple_base64_decode(token) {
        Some(d) => d,
        None => return None,
    };
    if decoded.len() < 51 {
        return None;
    }
    let ds = decoded.as_slice();
    if !crate::storage::bytes_eq(&ds[4..15], &KEY_TYPE) {
        return None;
    }
    if !(decoded[15] == 0 && decoded[16] == 0 && decoded[17] == 0 && decoded[18] == 32) {
        return None;
    }
    let key = crate::wireguard::bytes::copy_array::<32>(decoded.as_slice(), 19);
    Some(key)
}


// ───────────────────────────────────────────────────────────────────────
// AUTHORIZATION

/// The raw keys of the configured key lines, in order: lines that are
/// absent or do not read as a key are skipped, and at most `cap` keys are
/// kept.
pub open spec fn keys_of(lines: Seq<Option<Seq<u8>>>, cap: nat) -> Seq<Seq<u8>>
    decreases lines.len(),
{
    if lines.len() == 0 {
        seq![]
    } else {
        let before = keys_of(lines.drop_last(), cap);
        match lines.last() {
            Some(l) => match ed25519_key_of(l) {
                Some(k) => if before.len() < cap {
                    before.push(k)
                } else {
                    before
                },
                None => before,
            },
            None => before,
        }
    }
}

pub open spec fn lines_view(v: Seq<Option<Vec<u8>>>) -> Seq<Option<Seq<u8>>> {
    v.map_values(|o: Option<Vec<u8>>| match o {
        Some(l) => Some(l@),
        None => None,
    })
}

pub open spec fn keys_view(v: Seq<[u8; 32]>) -> Seq<Seq<u8>> {
    v.map_values(|k: [u8; 32]| k@)
}

/// The authorized keys of the configured key lines (see `keys_of`).
pub fn authorized_keys(lines: &Vec<Option<Vec<u8>>>, cap: usize) -> (r: Vec<[u8; 32]>)
    ensures
        keys_view(r@) == keys_of(lines_view(lines@), cap as nat),
{
    let mut keys: Vec<[u8; 32]> = Vec::new();
    let mut i: usize = 0;
    while i < lines.len()
        invariant
            i <= lines@.len(),
            keys_view(keys@) == keys_of(lines_view(lines@.take(i as int)), cap as nat),
        decreases lines.len() - i,
    {
        assert(lines_view(lines@.take(i + 1)).drop_last() =~= lines_view(lines@.take(i as int)));
        let ghost before = keys_view(keys@);
        match &lines[i] {
            Some(l) => match parse_ed25519_pubkey(l.as_slice()) {
                Some(k) => {
                    if keys.len() < cap {
                        keys.push(k);
                        assert(keys_view(keys@) =~= before.push(k@));
                    }
                },
                None => {},
            },
            None => {},
        }
        i = i + 1;
    }
    assert(lines@.take(lines@.len() as int) =~= lines@);
    keys
}

/// What the server is told of a connection.
pub enum SshEvent {
    /// The server asks for its host keys.
    Hostkeys,
    /// A client names its user.
    FirstAuth { user: Vec<u8> },
    /// A client offers a public key: its raw Ed25519 key, `None` when it
    /// cannot be read or is of another type.
    PubkeyAuth { offered: Option<[u8; 32]> },
    Authenticated,
    OpenSession,
    SessionShell,
    SessionExec,
    SessionPty,
    SessionEnv,
    Other,
}

/// The server's answer to an event.
#[derive(Clone, Copy, PartialEq, Eq, Structural)]
pub enum SshReply {
    SendHostKeys,
    /// The user is known: allow public-key authentication only.
    PubkeyOnly,
    /// Accept the offered key.
    Allow,
    /// Refuse the offered key and stop serving the connection.
    RejectAndClose,
    /// Accept the session channel.
    AcceptSession,
    /// Grant the request and start the shell on the opened session.
    StartShell,
    /// Grant the request.
    Succeed,
    Ignore,
}

/// A connection's state: whether a session channel is open with no shell
/// on it yet.
#[derive(Clone, Copy, PartialEq, Eq, Structural)]
pub struct SshConnection {
    pub session_open: bool,
}

/// The offered key is among `keys`.
pub open spec fn key_listed(keys: Seq<Seq<u8>>, offered: Seq<u8>) -> bool {
    exists|i: int| 0 <= i < keys.len() && keys[i] == offered
}

/// The server's next state and answer: the host keys on request; public
/// keys only (no password) for the configured `user`; a key is allowed
/// when listed, else refused and the connection dropped; a session is
/// accepted, and a shell or exec request starts the shell on it once.
pub open spec fn ssh_next(
    c: SshConnection,
    e: SshEvent,
    user: Seq<u8>,
    keys: Seq<Seq<u8>>,
) -> (SshConnection, SshReply) {
    match e {
        SshEvent::Hostkeys => (c, SshReply::SendHostKeys),
        SshEvent::FirstAuth { user: u } => (c, if u@ == user { SshReply::PubkeyOnly } else { SshReply::Ignore }),
        SshEvent::PubkeyAuth { offered } => (c, match offered {
            Some(k) => if key_listed(keys, k@) { SshReply::Allow } else { SshReply::RejectAndClose },
            None => SshReply::RejectAndClose,
        }),
        SshEvent::OpenSession => (SshConnection { session_open: true }, SshReply::AcceptSession),
        SshEvent::SessionShell => if c.session_open {
            (SshConnection { session_open: false }, SshReply::StartShell)
        } else {
            (c, SshReply::Succeed)
        },
        SshEvent::SessionExec => if c.session_open {
            (SshConnection { session_open: false }, SshReply::StartShell)
        } else {
            (c, SshReply::Succeed)
        },
        SshEvent::SessionPty => (c, SshReply::Succeed),
        SshEvent::SessionEnv => (c, SshReply::Succeed),
        _ => (c, SshReply::Ignore),
    }
}

fn listed(keys: &Vec<[u8; 32]>, offered: &[u8; 32]) -> (r: bool)
    ensures
        r == key_listed(keys_view(keys@), offered@),
{
    let mut i: usize = 0;
    while i < keys.len()
        invariant
            i <= keys@.len(),
            forall|j: int| 0 <= j < i ==> keys_view(keys@)[j] != offered@,
        decreases keys.len() - i,
    {
        if crate::storage::bytes_eq(&keys[i], offered) {
            assert(keys_view(keys@)[i as int] == offered@);
            return true;
        }
        i = i + 1;
    }
    false
}

/// One step of a connection (see `ssh_next`).
pub fn ssh_step(c: SshConnection, e: &SshEvent, user: &[u8], keys: &Vec<[u8; 32]>) -> (r: (SshConnection, SshReply))
    ensures
        r == ssh_next(c, *e, user@, keys_view(keys@)),
{
    match e {
        SshEvent::Hostkeys => (c, SshReply::SendHostKeys),
        SshEvent::FirstAuth { user: u } => (c, if crate::storage::bytes_eq(u.as_slice(), user) {
            SshReply::PubkeyOnly
        } else {
            SshReply::Ignore
        }),
        SshEvent::PubkeyAuth { offered } => (c, match offered {
            Some(k) => if listed(keys, k) {
                SshReply::Allow
            } else {
                SshReply::RejectAndClose
            },
            None => SshReply::RejectAndClose,
        }),
        SshEvent::OpenSession => (SshConnection { session_open: true }, SshReply::AcceptSession),
        SshEvent::SessionShell => if c.session_open {
            (SshConnection { session_open: false }, SshReply::StartShell)
        } else {
            (c, SshReply::Succeed)
        },
        SshEvent::SessionExec => if c.session_open {
            (SshConnection { session_open: false }, SshReply::StartShell)
        } else {
            (c, SshReply::Succeed)
        },
        SshEvent::SessionPty => (c, SshReply::Succeed),
        SshEvent::SessionEnv => (c, SshReply::Succeed),
        _ => (c, SshReply::Ignore),
    }
}

} // verus!
