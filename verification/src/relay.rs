//! Syncthing relay (protocol v1) control messages, relay settings and
//! relay URL checks. The TCP tunnel itself runs outside the library.
use vstd::prelude::*;

use crate::error::{Result, SyncwebError};
use crate::identity::{iroh_key_is_valid, iroh_key_valid, DeviceId};
use crate::text::{chars_of, contains_chars, contains_seq, string_of, strip_prefix, strip_prefix_chars};

verus! {

/// Largest frame the relay tunnel carries.
pub const MAX_FRAME_SIZE: usize = 1048576;

#[derive(Clone, Copy, Debug)]
pub struct JoinRelayRequest {
    pub device_id: DeviceId,
}

#[derive(Clone, Copy, Debug)]
pub struct SessionInvitation {
    pub session_key: [u8; 32],
    pub server_socket: bool,
}

#[derive(Clone, Copy, Debug)]
pub struct JoinSessionRequest {
    pub session_key: [u8; 32],
    pub device_id: DeviceId,
}

/// A relay control message.
#[derive(Clone, Copy, Debug)]
pub enum RelayMessage {
    JoinRelayRequest(JoinRelayRequest),
    SessionInvitation(SessionInvitation),
    JoinSessionRequest(JoinSessionRequest),
    ResponseSuccess,
    ResponseNotFound,
    RelayFull,
}

/// The wire bytes of a message: a type tag, then its fields.
pub open spec fn encode_spec(m: RelayMessage) -> Seq<u8> {
    match m {
        RelayMessage::JoinRelayRequest(r) => seq![1u8] + r.device_id@,
        RelayMessage::SessionInvitation(i) => seq![2u8] + i.session_key@ + seq![
            if i.server_socket {
                1u8
            } else {
                0u8
            },
        ],
        RelayMessage::JoinSessionRequest(r) => seq![3u8] + r.session_key@ + r.device_id@,
        RelayMessage::ResponseSuccess => seq![4u8],
        RelayMessage::ResponseNotFound => seq![5u8],
        RelayMessage::RelayFull => seq![6u8],
    }
}

/// Whether bytes are the encoding of some message with valid device keys.
pub open spec fn decodable(b: Seq<u8>) -> bool {
    b.len() > 0 && {
        let tag = b[0];
        let body = b.subrange(1, b.len() as int);
        if tag == 1 {
            body.len() == 32 && iroh_key_valid(body)
        } else if tag == 2 {
            body.len() == 33 && body[32] <= 1
        } else if tag == 3 {
            body.len() == 64 && iroh_key_valid(body.subrange(32, 64))
        } else if tag == 4 || tag == 5 || tag == 6 {
            body.len() == 0
        } else {
            false
        }
    }
}

/// The device keys a message carries are valid node keys.
pub open spec fn keys_valid(m: RelayMessage) -> bool {
    match m {
        RelayMessage::JoinRelayRequest(r) => iroh_key_valid(r.device_id@),
        RelayMessage::JoinSessionRequest(r) => iroh_key_valid(r.device_id@),
        _ => true,
    }
}

fn push_all(dst: &mut Vec<u8>, src: &[u8])
    ensures
        final(dst)@ == old(dst)@ + src@,
{
    let ghost start = dst@;
    let mut i: usize = 0;
    while i < src.len()
        invariant
            i <= src.len(),
            dst@ == start + src@.subrange(0, i as int),
        decreases src.len() - i,
    {
        dst.push(src[i]);
        i += 1;
        assert(dst@ =~= start + src@.subrange(0, i as int));
    }
    assert(src@.subrange(0, src@.len() as int) =~= src@);
}

fn array32_at(bytes: &[u8], from: usize) -> (k: [u8; 32])
    requires
        from + 32 <= bytes@.len(),
    ensures
        k@ == bytes@.subrange(from as int, from + 32),
{
    let mut k: [u8; 32] = [0u8; 32];
    let n = bytes.len();
    let mut i: usize = 0;
    while i < 32
        invariant
            i <= 32,
            n == bytes@.len(),
            from + 32 <= n,
            forall|q: int| 0 <= q < i ==> k@[q] == bytes@[from + q],
        decreases 32 - i,
    {
        k[i] = bytes[from + i];
        i += 1;
    }
    assert(k@ =~= bytes@.subrange(from as int, from + 32));
    k
}

fn device_id_from_bytes(bytes: &[u8], from: usize) -> (r: Result<DeviceId>)
    requires
        from + 32 <= bytes@.len(),
    ensures
        r is Ok <==> iroh_key_valid(bytes@.subrange(from as int, from + 32)),
        r is Ok ==> r->Ok_0@ == bytes@.subrange(from as int, from + 32),
        r is Err ==> r->Err_0 is InvalidIdentity,
{
    let key = array32_at(bytes, from);
    if !iroh_key_is_valid(&key) {
        return Err(SyncwebError::InvalidIdentity("relay device ID is not a valid node key".to_string()));
    }
    Ok(DeviceId::from_node_id(key))
}

impl RelayMessage {
    /// The message's wire bytes.
    pub fn encode(&self) -> (b: Vec<u8>)
        ensures
            b@ == encode_spec(*self),
            keys_valid(*self),
    {
        let mut bytes: Vec<u8> = Vec::new();
        match self {
            RelayMessage::JoinRelayRequest(request) => {
                bytes.push(1);
                push_all(&mut bytes, &request.device_id.node_id());
            },
            RelayMessage::SessionInvitation(invitation) => {
                bytes.push(2);
                push_all(&mut bytes, &invitation.session_key);
                bytes.push(if invitation.server_socket {
                    1
                } else {
                    0
                });
            },
            RelayMessage::JoinSessionRequest(request) => {
                bytes.push(3);
                push_all(&mut bytes, &request.session_key);
                push_all(&mut bytes, &request.device_id.node_id());
            },
            RelayMessage::ResponseSuccess => bytes.push(4),
            RelayMessage::ResponseNotFound => bytes.push(5),
            RelayMessage::RelayFull => bytes.push(6),
        }
        assert(bytes@ =~= encode_spec(*self));
        bytes
    }

    /// Decode wire bytes; the message found encodes back to them.
    pub fn decode(bytes: &[u8]) -> (r: Result<RelayMessage>)
        ensures
            r is Ok <==> decodable(bytes@),
            r is Ok ==> encode_spec(r->Ok_0) == bytes@ && keys_valid(r->Ok_0),
            r is Err ==> (r->Err_0 is InvalidConfig || r->Err_0 is InvalidIdentity),
    {
        if bytes.len() == 0 {
            return Err(SyncwebError::InvalidConfig("relay message is missing a type tag".to_string()));
        }
        let tag = bytes[0];
        let n = bytes.len() - 1;
        let ghost body = bytes@.subrange(1, bytes@.len() as int);
        if tag == 1 && n == 32 {
            let device_id = device_id_from_bytes(bytes, 1)?;
            let m = RelayMessage::JoinRelayRequest(JoinRelayRequest { device_id });
            assert(encode_spec(m) =~= bytes@);
            return Ok(m);
        }
        if tag == 2 && n == 33 {
            let flag = bytes[33];
            if flag > 1 {
                return Err(SyncwebError::InvalidConfig("invalid session invitation socket flag".to_string()));
            }
            let session_key = array32_at(bytes, 1);
            let m = RelayMessage::SessionInvitation(SessionInvitation { session_key, server_socket: flag == 1 });
            assert(encode_spec(m) =~= bytes@);
            return Ok(m);
        }
        if tag == 3 && n == 64 {
            let session_key = array32_at(bytes, 1);
            assert(body.subrange(32, 64) =~= bytes@.subrange(33, 65));
            let device_id = device_id_from_bytes(bytes, 33)?;
            let m = RelayMessage::JoinSessionRequest(JoinSessionRequest { session_key, device_id });
            assert(encode_spec(m) =~= bytes@);
            return Ok(m);
        }
        if n == 0 {
            if tag == 4 {
                assert(encode_spec(RelayMessage::ResponseSuccess) =~= bytes@);
                return Ok(RelayMessage::ResponseSuccess);
            }
            if tag == 5 {
                assert(encode_spec(RelayMessage::ResponseNotFound) =~= bytes@);
                return Ok(RelayMessage::ResponseNotFound);
            }
            if tag == 6 {
                assert(encode_spec(RelayMessage::RelayFull) =~= bytes@);
                return Ok(RelayMessage::RelayFull);
            }
        }
        Err(SyncwebError::InvalidConfig("invalid relay message encoding".to_string()))
    }
}

/// Every message with valid device keys encodes to bytes that decode.
pub proof fn law_encoded_messages_decode(m: RelayMessage)
    requires
        keys_valid(m),
    ensures
        decodable(encode_spec(m)),
{
    let b = encode_spec(m);
    match m {
        RelayMessage::JoinRelayRequest(r) => {
            r.device_id.lemma_len();
            assert(b.subrange(1, b.len() as int) =~= r.device_id@);
        },
        RelayMessage::SessionInvitation(i) => {
            assert(b.subrange(1, b.len() as int)[32] == b[33]);
        },
        RelayMessage::JoinSessionRequest(r) => {
            r.device_id.lemma_len();
            assert(b.subrange(1, b.len() as int).subrange(32, 64) =~= r.device_id@);
        },
        _ => {},
    }
}

/// Two messages with the same encoding carry the same tag and fields.
pub proof fn law_encoding_is_injective(a: RelayMessage, b: RelayMessage)
    requires
        encode_spec(a) == encode_spec(b),
    ensures
        match (a, b) {
            (RelayMessage::JoinRelayRequest(x), RelayMessage::JoinRelayRequest(y)) => x.device_id@ == y.device_id@,
            (RelayMessage::SessionInvitation(x), RelayMessage::SessionInvitation(y)) => x.session_key@ == y.session_key@
                && x.server_socket == y.server_socket,
            (RelayMessage::JoinSessionRequest(x), RelayMessage::JoinSessionRequest(y)) => x.session_key@ == y.session_key@
                && x.device_id@ == y.device_id@,
            (RelayMessage::ResponseSuccess, RelayMessage::ResponseSuccess) => true,
            (RelayMessage::ResponseNotFound, RelayMessage::ResponseNotFound) => true,
            (RelayMessage::RelayFull, RelayMessage::RelayFull) => true,
            _ => false,
        },
{
    let ea = encode_spec(a);
    assert(ea[0] == encode_spec(b)[0]);
    match a {
        RelayMessage::JoinRelayRequest(x) => x.device_id.lemma_len(),
        RelayMessage::JoinSessionRequest(x) => x.device_id.lemma_len(),
        _ => {},
    }
    match b {
        RelayMessage::JoinRelayRequest(y) => y.device_id.lemma_len(),
        RelayMessage::JoinSessionRequest(y) => y.device_id.lemma_len(),
        _ => {},
    }
    match (a, b) {
        (RelayMessage::JoinRelayRequest(x), RelayMessage::JoinRelayRequest(y)) => {
            x.device_id.lemma_len();
            y.device_id.lemma_len();
            assert(ea.subrange(1, 33) =~= x.device_id@);
            assert(encode_spec(b).subrange(1, 33) =~= y.device_id@);
        },
        (RelayMessage::SessionInvitation(x), RelayMessage::SessionInvitation(y)) => {
            assert(ea.subrange(1, 33) =~= x.session_key@);
            assert(encode_spec(b).subrange(1, 33) =~= y.session_key@);
            assert(ea[33] == encode_spec(b)[33]);
        },
        (RelayMessage::JoinSessionRequest(x), RelayMessage::JoinSessionRequest(y)) => {
            x.device_id.lemma_len();
            y.device_id.lemma_len();
            assert(ea.subrange(1, 33) =~= x.session_key@);
            assert(encode_spec(b).subrange(1, 33) =~= y.session_key@);
            assert(ea.subrange(33, 65) =~= x.device_id@);
            assert(encode_spec(b).subrange(33, 65) =~= y.device_id@);
        },
        _ => {},
    }
}

/// Whether a frame of `len` bytes may cross the relay tunnel.
pub fn check_frame_length(len: usize) -> (r: Result<()>)
    ensures
        r is Ok <==> len <= MAX_FRAME_SIZE,
        r is Err ==> r->Err_0 is InvalidConfig,
{
    if len > MAX_FRAME_SIZE {
        return Err(SyncwebError::InvalidConfig("relay frame exceeds 1048576 byte limit".to_string()));
    }
    Ok(())
}

/// Relay settings: relay URLs, the connection timeout in seconds, and
/// whether to fall back to relays at all.
#[derive(Clone, Debug)]
pub struct RelayConfig {
    pub relay_urls: Vec<String>,
    pub timeout: u64,
    pub auto_fallback: bool,
}

/// Relays are used when direct connections fail, unless configured off.
pub fn default_auto_fallback() -> (b: bool)
    ensures
        b,
{
    true
}

impl Default for RelayConfig {
    fn default() -> (c: Self)
        ensures
            c.relay_urls@.len() == 0,
            c.timeout == 10,
            c.auto_fallback,
    {
        RelayConfig { relay_urls: Vec::new(), timeout: 10, auto_fallback: default_auto_fallback() }
    }
}

/// The `host:port` of a `tcp://` relay URL.
pub open spec fn relay_address_spec(url: Seq<char>) -> Option<Seq<char>> {
    match strip_prefix(url, "tcp://"@) {
        Some(a) => if a.len() == 0 || contains_seq(a, "/"@) || !contains_seq(a, ":"@) {
            None
        } else {
            Some(a)
        },
        None => None,
    }
}

/// The `host:port` a relay URL names: it must use `tcp://`, and name a
/// host and a port without a path. (Every socket address has a `:`, so an
/// address without one has no port.)
pub fn relay_address(relay_url: &str) -> (r: Result<String>)
    ensures
        r is Ok <==> relay_address_spec(relay_url@) is Some,
        r is Ok ==> r->Ok_0@ == relay_address_spec(relay_url@)->0,
        r is Err ==> r->Err_0 is InvalidConfig,
{
    let v = chars_of(relay_url);
    let address = match strip_prefix_chars(&v, &chars_of("tcp://")) {
        Some(a) => a,
        None => return Err(SyncwebError::InvalidConfig("relay URL must use tcp://".to_string())),
    };
    if address.len() == 0 || contains_chars(&address, &chars_of("/")) {
        return Err(SyncwebError::InvalidConfig("relay URL must contain a host and port".to_string()));
    }
    if !contains_chars(&address, &chars_of(":")) {
        return Err(SyncwebError::InvalidConfig("relay URL must contain a port".to_string()));
    }
    Ok(string_of(&address))
}

/// Falls back to Syncthing relays when direct connections fail.
#[derive(Clone, Debug)]
pub struct TransportFallback {
    config: RelayConfig,
}

impl TransportFallback {
    pub closed spec fn config_spec(&self) -> RelayConfig {
        self.config
    }

    pub fn new(config: RelayConfig) -> (t: Self)
        ensures
            t.config_spec() == config,
    {
        TransportFallback { config }
    }

    pub fn config(&self) -> (c: &RelayConfig)
        ensures
            *c == self.config_spec(),
    {
        &self.config
    }

    /// Relays may be tried only when fallback is on.
    pub fn check_enabled(&self) -> (r: Result<()>)
        ensures
            r is Ok <==> self.config_spec().auto_fallback,
            r is Err ==> r->Err_0 is InvalidConfig,
    {
        if !self.config.auto_fallback {
            return Err(SyncwebError::InvalidConfig("Syncthing relay fallback is disabled".to_string()));
        }
        Ok(())
    }
}

impl Default for TransportFallback {
    fn default() -> (t: Self)
        ensures
            t.config_spec().relay_urls@.len() == 0,
            t.config_spec().timeout == 10,
            t.config_spec().auto_fallback,
    {
        TransportFallback { config: RelayConfig::default() }
    }
}

} // verus!
