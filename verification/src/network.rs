//! Networks: identifiers derived from names, creation options, members and
//! folders, the owner-signed member list, and network event names.
use vstd::prelude::*;

use crate::crypto::{blake3_digest, blake3_hash, hex_bytes, hex_decode, hex_encode, hex_text};
use crate::error::{Result, SyncwebError};
use crate::resilience::{bytes_eq, bytes_lt, dedup, dedup_ids, lemma_dedup_props, sort_ids, views32};
use crate::signature::{hex_signature_valid, public_key_hex, sign_hex, verify_hex};
use crate::text::{chars_of, concat_chars, decimal, decimal_chars, string_of, trim, trim_chars};
use vstd::utf8::encode_utf8;

verus! {

/// The node key that text names (`iroh_base::PublicKey::from_str`: 64 hex
/// or 52 base32 characters of a valid key).
pub uninterp spec fn iroh_key_text(text: Seq<char>) -> Option<Seq<u8>>;

/// `iroh_base::PublicKey::from_str`, handing back the key's bytes, or the
/// text of the crate's parse error. What that text says is not stated.
#[verifier::external_body]
pub(crate) fn iroh_parse_public_key(text: &str) -> (r: core::result::Result<[u8; 32], String>)
    ensures
        match r {
            Ok(k) => iroh_key_text(text@) == Some(k@),
            Err(_) => iroh_key_text(text@) is None,
        },
{
    match text.parse::<iroh_base::PublicKey>() {
        Ok(key) => Ok(*key.as_bytes()),
        Err(error) => Err(error.to_string()),
    }
}

/// `rand::random`: 32 random bytes; nothing is known of them.
#[verifier::external_body]
fn random_secret() -> [u8; 32] {
    rand::random()
}

/// Parse a node ID.
pub fn parse_public_key(value: &str) -> (r: Result<[u8; 32]>)
    ensures
        r is Ok <==> iroh_key_text(value@) is Some,
        r is Ok ==> r->Ok_0@ == iroh_key_text(value@)->0,
        r is Err ==> r->Err_0 is InvalidTicket,
{
    match iroh_parse_public_key(value) {
        Ok(k) => Ok(k),
        Err(_) => Err(SyncwebError::InvalidTicket("invalid node ID".to_string())),
    }
}

/// The identifier of a network named `name`: the digest of `network:` and
/// the name's UTF-8 bytes.
pub open spec fn network_id_of(name: Seq<char>) -> Seq<u8> {
    blake3_digest(encode_utf8("network:"@) + encode_utf8(name))
}

/// Stable identifier derived from a network name.
#[derive(Clone, Copy, Debug)]
pub struct NetworkId {
    bytes: [u8; 32],
}

impl View for NetworkId {
    type V = Seq<u8>;

    closed spec fn view(&self) -> Seq<u8> {
        self.bytes@
    }
}

fn concat_bytes(a: &[u8], b: &[u8]) -> (r: Vec<u8>)
    ensures
        r@ == a@ + b@,
{
    let mut r = crate::text::slice_bytes(a, 0, a.len());
    assert(r@ =~= a@);
    let mut i: usize = 0;
    while i < b.len()
        invariant
            i <= b.len(),
            r@ == a@ + b@.subrange(0, i as int),
        decreases b.len() - i,
    {
        r.push(b[i]);
        i += 1;
        assert(r@ =~= a@ + b@.subrange(0, i as int));
    }
    assert(b@.subrange(0, b@.len() as int) =~= b@);
    r
}

impl NetworkId {
    /// A network's identifier is 32 bytes.
    pub proof fn lemma_len(&self)
        ensures
            self@.len() == 32,
    {
    }

    /// The identifier of the network with this name.
    pub fn from_name(name: &str) -> (id: Self)
        ensures
            id@ == network_id_of(name@),
    {
        let seed = concat_bytes("network:".as_bytes(), name.as_bytes());
        NetworkId { bytes: blake3_hash(&seed) }
    }

    pub fn from_bytes(bytes: [u8; 32]) -> (id: Self)
        ensures
            id@ == bytes@,
    {
        NetworkId { bytes }
    }

    pub fn as_bytes(&self) -> (b: &[u8; 32])
        ensures
            b@ == self@,
    {
        &self.bytes
    }

    /// The identifier as lower-case hex.
    pub fn to_string(&self) -> (s: String)
        ensures
            s@ == hex_text(self@),
    {
        hex_encode(&self.bytes)
    }

    /// Parse a hex identifier of 32 bytes.
    pub fn from_str(value: &str) -> (r: Result<Self>)
        ensures
            r is Ok <==> (hex_bytes(value@) matches Some(b) && b.len() == 32),
            r is Ok ==> Some(r->Ok_0@) == hex_bytes(value@),
            r is Err ==> r->Err_0 is InvalidConfig,
    {
        let bytes = match hex_decode(value) {
            Ok(b) => b,
            Err(_) => return Err(SyncwebError::InvalidConfig("invalid network ID".to_string())),
        };
        if bytes.len() != 32 {
            return Err(SyncwebError::InvalidConfig("network ID must contain 32 bytes".to_string()));
        }
        let mut a: [u8; 32] = [0u8; 32];
        let mut i: usize = 0;
        while i < 32
            invariant
                i <= 32,
                bytes@.len() == 32,
                forall|q: int| 0 <= q < i ==> a@[q] == bytes@[q],
            decreases 32 - i,
        {
            a[i] = bytes[i];
            i += 1;
        }
        assert(a@ =~= bytes@);
        Ok(NetworkId { bytes: a })
    }
}

/// A network identifier's hex text parses back to it.
pub proof fn law_network_id_text_round_trip(id: NetworkId)
    ensures
        hex_bytes(hex_text(id@)) == Some(id@),
        id@.len() == 32,
{
    crate::resilience::lemma_hex_round_trip(id@);
    id.lemma_len();
}

/// The gossip topic of a network: the digest of `syncweb/net/` and the
/// identifier's hex text.
pub open spec fn network_topic_of(id: Seq<u8>) -> Seq<u8> {
    blake3_digest(encode_utf8("syncweb/net/"@) + encode_utf8(hex_text(id)))
}

/// The gossip topic of a network.
pub fn network_topic(id: &NetworkId) -> (t: [u8; 32])
    ensures
        t@ == network_topic_of(id@),
{
    let text = id.to_string();
    let seed = concat_bytes("syncweb/net/".as_bytes(), text.as_str().as_bytes());
    blake3_hash(&seed)
}

/// Options used when creating a network.
#[derive(Clone, Debug)]
pub struct NetworkOptions {
    pub label: String,
    pub invite_only: bool,
}

impl Default for NetworkOptions {
    fn default() -> (o: Self)
        ensures
            o.label@.len() == 0,
            !o.invite_only,
    {
        NetworkOptions { label: String::new(), invite_only: false }
    }
}

impl NetworkOptions {
    pub fn with_label(self, label: &str) -> (o: Self)
        ensures
            o.label@ == label@,
            o.invite_only == self.invite_only,
    {
        NetworkOptions { label: label.to_string(), ..self }
    }

    pub fn invite_only(self, invite_only: bool) -> (o: Self)
        ensures
            o.label == self.label,
            o.invite_only == invite_only,
    {
        NetworkOptions { invite_only, ..self }
    }
}

/// A named group of devices and synchronized folders; members and folders
/// are kept without repeats.
#[derive(Debug)]
pub struct Network {
    pub id: NetworkId,
    pub name: String,
    pub label: String,
    pub topic: [u8; 32],
    pub owner: [u8; 32],
    pub members: Vec<[u8; 32]>,
    pub folders: Vec<[u8; 32]>,
    pub shared_secret: Option<[u8; 32]>,
}

impl Network {
    /// A new network of one member, its owner, named by the trimmed name;
    /// an invite-only network gets a random shared secret.
    pub fn new(name: &str, owner: [u8; 32], options: NetworkOptions) -> (n: Self)
        ensures
            n.name@ == trim(name@),
            n.id@ == network_id_of(trim(name@)),
            n.topic@ == network_topic_of(n.id@),
            n.label == options.label,
            n.owner == owner,
            views32(n.members@) == seq![owner@],
            n.folders@.len() == 0,
            n.shared_secret is Some <==> options.invite_only,
    {
        let trimmed = string_of(&trim_chars(&chars_of(name)));
        let id = NetworkId::from_name(trimmed.as_str());
        let topic = network_topic(&id);
        let mut members: Vec<[u8; 32]> = Vec::new();
        members.push(owner);
        assert(views32(members@) =~= seq![owner@]);
        let shared_secret = if options.invite_only {
            Some(random_secret())
        } else {
            None
        };
        Network { id, name: trimmed, label: options.label, topic, owner, members, folders: Vec::new(), shared_secret }
    }

    /// Whether a node is a member.
    pub fn is_member(&self, node_id: &[u8; 32]) -> (b: bool)
        ensures
            b == views32(self.members@).contains(node_id@),
    {
        let mut i: usize = 0;
        while i < self.members.len()
            invariant
                i <= self.members@.len(),
                forall|k: int| 0 <= k < i ==> self.members@[k]@ != node_id@,
            decreases self.members.len() - i,
        {
            if bytes_eq(&self.members[i], node_id) {
                assert(views32(self.members@)[i as int] == node_id@);
                return true;
            }
            i += 1;
        }
        assert forall|k: int| 0 <= k < views32(self.members@).len() implies views32(self.members@)[k] != node_id@ by {
            assert(views32(self.members@)[k] == self.members@[k]@);
        }
        false
    }

    pub fn topic(&self) -> (t: [u8; 32])
        ensures
            t == self.topic,
    {
        self.topic
    }

    /// An invite-only network carries a shared secret.
    pub fn is_invite_only(&self) -> (b: bool)
        ensures
            b == self.shared_secret is Some,
    {
        self.shared_secret.is_some()
    }
}

/// Role of a member in the network.
#[derive(Clone, Copy, Debug, PartialEq, Eq, Structural)]
pub enum MemberRole {
    Admin,
    Member,
}

/// One member of the member list: the key's text, when it joined, its role.
#[derive(Clone, Debug)]
pub struct MemberEntry {
    pub key: String,
    pub joined_at: u64,
    pub role: MemberRole,
}

/// Network metadata stored in the membership document.
#[derive(Clone, Debug)]
pub struct NetworkInfo {
    pub name: String,
    pub label: String,
    pub created_at: u64,
}

/// The canonical, owner-signed list of network members.
#[derive(Clone, Debug)]
pub struct SignedMemberList {
    pub network_id: String,
    pub owner: String,
    pub sequence: u64,
    pub members: Vec<MemberEntry>,
    pub updated_at: u64,
    pub signature: String,
}

/// The bytes a member-list signature covers: a domain context, then the
/// list encoded without its signature.
pub open spec fn member_list_payload(unsigned: Seq<u8>) -> Seq<u8> {
    encode_utf8("syncweb/member-list/v1"@) + seq![0u8] + unsigned
}

fn member_list_payload_bytes(unsigned: &[u8]) -> (r: Vec<u8>)
    ensures
        r@ == member_list_payload(unsigned@),
{
    let mut ctx = crate::text::slice_bytes("syncweb/member-list/v1".as_bytes(), 0, "syncweb/member-list/v1".as_bytes().len());
    assert(ctx@ =~= encode_utf8("syncweb/member-list/v1"@));
    ctx.push(0u8);
    concat_bytes(&ctx, unsigned)
}


/// A lowercase hex digit.
pub open spec fn hex_lower_digit(n: u32) -> char {
    if n < 10 {
        ((n + 48) as u8) as char
    } else {
        ((n + 87) as u8) as char
    }
}

/// One character inside a JSON string, as `serde_json` writes it: quote,
/// backslash and control characters escaped, everything else as it is.
pub open spec fn json_escape_char(c: char) -> Seq<char> {
    if c == '"' {
        seq!['\\', '"']
    } else if c == '\\' {
        seq!['\\', '\\']
    } else if c == '\n' {
        seq!['\\', 'n']
    } else if c == '\r' {
        seq!['\\', 'r']
    } else if c == '\t' {
        seq!['\\', 't']
    } else if c == '\u{8}' {
        seq!['\\', 'b']
    } else if c == '\u{c}' {
        seq!['\\', 'f']
    } else if (c as u32) < 0x20 {
        seq!['\\', 'u', '0', '0', hex_lower_digit((c as u32) / 16), hex_lower_digit((c as u32) % 16)]
    } else {
        seq![c]
    }
}

/// The characters of a string inside JSON quotes.
pub open spec fn json_escape(s: Seq<char>) -> Seq<char>
    decreases s.len(),
{
    if s.len() == 0 {
        seq![]
    } else {
        json_escape(s.drop_last()) + json_escape_char(s.last())
    }
}

/// A JSON string literal.
pub open spec fn json_string(s: Seq<char>) -> Seq<char> {
    seq!['"'] + json_escape(s) + seq!['"']
}

/// A member as JSON: `{"key":..,"joined_at":..,"role":..}`.
pub open spec fn member_json(m: MemberEntry) -> Seq<char> {
    "{\"key\":"@ + json_string(m.key@) + ",\"joined_at\":"@ + decimal(m.joined_at as nat) + ",\"role\":"@ + match m.role {
        MemberRole::Admin => "\"Admin\""@,
        MemberRole::Member => "\"Member\""@,
    } + "}"@
}

/// The members as comma-separated JSON objects.
pub open spec fn members_json(ms: Seq<MemberEntry>) -> Seq<char>
    decreases ms.len(),
{
    if ms.len() == 0 {
        seq![]
    } else if ms.len() == 1 {
        member_json(ms[0])
    } else {
        members_json(ms.drop_last()) + ","@ + member_json(ms.last())
    }
}

/// The list as `serde_json` writes it with an empty signature: its fields
/// in declaration order.
pub open spec fn member_list_json(l: SignedMemberList) -> Seq<char> {
    "{\"network_id\":"@ + json_string(l.network_id@) + ",\"owner\":"@ + json_string(l.owner@) + ",\"sequence\":"@
        + decimal(l.sequence as nat) + ",\"members\":["@ + members_json(l.members@) + "],\"updated_at\":"@ + decimal(
        l.updated_at as nat,
    ) + ",\"signature\":\"\"}"@
}

/// The bytes a member-list signature is made over, after the context: the
/// list's JSON with an empty signature, in UTF-8.
pub open spec fn member_list_unsigned(l: SignedMemberList) -> Seq<u8> {
    encode_utf8(member_list_json(l))
}

fn hex_lower_digit_exec(n: u32) -> (c: char)
    requires
        n < 16,
    ensures
        c == hex_lower_digit(n),
{
    if n < 10 {
        ((n + 48) as u8) as char
    } else {
        ((n + 87) as u8) as char
    }
}

fn push_str(v: &mut Vec<char>, s: &str)
    ensures
        final(v)@ == old(v)@ + s@,
{
    let c = chars_of(s);
    let ghost start = v@;
    let mut i: usize = 0;
    while i < c.len()
        invariant
            i <= c@.len(),
            v@ == start + c@.subrange(0, i as int),
        decreases c.len() - i,
    {
        v.push(c[i]);
        i += 1;
        assert(v@ =~= start + c@.subrange(0, i as int));
    }
    assert(c@.subrange(0, c@.len() as int) =~= s@);
}

fn push_chars(v: &mut Vec<char>, c: &Vec<char>)
    ensures
        final(v)@ == old(v)@ + c@,
{
    let ghost start = v@;
    let mut i: usize = 0;
    while i < c.len()
        invariant
            i <= c@.len(),
            v@ == start + c@.subrange(0, i as int),
        decreases c.len() - i,
    {
        v.push(c[i]);
        i += 1;
        assert(v@ =~= start + c@.subrange(0, i as int));
    }
    assert(c@.subrange(0, c@.len() as int) =~= c@);
}

fn push_json_string(v: &mut Vec<char>, s: &str)
    ensures
        final(v)@ == old(v)@ + json_string(s@),
{
    let c = chars_of(s);
    let ghost start = v@;
    v.push('"');
    let mut i: usize = 0;
    while i < c.len()
        invariant
            i <= c@.len(),
            c@ == s@,
            v@ == start + seq!['"'] + json_escape(c@.subrange(0, i as int)),
        decreases c.len() - i,
    {
        let ch = c[i];
        let ghost before = v@;
        let code = ch as u32;
        if ch == '"' {
            v.push('\\');
            v.push('"');
        } else if ch == '\\' {
            v.push('\\');
            v.push('\\');
        } else if ch == '\n' {
            v.push('\\');
            v.push('n');
        } else if ch == '\r' {
            v.push('\\');
            v.push('r');
        } else if ch == '\t' {
            v.push('\\');
            v.push('t');
        } else if ch == '\u{8}' {
            v.push('\\');
            v.push('b');
        } else if ch == '\u{c}' {
            v.push('\\');
            v.push('f');
        } else if code < 0x20 {
            v.push('\\');
            v.push('u');
            v.push('0');
            v.push('0');
            v.push(hex_lower_digit_exec(code / 16));
            v.push(hex_lower_digit_exec(code % 16));
        } else {
            v.push(ch);
        }
        proof {
            let t = c@.subrange(0, i + 1);
            assert(t.drop_last() =~= c@.subrange(0, i as int));
            assert(t.last() == ch);
            assert(v@ =~= before + json_escape_char(ch));
        }
        i += 1;
    }
    assert(c@.subrange(0, c@.len() as int) =~= s@);
    v.push('"');
    assert(v@ =~= start + json_string(s@));
}

impl SignedMemberList {
    /// An empty, unsigned list for a network and its owner's key text,
    /// stamped now.
    pub fn new(network_id: &str, owner: &str) -> (l: Self)
        ensures
            l.network_id@ == network_id@,
            l.owner@ == owner@,
            l.sequence == 0,
            l.members@.len() == 0,
            l.signature@.len() == 0,
    {
        SignedMemberList {
            network_id: network_id.to_string(),
            owner: owner.to_string(),
            sequence: 0,
            members: Vec::new(),
            updated_at: crate::clock::current_epoch_seconds(),
            signature: String::new(),
        }
    }

    /// The unsigned list of a network's members, by ascending key, each
    /// named by its key's hex text; the owner is an admin, the others
    /// members.
    pub fn from_network(network: &Network) -> (l: Self)
        ensures
            l.network_id@ == hex_text(network.id@),
            l.owner@ == hex_text(network.owner@),
            l.sequence == 0,
            l.signature@.len() == 0,
            exists|keys: Seq<Seq<u8>>| {
                &&& keys.len() == l.members@.len()
                &&& keys.no_duplicates()
                &&& forall|x: Seq<u8>| keys.contains(x) <==> views32(network.members@).contains(x)
                &&& forall|i: int, j: int| 0 <= i < j < keys.len() ==> bytes_lt(#[trigger] keys[i], #[trigger] keys[j])
                &&& forall|i: int|
                    0 <= i < keys.len() ==> (#[trigger] l.members@[i]).key@ == hex_text(keys[i]) && l.members@[i].role == (
                    if keys[i] == network.owner@ {
                        MemberRole::Admin
                    } else {
                        MemberRole::Member
                    }) && l.members@[i].joined_at == l.updated_at
            },
    {
        let now = crate::clock::current_epoch_seconds();
        let unique = dedup_ids(&network.members);
        proof {
            lemma_dedup_props(views32(network.members@));
        }
        let sorted = sort_ids(unique);
        let mut members: Vec<MemberEntry> = Vec::new();
        let mut i: usize = 0;
        while i < sorted.len()
            invariant
                i <= sorted@.len(),
                members@.len() == i,
                forall|q: int|
                    0 <= q < i ==> (#[trigger] members@[q]).key@ == hex_text(sorted@[q]@) && members@[q].role == (
                    if sorted@[q]@ == network.owner@ {
                        MemberRole::Admin
                    } else {
                        MemberRole::Member
                    }) && members@[q].joined_at == now,
            decreases sorted.len() - i,
        {
            let key = sorted[i];
            let role = if bytes_eq(&key, &network.owner) {
                MemberRole::Admin
            } else {
                MemberRole::Member
            };
            members.push(MemberEntry { key: hex_encode(&key), joined_at: now, role });
            i += 1;
        }
        let l = SignedMemberList {
            network_id: network.id.to_string(),
            owner: hex_encode(&network.owner),
            sequence: 0,
            members,
            updated_at: now,
            signature: String::new(),
        };
        proof {
            let keys = views32(sorted@);
            assert(keys.len() == l.members@.len());
            assert forall|q: int| 0 <= q < keys.len() implies (#[trigger] l.members@[q]).key@ == hex_text(keys[q]) by {
                assert(keys[q] == sorted@[q]@);
            }
        }
        l
    }

    /// The list as JSON with an empty signature, in UTF-8: the bytes its
    /// signature is made over, after the context.
    pub fn unsigned_bytes(&self) -> (b: Vec<u8>)
        ensures
            b@ == member_list_unsigned(*self),
    {
        let mut v: Vec<char> = Vec::new();
        push_str(&mut v, "{\"network_id\":");
        push_json_string(&mut v, self.network_id.as_str());
        push_str(&mut v, ",\"owner\":");
        push_json_string(&mut v, self.owner.as_str());
        push_str(&mut v, ",\"sequence\":");
        push_chars(&mut v, &decimal_chars(self.sequence));
        push_str(&mut v, ",\"members\":[");
        let ghost head = v@;
        let ms = &self.members;
        let mut i: usize = 0;
        while i < ms.len()
            invariant
                i <= ms@.len(),
                *ms == self.members,
                v@ == head + members_json(ms@.take(i as int)),
            decreases ms.len() - i,
        {
            let ghost before = v@;
            if i > 0 {
                push_str(&mut v, ",");
            }
            let m = &ms[i];
            push_str(&mut v, "{\"key\":");
            push_json_string(&mut v, m.key.as_str());
            push_str(&mut v, ",\"joined_at\":");
            push_chars(&mut v, &decimal_chars(m.joined_at));
            push_str(&mut v, ",\"role\":");
            match m.role {
                MemberRole::Admin => push_str(&mut v, "\"Admin\""),
                MemberRole::Member => push_str(&mut v, "\"Member\""),
            }
            push_str(&mut v, "}");
            proof {
                let t = ms@.take(i + 1);
                assert(t.drop_last() =~= ms@.take(i as int));
                assert(t.last() == *m);
                if i == 0 {
                    assert(ms@.take(0) =~= Seq::<MemberEntry>::empty());
                    assert(v@ =~= before + member_json(*m));
                } else {
                    assert(v@ =~= before + ","@ + member_json(*m));
                }
            }
            i += 1;
        }
        assert(ms@.take(ms@.len() as int) =~= ms@);
        push_str(&mut v, "],\"updated_at\":");
        push_chars(&mut v, &decimal_chars(self.updated_at));
        push_str(&mut v, ",\"signature\":\"\"}");
        assert(v@ =~= member_list_json(*self));
        let text = string_of(&v);
        let b = text.as_str().as_bytes();
        let r = crate::text::slice_bytes(b, 0, b.len());
        assert(r@ =~= member_list_unsigned(*self));
        r
    }

    /// Sign the list with the owner's 32-byte secret key, over the context
    /// and the list's JSON without its signature.
    pub fn sign(&mut self, secret: &[u8; 32]) -> (r: Result<()>)
        ensures
            r is Ok <==> old(self).owner@ == hex_text(crate::crypto::ed25519_public_of(secret@)),
            r is Err ==> r->Err_0 is InvalidSignature && *final(self) == *old(self),
            r is Ok ==> final(self).signature@ == hex_text(
                crate::crypto::ed25519_signature_of(secret@, member_list_payload(member_list_unsigned(*old(self)))),
            ),
            r is Ok ==> signature_made(secret@, member_list_payload(member_list_unsigned(*old(self)))),
            final(self).network_id == old(self).network_id,
            final(self).owner == old(self).owner,
            final(self).sequence == old(self).sequence,
            final(self).members == old(self).members,
            final(self).updated_at == old(self).updated_at,
    {
        let owner_hex = public_key_hex(secret);
        if !crate::text::chars_eq(&chars_of(self.owner.as_str()), &chars_of(owner_hex.as_str())) {
            return Err(SyncwebError::InvalidSignature("signing key does not match owner field".to_string()));
        }
        let unsigned = self.unsigned_bytes();
        let payload = member_list_payload_bytes(&unsigned);
        self.signature = sign_hex(secret, &payload);
        Ok(())
    }

    /// Verify the owner's signature over the context and the list's JSON
    /// without its signature.
    pub fn verify(&self) -> (r: Result<()>)
        ensures
            r is Ok <==> hex_signature_valid(self.owner@, member_list_payload(member_list_unsigned(*self)), self.signature@),
            r is Err ==> r->Err_0 is InvalidSignature,
    {
        let unsigned = self.unsigned_bytes();
        let payload = member_list_payload_bytes(&unsigned);
        verify_hex(self.owner.as_str(), &payload, self.signature.as_str())
    }
}

/// What making a signature with `secret` over `message` gives: the secret's
/// public key is a usable 32-byte key, the signature is 64 bytes, and the
/// key accepts it.
pub open spec fn signature_made(secret: Seq<u8>, message: Seq<u8>) -> bool {
    &&& crate::crypto::ed25519_key_valid(crate::crypto::ed25519_public_of(secret))
    &&& crate::crypto::ed25519_public_of(secret).len() == 32
    &&& crate::crypto::ed25519_signature_of(secret, message).len() == 64
    &&& crate::crypto::ed25519_accepts(
        crate::crypto::ed25519_public_of(secret),
        message,
        crate::crypto::ed25519_signature_of(secret, message),
    )
}

/// A member list signed by its owner verifies: signing keeps every field
/// but the signature, and the signature covers exactly those fields.
pub proof fn law_signed_member_lists_verify(before: SignedMemberList, after: SignedMemberList, secret: Seq<u8>)
    requires
        before.owner@ == hex_text(crate::crypto::ed25519_public_of(secret)),
        after.signature@ == hex_text(
            crate::crypto::ed25519_signature_of(secret, member_list_payload(member_list_unsigned(before))),
        ),
        signature_made(secret, member_list_payload(member_list_unsigned(before))),
        after.network_id == before.network_id,
        after.owner == before.owner,
        after.sequence == before.sequence,
        after.members == before.members,
        after.updated_at == before.updated_at,
    ensures
        hex_signature_valid(after.owner@, member_list_payload(member_list_unsigned(after)), after.signature@),
{
    assert(member_list_unsigned(after) == member_list_unsigned(before));
    crate::signature::law_sign_hex_verifies(secret, member_list_payload(member_list_unsigned(before)));
}

/// Events recorded in the network event log.
#[derive(Clone, Copy, Debug, PartialEq, Eq, Structural)]
pub enum NetworkEventType {
    PeerJoined,
    PeerLeft,
    SyncStarted,
    SyncFinished,
    RelayConnected,
    RelayDisconnected,
    RelayFailed,
    TopicSubscribed,
    TopicUnsubscribed,
    MemberAdded,
    MemberRemoved,
    FolderAdded,
    FolderRemoved,
    TicketCreated,
    TicketAccepted,
    Kicked,
}

/// The name under which an event is logged.
pub open spec fn event_name(e: NetworkEventType) -> Seq<char> {
    match e {
        NetworkEventType::PeerJoined => "peer_joined"@,
        NetworkEventType::PeerLeft => "peer_left"@,
        NetworkEventType::SyncStarted => "sync_started"@,
        NetworkEventType::SyncFinished => "sync_finished"@,
        NetworkEventType::RelayConnected => "relay_connected"@,
        NetworkEventType::RelayDisconnected => "relay_disconnected"@,
        NetworkEventType::RelayFailed => "relay_failed"@,
        NetworkEventType::TopicSubscribed => "topic_subscribed"@,
        NetworkEventType::TopicUnsubscribed => "topic_unsubscribed"@,
        NetworkEventType::MemberAdded => "member_added"@,
        NetworkEventType::MemberRemoved => "member_removed"@,
        NetworkEventType::FolderAdded => "folder_added"@,
        NetworkEventType::FolderRemoved => "folder_removed"@,
        NetworkEventType::TicketCreated => "ticket_created"@,
        NetworkEventType::TicketAccepted => "ticket_accepted"@,
        NetworkEventType::Kicked => "kicked"@,
    }
}

impl NetworkEventType {
    pub fn as_str(&self) -> (s: &'static str)
        ensures
            s@ == event_name(*self),
    {
        match self {
            NetworkEventType::PeerJoined => "peer_joined",
            NetworkEventType::PeerLeft => "peer_left",
            NetworkEventType::SyncStarted => "sync_started",
            NetworkEventType::SyncFinished => "sync_finished",
            NetworkEventType::RelayConnected => "relay_connected",
            NetworkEventType::RelayDisconnected => "relay_disconnected",
            NetworkEventType::RelayFailed => "relay_failed",
            NetworkEventType::TopicSubscribed => "topic_subscribed",
            NetworkEventType::TopicUnsubscribed => "topic_unsubscribed",
            NetworkEventType::MemberAdded => "member_added",
            NetworkEventType::MemberRemoved => "member_removed",
            NetworkEventType::FolderAdded => "folder_added",
            NetworkEventType::FolderRemoved => "folder_removed",
            NetworkEventType::TicketCreated => "ticket_created",
            NetworkEventType::TicketAccepted => "ticket_accepted",
            NetworkEventType::Kicked => "kicked",
        }
    }
}

} // verus!
