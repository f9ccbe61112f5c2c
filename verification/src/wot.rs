//! Local Web-of-Trust policy: trusted roots, signed delegations between
//! authors, revocations, and the trust decision they give for an author.
//! Authors are the lower-case hex text of their Ed25519 keys.
use vstd::prelude::*;

use crate::clock::current_epoch_seconds;
use crate::crypto::{
    ed25519_accepts, ed25519_key_valid, ed25519_public_key, ed25519_public_of, ed25519_sign, ed25519_signature_of,
    ed25519_verify, hex_bytes, hex_encode, hex_text,
};
use crate::error::{Result, SyncwebError};
use crate::links::{contains_text, str_eq, texts};
use crate::resilience::lemma_hex_round_trip;
use crate::signature::{decode_signature, decode_verifying_key, decoded_key, decoded_signature};
use crate::text::{chars_of, trim, trim_chars};

verus! {

/// The bytes a signature domain begins with: the context text and a zero.
pub open spec fn context_bytes(context: Seq<char>) -> Seq<u8> {
    context.map_values(|c: char| c as u8).push(0u8)
}

/// The signed payload of a record: the domain context, then the record
/// encoded without its signature.
pub open spec fn signed_payload(context: Seq<char>, unsigned: Seq<u8>) -> Seq<u8> {
    context_bytes(context) + unsigned
}

/// The payload bytes for `context` and `unsigned`.
pub fn payload_bytes(context: &str, unsigned: &[u8]) -> (r: Vec<u8>)
    ensures
        r@ == signed_payload(context@, unsigned@),
{
    let seed = chars_of(context);
    let mut bytes: Vec<u8> = Vec::new();
    let mut i: usize = 0;
    while i < seed.len()
        invariant
            i <= seed.len(),
            bytes@ == seed@.subrange(0, i as int).map_values(|c: char| c as u8),
        decreases seed.len() - i,
    {
        bytes.push(seed[i] as u8);
        i += 1;
        assert(bytes@ =~= seed@.subrange(0, i as int).map_values(|c: char| c as u8));
    }
    assert(seed@.subrange(0, seed@.len() as int) =~= seed@);
    bytes.push(0u8);
    let ghost ctx = bytes@;
    let mut j: usize = 0;
    while j < unsigned.len()
        invariant
            j <= unsigned.len(),
            bytes@ == ctx + unsigned@.subrange(0, j as int),
        decreases unsigned.len() - j,
    {
        bytes.push(unsigned[j]);
        j += 1;
        assert(bytes@ =~= ctx + unsigned@.subrange(0, j as int));
    }
    assert(unsigned@.subrange(0, unsigned@.len() as int) =~= unsigned@);
    bytes
}

/// The author text of a public key: its lower-case hex.
pub fn author_id(public: &[u8; 32]) -> (s: String)
    ensures
        s@ == hex_text(public@),
{
    hex_encode(public)
}

/// The key an author text denotes.
pub fn parse_author(author: &str) -> (r: Result<[u8; 32]>)
    ensures
        r is Ok <==> decoded_key(author@) is Some,
        r matches Ok(k) ==> decoded_key(author@) == Some(k@),
        r is Err ==> r->Err_0 is InvalidIdentity,
{
    match decode_verifying_key(author) {
        Ok(k) => Ok(k),
        Err(_) => Err(SyncwebError::InvalidIdentity("invalid Web-of-Trust author".to_string())),
    }
}

/// The author is the hex text of the signer's public key.
pub fn ensure_signer(author: &str, secret: &[u8; 32]) -> (r: Result<()>)
    ensures
        r is Ok <==> author@ == hex_text(ed25519_public_of(secret@)),
        r is Err ==> r->Err_0 is InvalidIdentity,
{
    let public = ed25519_public_key(secret);
    let id = author_id(&public);
    if str_eq(author, id.as_str()) {
        Ok(())
    } else {
        Err(SyncwebError::InvalidIdentity("Web-of-Trust signer does not match the declared author".to_string()))
    }
}

/// Hex text of the signature of the payload of `context` and `unsigned`.
pub fn sign_text(context: &str, unsigned: &[u8], secret: &[u8; 32]) -> (s: String)
    ensures
        s@ == hex_text(ed25519_signature_of(secret@, signed_payload(context@, unsigned@))),
        decoded_signature(s@) == Some(ed25519_signature_of(secret@, signed_payload(context@, unsigned@))),
        ed25519_accepts(
            ed25519_public_of(secret@),
            signed_payload(context@, unsigned@),
            ed25519_signature_of(secret@, signed_payload(context@, unsigned@)),
        ),
{
    let payload = payload_bytes(context, unsigned);
    let sig = ed25519_sign(secret, &payload);
    proof {
        lemma_hex_round_trip(sig@);
    }
    hex_encode(&sig)
}

/// The author's key accepts the signature over the payload.
pub open spec fn text_signature_valid(
    context: Seq<char>,
    unsigned: Seq<u8>,
    author: Seq<char>,
    signature: Option<String>,
) -> bool {
    &&& signature matches Some(s)
    &&& decoded_signature(s@) matches Some(sig)
    &&& decoded_key(author) matches Some(k)
    &&& ed25519_accepts(k, signed_payload(context, unsigned), sig)
}

/// Verify a hex signature of a record against its author.
pub fn verify_text(context: &str, unsigned: &[u8], author: &str, signature: &Option<String>) -> (r: Result<()>)
    ensures
        r is Ok <==> text_signature_valid(context@, unsigned@, author@, *signature),
        r is Err && (signature matches Some(s) && decoded_signature(s@) is Some) && decoded_key(author@) is None
            ==> r->Err_0 is InvalidIdentity,
        r is Err && !((signature matches Some(s) && decoded_signature(s@) is Some) && decoded_key(author@) is None)
            ==> r->Err_0 is InvalidConfig,
{
    let text = match signature {
        Some(t) => t,
        None => {
            return Err(SyncwebError::InvalidConfig("signed Web-of-Trust record has no signature".to_string()));
        },
    };
    let sig = match decode_signature(text.as_str()) {
        Ok(s) => s,
        Err(_) => {
            return Err(SyncwebError::InvalidConfig("invalid Web-of-Trust signature".to_string()));
        },
    };
    let key = parse_author(author)?;
    let payload = payload_bytes(context, unsigned);
    if !ed25519_verify(&key, &payload, &sig) {
        return Err(SyncwebError::InvalidConfig("Web-of-Trust signature is invalid".to_string()));
    }
    Ok(())
}

/// A signed delegation from one trusted author to another, optionally
/// scoped to one content hash.
#[derive(Debug)]
pub struct TrustDelegation {
    pub delegator: String,
    pub delegate: String,
    pub scope: Option<[u8; 32]>,
    pub sequence: u64,
    pub issued_at: u64,
    pub expires_at: u64,
    pub signature: Option<String>,
}

/// The delegation's fields are valid: a positive sequence, an expiry after
/// issue, two distinct authors, both usable keys.
pub open spec fn delegation_fields_ok(d: TrustDelegation) -> bool {
    &&& d.sequence != 0
    &&& d.expires_at > d.issued_at
    &&& d.delegator@ != d.delegate@
    &&& decoded_key(d.delegator@) is Some
    &&& decoded_key(d.delegate@) is Some
}

/// The error field validation reports.
pub open spec fn delegation_fields_error(d: TrustDelegation, e: SyncwebError) -> bool {
    if d.sequence == 0 || d.expires_at <= d.issued_at || d.delegator@ == d.delegate@ {
        e is InvalidConfig
    } else {
        e is InvalidIdentity
    }
}

/// The delegation context text.
pub open spec fn delegation_context() -> Seq<char> {
    "syncweb/wot/delegation/v1"@
}

/// The delegation is valid and signed by its delegator over `unsigned`.
pub open spec fn delegation_verifies(d: TrustDelegation, unsigned: Seq<u8>) -> bool {
    delegation_fields_ok(d) && text_signature_valid(delegation_context(), unsigned, d.delegator@, d.signature)
}

impl TrustDelegation {
    /// An unsigned delegation from the key of `secret` to `delegate`.
    pub fn unsigned(
        delegate: &[u8; 32],
        scope: Option<[u8; 32]>,
        sequence: u64,
        issued_at: u64,
        expires_at: u64,
        secret: &[u8; 32],
    ) -> (d: Self)
        ensures
            d.delegator@ == hex_text(ed25519_public_of(secret@)),
            d.delegate@ == hex_text(delegate@),
            d.scope == scope && d.sequence == sequence && d.issued_at == issued_at && d.expires_at == expires_at,
            d.signature is None,
    {
        let public = ed25519_public_key(secret);
        TrustDelegation {
            delegator: author_id(&public),
            delegate: author_id(delegate),
            scope,
            sequence,
            issued_at,
            expires_at,
            signature: None,
        }
    }

    /// Sign with the delegator's secret key over `unsigned`, the delegation
    /// encoded without its signature.
    pub fn sign(&mut self, secret: &[u8; 32], unsigned: &[u8]) -> (r: Result<()>)
        ensures
            r is Ok <==> old(self).delegator@ == hex_text(ed25519_public_of(secret@)),
            r is Err ==> r->Err_0 is InvalidIdentity && *final(self) == *old(self),
            r is Ok ==> (final(self).signature matches Some(s) && s@ == hex_text(
                ed25519_signature_of(secret@, signed_payload(delegation_context(), unsigned@)),
            )),
            final(self).delegator == old(self).delegator && final(self).delegate == old(self).delegate
                && final(self).scope == old(self).scope && final(self).sequence == old(self).sequence
                && final(self).issued_at == old(self).issued_at && final(self).expires_at == old(self).expires_at,
    {
        ensure_signer(self.delegator.as_str(), secret)?;
        self.signature = Some(sign_text("syncweb/wot/delegation/v1", unsigned, secret));
        Ok(())
    }

    /// Validate identities, sequence, and times.
    pub fn validate(&self) -> (r: Result<()>)
        ensures
            r is Ok <==> delegation_fields_ok(*self),
            r is Err ==> delegation_fields_error(*self, r->Err_0),
    {
        if self.sequence == 0 {
            return Err(SyncwebError::InvalidConfig("trust delegation sequence must be greater than zero".to_string()));
        }
        if self.expires_at <= self.issued_at {
            return Err(
                SyncwebError::InvalidConfig("trust delegation expiration must be after its issue time".to_string()),
            );
        }
        if str_eq(self.delegator.as_str(), self.delegate.as_str()) {
            return Err(SyncwebError::InvalidConfig("trust delegation cannot delegate to itself".to_string()));
        }
        parse_author(self.delegator.as_str())?;
        parse_author(self.delegate.as_str())?;
        Ok(())
    }

    /// Verify the fields and the delegator's signature over `unsigned`.
    pub fn verify_signature(&self, unsigned: &[u8]) -> (r: Result<()>)
        ensures
            r is Ok <==> delegation_verifies(*self, unsigned@),
            r is Err && !delegation_fields_ok(*self) ==> delegation_fields_error(*self, r->Err_0),
    {
        self.validate()?;
        verify_text("syncweb/wot/delegation/v1", unsigned, self.delegator.as_str(), &self.signature)
    }

    /// Verify, and require the delegation to be active at `now`.
    pub fn verify_at(&self, unsigned: &[u8], now: u64) -> (r: Result<()>)
        ensures
            r is Ok <==> delegation_verifies(*self, unsigned@) && self.expires_at > now,
            r is Err && delegation_verifies(*self, unsigned@) ==> r->Err_0 is InvalidConfig,
    {
        self.verify_signature(unsigned)?;
        if self.expires_at <= now {
            return Err(SyncwebError::InvalidConfig("trust delegation has expired".to_string()));
        }
        Ok(())
    }
}

/// The result of evaluating a local trust policy.
#[derive(Clone, Copy, Debug, PartialEq, Eq, Structural)]
pub enum TrustDecision {
    TrustedRoot,
    TrustedDelegation,
    Untrusted,
    Revoked,
}

impl TrustDecision {
    /// A root or a delegation chain vouches for the author.
    pub fn is_trusted(self) -> (b: bool)
        ensures
            b == (self is TrustedRoot || self is TrustedDelegation),
    {
        match self {
            TrustDecision::TrustedRoot | TrustDecision::TrustedDelegation => true,
            _ => false,
        }
    }
}

/// A delegation with this scope applies to `content`: unscoped ones apply
/// to everything, scoped ones to their own hash only.
pub open spec fn scope_applies(scope: Option<[u8; 32]>, content: Option<Seq<u8>>) -> bool {
    match scope {
        None => true,
        Some(s) => content == Some(s@),
    }
}

/// `from` delegates to `to` for `content` by a delegation active at `now`.
pub open spec fn has_edge(
    ds: Seq<TrustDelegation>,
    from: Seq<char>,
    to: Seq<char>,
    content: Option<Seq<u8>>,
    now: u64,
) -> bool {
    exists|i: int|
        0 <= i < ds.len() && (#[trigger] ds[i]).delegator@ == from && ds[i].delegate@ == to && ds[i].expires_at > now
            && scope_applies(ds[i].scope, content)
}

/// `path` leads from its first author, delegation by delegation, back to a
/// trusted root, through no revoked author.
pub open spec fn trust_chain(
    roots: Set<Seq<char>>,
    revoked: Set<Seq<char>>,
    ds: Seq<TrustDelegation>,
    content: Option<Seq<u8>>,
    now: u64,
    path: Seq<Seq<char>>,
) -> bool {
    &&& path.len() > 0
    &&& roots.contains(path.last())
    &&& forall|i: int| 0 <= i < path.len() ==> !revoked.contains(#[trigger] path[i])
    &&& forall|i: int| 0 <= i < path.len() - 1 ==> #[trigger] has_edge(ds, path[i + 1], path[i], content, now)
}

/// Some chain vouches for `author`.
pub open spec fn chain_trusted(
    roots: Set<Seq<char>>,
    revoked: Set<Seq<char>>,
    ds: Seq<TrustDelegation>,
    content: Option<Seq<u8>>,
    now: u64,
    author: Seq<char>,
) -> bool {
    exists|path: Seq<Seq<char>>| #[trigger] trust_chain(roots, revoked, ds, content, now, path) && path[0] == author
}

/// Local trust roots, signed delegations, and revoked authors.
#[derive(Debug)]
pub struct TrustPolicy {
    roots: Vec<String>,
    delegations: Vec<TrustDelegation>,
    revoked: Vec<String>,
}

/// The optional content hash as bytes.
pub open spec fn opt_hash(content: Option<&[u8; 32]>) -> Option<Seq<u8>> {
    match content {
        Some(h) => Some(h@),
        None => None,
    }
}

impl TrustPolicy {
    /// The trusted roots.
    pub closed spec fn root_set(&self) -> Set<Seq<char>> {
        texts(self.roots@).to_set()
    }

    /// The revoked authors.
    pub closed spec fn revoked_set(&self) -> Set<Seq<char>> {
        texts(self.revoked@).to_set()
    }

    /// The accepted delegations.
    pub closed spec fn delegation_seq(&self) -> Seq<TrustDelegation> {
        self.delegations@
    }

    /// The decision for `author` on `content` at `now`.
    pub open spec fn decision(&self, author: Seq<char>, content: Option<Seq<u8>>, now: u64) -> TrustDecision {
        if self.revoked_set().contains(author) {
            TrustDecision::Revoked
        } else if self.root_set().contains(author) {
            TrustDecision::TrustedRoot
        } else if chain_trusted(self.root_set(), self.revoked_set(), self.delegation_seq(), content, now, author) {
            TrustDecision::TrustedDelegation
        } else {
            TrustDecision::Untrusted
        }
    }

    /// An empty policy.
    pub fn new() -> (p: Self)
        ensures
            p.root_set() == Set::<Seq<char>>::empty(),
            p.revoked_set() == Set::<Seq<char>>::empty(),
            p.delegation_seq() == Seq::<TrustDelegation>::empty(),
    {
        let p = TrustPolicy { roots: Vec::new(), delegations: Vec::new(), revoked: Vec::new() };
        assert(texts(p.roots@).to_set() =~= Set::<Seq<char>>::empty());
        assert(texts(p.revoked@).to_set() =~= Set::<Seq<char>>::empty());
        p
    }

    /// A policy whose one root is the key of `secret`.
    pub fn with_root(secret: &[u8; 32]) -> (p: Self)
        ensures
            p.root_set() == Set::<Seq<char>>::empty().insert(hex_text(ed25519_public_of(secret@))),
            p.revoked_set() == Set::<Seq<char>>::empty(),
            p.delegation_seq() == Seq::<TrustDelegation>::empty(),
    {
        let mut p = Self::new();
        let public = ed25519_public_key(secret);
        p.trust_author(&public);
        assert(p.root_set() =~= Set::<Seq<char>>::empty().insert(hex_text(ed25519_public_of(secret@))));
        p
    }

    /// Trust an author as a local root, lifting any revocation.
    pub fn trust_author(&mut self, author: &[u8; 32])
        ensures
            final(self).root_set() == old(self).root_set().insert(hex_text(author@)),
            final(self).revoked_set() == old(self).revoked_set().remove(hex_text(author@)),
            final(self).delegation_seq() == old(self).delegation_seq(),
    {
        let id = author_id(author);
        if !contains_text(&self.roots, id.as_str()) {
            let ghost before = self.roots@;
            self.roots.push(author_id(author));
            proof {
                assert(texts(self.roots@) =~= texts(before).push(hex_text(author@)));
                lemma_push_to_set(texts(before), hex_text(author@));
            }
        } else {
            proof {
                lemma_contains_to_set(texts(self.roots@), id@);
            }
        }
        let ghost before_rev = texts(self.revoked@);
        let mut kept: Vec<String> = Vec::new();
        let mut i: usize = 0;
        while i < self.revoked.len()
            invariant
                i <= self.revoked@.len(),
                before_rev == texts(self.revoked@),
                id@ == hex_text(author@),
                forall|x: Seq<char>| #[trigger] texts(kept@).contains(x) <==> (texts(self.revoked@).take(i as int).contains(x)
                    && x != id@),
            decreases self.revoked.len() - i,
        {
            let ghost old_kept = texts(kept@);
            if !str_eq(self.revoked[i].as_str(), id.as_str()) {
                kept.push(self.revoked[i].clone());
                assert(texts(kept@) =~= old_kept.push(self.revoked@[i as int]@));
            }
            proof {
                let pre = texts(self.revoked@).take(i as int);
                let post = texts(self.revoked@).take(i + 1);
                assert(post =~= pre.push(self.revoked@[i as int]@));
                lemma_push_contains_text(pre, self.revoked@[i as int]@);
                lemma_push_contains_text(old_kept, self.revoked@[i as int]@);
            }
            i += 1;
        }
        proof {
            assert(texts(self.revoked@).take(self.revoked@.len() as int) =~= texts(self.revoked@));
            assert(texts(kept@).to_set() =~= before_rev.to_set().remove(id@));
        }
        self.revoked = kept;
    }

    /// Revoke an author, root or delegate.
    pub fn revoke_author(&mut self, author: &[u8; 32])
        ensures
            final(self).revoked_set() == old(self).revoked_set().insert(hex_text(author@)),
            final(self).root_set() == old(self).root_set(),
            final(self).delegation_seq() == old(self).delegation_seq(),
    {
        let id = author_id(author);
        if !contains_text(&self.revoked, id.as_str()) {
            let ghost before = self.revoked@;
            self.revoked.push(id);
            proof {
                assert(texts(self.revoked@) =~= texts(before).push(hex_text(author@)));
                lemma_push_to_set(texts(before), hex_text(author@));
            }
        } else {
            proof {
                lemma_contains_to_set(texts(self.revoked@), id@);
            }
        }
    }
}

proof fn lemma_push_to_set(s: Seq<Seq<char>>, x: Seq<char>)
    ensures
        s.push(x).to_set() == s.to_set().insert(x),
{
    assert forall|y: Seq<char>| #[trigger] s.push(x).to_set().contains(y) == s.to_set().insert(x).contains(y) by {
        lemma_push_contains_text(s, x);
    }
    assert(s.push(x).to_set() =~= s.to_set().insert(x));
}

proof fn lemma_contains_to_set(s: Seq<Seq<char>>, x: Seq<char>)
    requires
        s.contains(x),
    ensures
        s.to_set() == s.to_set().insert(x),
{
    assert(s.to_set() =~= s.to_set().insert(x));
}

pub(crate) proof fn lemma_push_contains_text(s: Seq<Seq<char>>, a: Seq<char>)
    ensures
        forall|x: Seq<char>| #[trigger] s.push(a).contains(x) <==> (s.contains(x) || x == a),
{
    crate::resilience::lemma_push_contains(s, a);
}

/// The delegate of each delegation.
pub open spec fn delegates_of(ds: Seq<TrustDelegation>) -> Seq<Seq<char>> {
    ds.map_values(|d: TrustDelegation| d.delegate@)
}

/// Delegation `d` extends the trusted set: it is active for `content`, its
/// delegator is trusted and its delegate is not revoked.
pub open spec fn extends(
    d: TrustDelegation,
    set: Seq<Seq<char>>,
    revoked: Set<Seq<char>>,
    content: Option<Seq<u8>>,
    now: u64,
) -> bool {
    d.expires_at > now && scope_applies(d.scope, content) && set.contains(d.delegator@) && !revoked.contains(d.delegate@)
}

/// No delegation extends the set beyond itself.
pub open spec fn closed_under(
    ds: Seq<TrustDelegation>,
    set: Seq<Seq<char>>,
    revoked: Set<Seq<char>>,
    content: Option<Seq<u8>>,
    now: u64,
) -> bool {
    forall|j: int| 0 <= j < ds.len() && #[trigger] extends(ds[j], set, revoked, content, now) ==> set.contains(ds[j].delegate@)
}

proof fn lemma_unique_bounded(s: Seq<Seq<char>>, u: Seq<Seq<char>>)
    requires
        s.no_duplicates(),
        forall|x: Seq<char>| #[trigger] s.contains(x) ==> u.contains(x),
    ensures
        s.len() <= u.len(),
{
    s.unique_seq_to_set();
    u.lemma_cardinality_of_set();
    vstd::seq_lib::seq_to_set_is_finite(u);
    assert(s.to_set().subset_of(u.to_set()));
    vstd::set_lib::lemma_len_subset(s.to_set(), u.to_set());
}

proof fn lemma_chain_extends(
    roots: Set<Seq<char>>,
    revoked: Set<Seq<char>>,
    ds: Seq<TrustDelegation>,
    content: Option<Seq<u8>>,
    now: u64,
    k: int,
)
    requires
        0 <= k < ds.len(),
        ds[k].expires_at > now,
        scope_applies(ds[k].scope, content),
        !revoked.contains(ds[k].delegate@),
        chain_trusted(roots, revoked, ds, content, now, ds[k].delegator@),
    ensures
        chain_trusted(roots, revoked, ds, content, now, ds[k].delegate@),
{
    let p = choose|p: Seq<Seq<char>>| #[trigger] trust_chain(roots, revoked, ds, content, now, p) && p[0] == ds[k].delegator@;
    let q = seq![ds[k].delegate@] + p;
    assert(q.last() == p.last());
    assert forall|i: int| 0 <= i < q.len() implies !revoked.contains(#[trigger] q[i]) by {
        if i > 0 {
            assert(q[i] == p[i - 1]);
        }
    }
    assert forall|i: int| 0 <= i < q.len() - 1 implies #[trigger] has_edge(ds, q[i + 1], q[i], content, now) by {
        if i == 0 {
            assert(q[1] == p[0]);
            assert(ds[k].delegator@ == q[1] && ds[k].delegate@ == q[0]);
        } else {
            assert(q[i + 1] == p[i]);
            assert(q[i] == p[i - 1]);
            assert(has_edge(ds, p[(i - 1) + 1], p[i - 1], content, now));
        }
    }
    assert(trust_chain(roots, revoked, ds, content, now, q));
}

proof fn lemma_chain_in_closed_set(
    roots: Set<Seq<char>>,
    revoked: Set<Seq<char>>,
    ds: Seq<TrustDelegation>,
    content: Option<Seq<u8>>,
    now: u64,
    set: Seq<Seq<char>>,
    path: Seq<Seq<char>>,
    i: int,
)
    requires
        trust_chain(roots, revoked, ds, content, now, path),
        0 <= i < path.len(),
        closed_under(ds, set, revoked, content, now),
        forall|x: Seq<char>| roots.contains(x) && !revoked.contains(x) ==> #[trigger] set.contains(x),
    ensures
        set.contains(path[i]),
    decreases path.len() - i,
{
    if i == path.len() - 1 {
        assert(!revoked.contains(path[i]));
    } else {
        lemma_chain_in_closed_set(roots, revoked, ds, content, now, set, path, i + 1);
        assert(has_edge(ds, path[i + 1], path[i], content, now));
        let j = choose|j: int|
            0 <= j < ds.len() && (#[trigger] ds[j]).delegator@ == path[i + 1] && ds[j].delegate@ == path[i]
                && ds[j].expires_at > now && scope_applies(ds[j].scope, content);
        assert(!revoked.contains(path[i]));
        assert(extends(ds[j], set, revoked, content, now));
    }
}

fn opt_hash_eq(a: &Option<[u8; 32]>, b: &Option<[u8; 32]>) -> (r: bool)
    ensures
        r == (*a == *b),
{
    match (a, b) {
        (None, None) => true,
        (Some(x), Some(y)) => {
            let e = crate::resilience::bytes_eq(x, y);
            if e {
                assert(x@ =~= y@);
                assert(*x == *y);
            }
            e
        },
        _ => false,
    }
}

fn scope_applies_exec(scope: &Option<[u8; 32]>, content: Option<&[u8; 32]>) -> (r: bool)
    ensures
        r == scope_applies(*scope, opt_hash(content)),
{
    match scope {
        None => true,
        Some(s) => match content {
            Some(c) => crate::resilience::bytes_eq(s, c),
            None => false,
        },
    }
}

impl TrustPolicy {
    fn is_root_text(&self, a: &str) -> (b: bool)
        ensures
            b == self.root_set().contains(a@),
    {
        contains_text(&self.roots, a)
    }

    fn is_revoked_text(&self, a: &str) -> (b: bool)
        ensures
            b == self.revoked_set().contains(a@),
    {
        contains_text(&self.revoked, a)
    }

    /// Every author some chain vouches for on `content` at `now`.
    fn trusted_closure(&self, content: Option<&[u8; 32]>, now: u64) -> (r: Vec<String>)
        ensures
            forall|x: Seq<char>| #[trigger] texts(r@).contains(x) <==> chain_trusted(
                self.root_set(),
                self.revoked_set(),
                self.delegation_seq(),
                opt_hash(content),
                now,
                x,
            ),
    {
        let ghost roots = self.root_set();
        let ghost revoked = self.revoked_set();
        let ghost ds = self.delegation_seq();
        let ghost c = opt_hash(content);
        let ghost universe = texts(self.roots@) + delegates_of(ds);
        let mut set: Vec<String> = Vec::new();
        let mut i: usize = 0;
        while i < self.roots.len()
            invariant
                i <= self.roots@.len(),
                roots == self.root_set(),
                revoked == self.revoked_set(),
                ds == self.delegation_seq(),
                c == opt_hash(content),
                universe == texts(self.roots@) + delegates_of(ds),
                texts(set@).no_duplicates(),
                forall|x: Seq<char>| #[trigger] texts(set@).contains(x) ==> universe.contains(x) && chain_trusted(
                    roots,
                    revoked,
                    ds,
                    c,
                    now,
                    x,
                ),
                forall|k: int| 0 <= k < i && !revoked.contains(#[trigger] texts(self.roots@)[k]) ==> texts(set@).contains(texts(self.roots@)[k]),
            decreases self.roots.len() - i,
        {
            let r = &self.roots[i];
            proof {
                assert(texts(self.roots@)[i as int] == r@);
                assert(roots.contains(r@));
            }
            if !self.is_revoked_text(r.as_str()) && !contains_text(&set, r.as_str()) {
                let ghost before = texts(set@);
                set.push(r.clone());
                proof {
                    assert(texts(set@) =~= before.push(r@));
                    lemma_push_contains_text(before, r@);
                    assert(universe[i as int] == r@);
                    let path = seq![r@];
                    assert(trust_chain(roots, revoked, ds, c, now, path));
                    assert forall|a: int, b: int| 0 <= a < b < texts(set@).len() implies texts(set@)[a] != texts(set@)[b] by {
                        if b == before.len() {
                            assert(before.contains(before[a]));
                        }
                    }
                }
            } else {
                proof {
                    if !revoked.contains(r@) {
                        assert(texts(set@).contains(r@));
                    }
                }
            }
            proof {
                assert forall|k: int| 0 <= k < i + 1 && !revoked.contains(#[trigger] texts(self.roots@)[k]) implies texts(set@).contains(texts(self.roots@)[k]) by {
                    if k == i {
                        assert(texts(self.roots@)[k] == r@);
                    }
                }
            }
            i += 1;
        }
        proof {
            assert forall|x: Seq<char>| roots.contains(x) && !revoked.contains(x) implies #[trigger] texts(set@).contains(x) by {
                let k = choose|k: int| 0 <= k < texts(self.roots@).len() && texts(self.roots@)[k] == x;
            }
        }
        let mut changed = true;
        proof {
            lemma_unique_bounded(texts(set@), universe);
        }
        while changed
            invariant
                roots == self.root_set(),
                revoked == self.revoked_set(),
                ds == self.delegation_seq(),
                c == opt_hash(content),
                universe == texts(self.roots@) + delegates_of(ds),
                texts(set@).no_duplicates(),
                texts(set@).len() <= universe.len(),
                forall|x: Seq<char>| #[trigger] texts(set@).contains(x) ==> universe.contains(x) && chain_trusted(
                    roots,
                    revoked,
                    ds,
                    c,
                    now,
                    x,
                ),
                forall|x: Seq<char>| roots.contains(x) && !revoked.contains(x) ==> #[trigger] texts(set@).contains(x),
                !changed ==> closed_under(ds, texts(set@), revoked, c, now),
            decreases 2 * (universe.len() - texts(set@).len()) + if changed {
                1int
            } else {
                0int
            },
        {
            changed = false;
            let ghost start_len = texts(set@).len();
            let mut k: usize = 0;
            while k < self.delegations.len()
                invariant
                    k <= self.delegations@.len(),
                    roots == self.root_set(),
                    revoked == self.revoked_set(),
                    ds == self.delegation_seq(),
                    ds == self.delegations@,
                    c == opt_hash(content),
                    universe == texts(self.roots@) + delegates_of(ds),
                    texts(set@).no_duplicates(),
                    texts(set@).len() >= start_len,
                    changed ==> texts(set@).len() > start_len,
                    forall|x: Seq<char>| #[trigger] texts(set@).contains(x) ==> universe.contains(x) && chain_trusted(
                        roots,
                        revoked,
                        ds,
                        c,
                        now,
                        x,
                    ),
                    forall|x: Seq<char>| roots.contains(x) && !revoked.contains(x) ==> #[trigger] texts(set@).contains(x),
                    !changed ==> forall|j: int|
                        0 <= j < k && #[trigger] extends(ds[j], texts(set@), revoked, c, now) ==> texts(set@).contains(
                            ds[j].delegate@,
                        ),
                decreases self.delegations.len() - k,
            {
                let d = &self.delegations[k];
                if d.expires_at > now && scope_applies_exec(&d.scope, content) && contains_text(&set, d.delegator.as_str())
                    && !self.is_revoked_text(d.delegate.as_str()) && !contains_text(&set, d.delegate.as_str()) {
                    let ghost before = texts(set@);
                    set.push(d.delegate.clone());
                    proof {
                        assert(texts(set@) =~= before.push(d.delegate@));
                        lemma_push_contains_text(before, d.delegate@);
                        lemma_chain_extends(roots, revoked, ds, c, now, k as int);
                        assert(delegates_of(ds)[k as int] == d.delegate@);
                        assert(universe[texts(self.roots@).len() + k] == d.delegate@);
                        assert forall|a: int, b: int| 0 <= a < b < texts(set@).len() implies texts(set@)[a] != texts(set@)[b] by {
                            if b == before.len() {
                                assert(before.contains(before[a]));
                            }
                        }
                    }
                    changed = true;
                }
                k += 1;
            }
            proof {
                lemma_unique_bounded(texts(set@), universe);
            }
        }
        proof {
            assert forall|x: Seq<char>| #[trigger] texts(set@).contains(x) <==> chain_trusted(roots, revoked, ds, c, now, x) by {
                if chain_trusted(roots, revoked, ds, c, now, x) {
                    let p = choose|p: Seq<Seq<char>>| #[trigger] trust_chain(roots, revoked, ds, c, now, p) && p[0] == x;
                    lemma_chain_in_closed_set(roots, revoked, ds, c, now, texts(set@), p, 0);
                }
            }
        }
        set
    }

    /// The trust decision for `author` on `content` at `now`.
    pub fn evaluate_for_at(&self, author: &str, content: Option<&[u8; 32]>, now: u64) -> (d: TrustDecision)
        ensures
            d == self.decision(author@, opt_hash(content), now),
    {
        if self.is_revoked_text(author) {
            return TrustDecision::Revoked;
        }
        if self.is_root_text(author) {
            return TrustDecision::TrustedRoot;
        }
        let closure = self.trusted_closure(content, now);
        if contains_text(&closure, author) {
            TrustDecision::TrustedDelegation
        } else {
            TrustDecision::Untrusted
        }
    }

    /// The trust decision for `author` on any content at `now`.
    pub fn evaluate_at(&self, author: &str, now: u64) -> (d: TrustDecision)
        ensures
            d == self.decision(author@, None, now),
    {
        self.evaluate_for_at(author, None, now)
    }

    /// The trust decision for `author` on any content now.
    pub fn evaluate(&self, author: &str) -> (d: TrustDecision)
        ensures
            exists|now: u64| d == #[trigger] self.decision(author@, None, now),
    {
        self.evaluate_for_at(author, None, current_epoch_seconds())
    }

    /// The trust decision for `author` on `content` now.
    pub fn evaluate_for(&self, author: &str, content: Option<&[u8; 32]>) -> (d: TrustDecision)
        ensures
            exists|now: u64| d == #[trigger] self.decision(author@, opt_hash(content), now),
    {
        self.evaluate_for_at(author, content, current_epoch_seconds())
    }

    /// Whether `author` is trusted for `content` at `now`.
    pub fn is_trusted_for_at(&self, author: &str, content: Option<&[u8; 32]>, now: u64) -> (b: bool)
        ensures
            b == (self.decision(author@, opt_hash(content), now) is TrustedRoot || self.decision(
                author@,
                opt_hash(content),
                now,
            ) is TrustedDelegation),
    {
        self.evaluate_for_at(author, content, now).is_trusted()
    }

    /// Whether `author` is trusted for `content` now.
    pub fn is_trusted_for(&self, author: &str, content: Option<&[u8; 32]>) -> (b: bool)
        ensures
            exists|now: u64|
                b == (#[trigger] self.decision(author@, opt_hash(content), now) is TrustedRoot || self.decision(
                    author@,
                    opt_hash(content),
                    now,
                ) is TrustedDelegation),
    {
        self.is_trusted_for_at(author, content, current_epoch_seconds())
    }
}

/// Two delegations link the same delegator, delegate and scope.
pub open spec fn same_link(a: TrustDelegation, b: TrustDelegation) -> bool {
    a.delegator@ == b.delegator@ && a.delegate@ == b.delegate@ && a.scope == b.scope
}

/// A held delegation of the same link is at least as recent.
pub open spec fn superseded(ds: Seq<TrustDelegation>, d: TrustDelegation) -> bool {
    exists|i: int| 0 <= i < ds.len() && same_link(#[trigger] ds[i], d) && ds[i].sequence >= d.sequence
}

impl Default for TrustPolicy {
    fn default() -> (p: Self)
        ensures
            p.root_set() == Set::<Seq<char>>::empty(),
            p.revoked_set() == Set::<Seq<char>>::empty(),
            p.delegation_seq() == Seq::<TrustDelegation>::empty(),
    {
        Self::new()
    }
}

impl TrustPolicy {
    /// Add a signed delegation, active at `now`, issued by an author trusted
    /// for its scope: `Ok(false)` when a delegation of the same link with at
    /// least its sequence is held, else it replaces the older ones of its
    /// link and `Ok(true)`.
    pub fn add_delegation_at(&mut self, delegation: TrustDelegation, unsigned: &[u8], now: u64) -> (r: Result<bool>)
        ensures
            r is Ok <==> delegation_verifies(delegation, unsigned@) && delegation.expires_at > now && (old(self).decision(
                delegation.delegator@,
                match delegation.scope {
                    Some(s) => Some(s@),
                    None => None,
                },
                now,
            ) is TrustedRoot || old(self).decision(
                delegation.delegator@,
                match delegation.scope {
                    Some(s) => Some(s@),
                    None => None,
                },
                now,
            ) is TrustedDelegation),
            r is Err && delegation_verifies(delegation, unsigned@) && delegation.expires_at > now ==> r->Err_0 is InvalidIdentity,
            r matches Ok(added) ==> added == !superseded(old(self).delegation_seq(), delegation),
            !(r matches Ok(true)) ==> final(self).delegation_seq() == old(self).delegation_seq(),
            r matches Ok(true) ==> forall|x: TrustDelegation| #[trigger] final(self).delegation_seq().contains(x) <==> (
            old(self).delegation_seq().contains(x) && !same_link(x, delegation)) || x == delegation,
            final(self).root_set() == old(self).root_set(),
            final(self).revoked_set() == old(self).revoked_set(),
    {
        delegation.verify_at(unsigned, now)?;
        let scope_ref: Option<&[u8; 32]> = match &delegation.scope {
            Some(s) => Some(s),
            None => None,
        };
        assert(opt_hash(scope_ref) == match delegation.scope {
            Some(s) => Some(s@),
            None => None,
        });
        if !self.is_trusted_for_at(delegation.delegator.as_str(), scope_ref, now) {
            return Err(SyncwebError::InvalidIdentity("trust delegation issuer is not trusted for its scope".to_string()));
        }
        let mut i: usize = 0;
        while i < self.delegations.len()
            invariant
                i <= self.delegations@.len(),
                self.roots == old(self).roots,
                self.revoked == old(self).revoked,
                self.delegations == old(self).delegations,
                delegation_verifies(delegation, unsigned@),
                delegation.expires_at > now,
                old(self).decision(delegation.delegator@, opt_hash(scope_ref), now) is TrustedRoot || old(self).decision(
                    delegation.delegator@,
                    opt_hash(scope_ref),
                    now,
                ) is TrustedDelegation,
                opt_hash(scope_ref) == match delegation.scope {
                    Some(s) => Some(s@),
                    None => None,
                },
                forall|j: int| 0 <= j < i ==> !(same_link(#[trigger] self.delegations@[j], delegation)
                    && self.delegations@[j].sequence >= delegation.sequence),
            decreases self.delegations.len() - i,
        {
            let e = &self.delegations[i];
            if str_eq(e.delegator.as_str(), delegation.delegator.as_str()) && str_eq(
                e.delegate.as_str(),
                delegation.delegate.as_str(),
            ) && opt_hash_eq(&e.scope, &delegation.scope) && e.sequence >= delegation.sequence {
                return Ok(false);
            }
            i += 1;
        }
        let mut pending: Vec<TrustDelegation> = Vec::new();
        std::mem::swap(&mut pending, &mut self.delegations);
        let ghost orig = pending@;
        let total = pending.len();
        let mut taken: usize = 0;
        while pending.len() > 0
            invariant
                taken <= orig.len(),
                orig.len() == total,
                self.roots == old(self).roots,
                self.revoked == old(self).revoked,
                pending@ == orig.subrange(taken as int, orig.len() as int),
                forall|x: TrustDelegation| #[trigger] self.delegations@.contains(x) <==> (orig.take(taken as int).contains(x)
                    && !same_link(x, delegation)),
            decreases pending.len(),
        {
            assert(pending@.len() == orig.len() - taken);
            let e = pending.remove(0);
            proof {
                assert(e == orig[taken as int]);
                let pre = orig.take(taken as int);
                assert(orig.take(taken + 1) =~= pre.push(e));
                crate::resilience::lemma_push_contains(pre, e);
            }
            let keep = !(str_eq(e.delegator.as_str(), delegation.delegator.as_str()) && str_eq(
                e.delegate.as_str(),
                delegation.delegate.as_str(),
            ) && opt_hash_eq(&e.scope, &delegation.scope));
            let ghost before = self.delegations@;
            if keep {
                self.delegations.push(e);
                proof {
                    crate::resilience::lemma_push_contains(before, e);
                }
            }
            taken += 1;
            proof {
                assert(pending@ =~= orig.subrange(taken as int, orig.len() as int));
            }
        }
        assert(orig.take(orig.len() as int) =~= orig);
        let ghost before = self.delegations@;
        self.delegations.push(delegation);
        proof {
            crate::resilience::lemma_push_contains(before, delegation);
        }
        Ok(true)
    }

    /// Add a signed delegation, validated at the current time.
    pub fn add_delegation(&mut self, delegation: TrustDelegation, unsigned: &[u8]) -> (r: Result<bool>)
        ensures
            r is Ok ==> delegation_verifies(delegation, unsigned@),
            r matches Ok(added) ==> added == !superseded(old(self).delegation_seq(), delegation),
            !(r matches Ok(true)) ==> final(self).delegation_seq() == old(self).delegation_seq(),
            final(self).root_set() == old(self).root_set(),
            final(self).revoked_set() == old(self).revoked_set(),
    {
        self.add_delegation_at(delegation, unsigned, current_epoch_seconds())
    }
}

/// A root that is not revoked is trusted as a root.
pub proof fn law_root_is_trusted(p: TrustPolicy, author: Seq<char>, content: Option<Seq<u8>>, now: u64)
    requires
        p.root_set().contains(author),
        !p.revoked_set().contains(author),
    ensures
        p.decision(author, content, now) == TrustDecision::TrustedRoot,
{
}

/// A revoked author is never trusted, root or not.
pub proof fn law_revoked_is_never_trusted(p: TrustPolicy, author: Seq<char>, content: Option<Seq<u8>>, now: u64)
    requires
        p.revoked_set().contains(author),
    ensures
        p.decision(author, content, now) == TrustDecision::Revoked,
{
}

/// A delegation active at `now` for `content`, from a trusted author to an
/// author who is neither revoked nor a root, makes that author trusted by
/// delegation.
pub proof fn law_delegation_extends_trust(
    p: TrustPolicy,
    k: int,
    content: Option<Seq<u8>>,
    now: u64,
)
    requires
        0 <= k < p.delegation_seq().len(),
        p.delegation_seq()[k].expires_at > now,
        scope_applies(p.delegation_seq()[k].scope, content),
        p.decision(p.delegation_seq()[k].delegator@, content, now) is TrustedRoot || p.decision(
            p.delegation_seq()[k].delegator@,
            content,
            now,
        ) is TrustedDelegation,
        !p.revoked_set().contains(p.delegation_seq()[k].delegate@),
        !p.root_set().contains(p.delegation_seq()[k].delegate@),
    ensures
        p.decision(p.delegation_seq()[k].delegate@, content, now) == TrustDecision::TrustedDelegation,
{
    let ds = p.delegation_seq();
    let y = ds[k].delegator@;
    if p.root_set().contains(y) {
        let path = seq![y];
        assert(trust_chain(p.root_set(), p.revoked_set(), ds, content, now, path));
    }
    lemma_chain_extends(p.root_set(), p.revoked_set(), ds, content, now, k);
}

/// An author trusted by delegation has a chain of active, in-scope
/// delegations back to a root through no revoked author.
pub proof fn law_delegated_trust_has_chain(p: TrustPolicy, author: Seq<char>, content: Option<Seq<u8>>, now: u64)
    requires
        p.decision(author, content, now) == TrustDecision::TrustedDelegation,
    ensures
        exists|path: Seq<Seq<char>>|
            #[trigger] trust_chain(p.root_set(), p.revoked_set(), p.delegation_seq(), content, now, path) && path[0]
                == author && !p.root_set().contains(author),
{
}

fn blank(s: &String) -> (b: bool)
    ensures
        b == (trim(s@).len() == 0),
{
    trim_chars(&chars_of(s.as_str())).len() == 0
}

/// Moderation outcomes attached to a content hash.
#[derive(Clone, Copy, Debug, PartialEq, Eq, Structural)]
pub enum ModerationAction {
    Show,
    Hide,
    Warn,
    Quarantine,
    Restore,
}

impl ModerationAction {
    /// Hidden and quarantined content is not shown.
    pub fn hides_content(&self) -> (b: bool)
        ensures
            b == (*self is Hide || *self is Quarantine),
    {
        match self {
            ModerationAction::Hide | ModerationAction::Quarantine => true,
            _ => false,
        }
    }

    /// The content is shown.
    pub fn is_visible(self) -> (b: bool)
        ensures
            b == !(self is Hide || self is Quarantine),
    {
        !self.hides_content()
    }
}

/// Where a moderation decision applies.
#[derive(Debug)]
pub enum ModerationScope {
    Global,
    Network(String),
    Folder([u8; 32]),
    File { namespace_id: [u8; 32], key: Vec<u8> },
}

/// The context a moderation decision is evaluated in.
#[derive(Debug)]
pub struct ModerationContext {
    pub content: [u8; 32],
    pub network: Option<String>,
    pub namespace_id: Option<[u8; 32]>,
    pub key: Option<Vec<u8>>,
}

impl ModerationContext {
    /// A context of the content alone.
    pub fn new(content: [u8; 32]) -> (c: Self)
        ensures
            c.content == content && c.network is None && c.namespace_id is None && c.key is None,
    {
        ModerationContext { content, network: None, namespace_id: None, key: None }
    }

    /// The context within a network.
    pub fn in_network(self, network: &str) -> (c: Self)
        ensures
            c.content == self.content && c.namespace_id == self.namespace_id && c.key == self.key,
            c.network matches Some(n) && n@ == network@,
    {
        ModerationContext { network: Some(network.to_string()), ..self }
    }

    /// The context of one file of a folder.
    pub fn for_file(self, namespace_id: [u8; 32], key: &[u8]) -> (c: Self)
        ensures
            c.content == self.content && c.network == self.network,
            c.namespace_id == Some(namespace_id),
            c.key matches Some(k) && k@ == key@,
    {
        ModerationContext {
            namespace_id: Some(namespace_id),
            key: Some(crate::text::slice_bytes(key, 0, key.len())),
            ..self
        }
    }
}

/// A scope applies in a context.
pub open spec fn scope_applies_to(scope: ModerationScope, c: ModerationContext) -> bool {
    match scope {
        ModerationScope::Global => true,
        ModerationScope::Network(n) => c.network matches Some(x) && x@ == n@,
        ModerationScope::Folder(ns) => c.namespace_id == Some(ns),
        ModerationScope::File { namespace_id, key } => c.namespace_id == Some(namespace_id) && (c.key matches Some(
            k,
        ) && k@ == key@),
    }
}

/// How specific a scope is: global, network, folder, file.
pub open spec fn scope_specificity(scope: ModerationScope) -> u8 {
    match scope {
        ModerationScope::Global => 0,
        ModerationScope::Network(_) => 1,
        ModerationScope::Folder(_) => 2,
        ModerationScope::File { .. } => 3,
    }
}

fn bytes_vec_eq(a: &Vec<u8>, b: &Vec<u8>) -> (r: bool)
    ensures
        r == (a@ == b@),
{
    if a.len() != b.len() {
        return false;
    }
    let mut i: usize = 0;
    while i < a.len()
        invariant
            a@.len() == b@.len(),
            i <= a@.len(),
            forall|k: int| 0 <= k < i ==> a@[k] == b@[k],
        decreases a.len() - i,
    {
        if a[i] != b[i] {
            return false;
        }
        i += 1;
    }
    assert(a@ =~= b@);
    true
}

impl ModerationScope {
    /// The scope applies in the context.
    pub fn applies_to(&self, context: &ModerationContext) -> (b: bool)
        ensures
            b == scope_applies_to(*self, *context),
    {
        match self {
            ModerationScope::Global => true,
            ModerationScope::Network(n) => match &context.network {
                Some(x) => str_eq(x.as_str(), n.as_str()),
                None => false,
            },
            ModerationScope::Folder(ns) => match &context.namespace_id {
                Some(x) => {
                    let e = crate::resilience::bytes_eq(x, ns);
                    if e {
                        assert(x@ =~= ns@);
                        assert(*x == *ns);
                    }
                    e
                },
                None => false,
            },
            ModerationScope::File { namespace_id, key } => {
                let ns_ok = match &context.namespace_id {
                    Some(x) => {
                        let e = crate::resilience::bytes_eq(x, namespace_id);
                        if e {
                            assert(x@ =~= namespace_id@);
                            assert(*x == *namespace_id);
                        }
                        e
                    },
                    None => false,
                };
                let key_ok = match &context.key {
                    Some(k) => bytes_vec_eq(k, key),
                    None => false,
                };
                ns_ok && key_ok
            },
        }
    }

    /// How specific the scope is.
    pub fn specificity(&self) -> (n: u8)
        ensures
            n == scope_specificity(*self),
    {
        match self {
            ModerationScope::Global => 0,
            ModerationScope::Network(_) => 1,
            ModerationScope::Folder(_) => 2,
            ModerationScope::File { .. } => 3,
        }
    }
}

/// A signed moderation decision.
#[derive(Debug)]
pub struct ModerationRecord {
    pub content: [u8; 32],
    pub moderator: String,
    pub action: ModerationAction,
    pub scope: ModerationScope,
    pub sequence: u64,
    pub created_at: u64,
    pub reason: String,
    pub signature: Option<String>,
}

/// The moderation record's fields are valid.
pub open spec fn moderation_fields_ok(m: ModerationRecord) -> bool {
    &&& m.sequence != 0
    &&& trim(m.reason@).len() > 0
    &&& !(m.scope matches ModerationScope::Network(n) && trim(n@).len() == 0)
    &&& !(m.scope matches ModerationScope::File { key, .. } && key@.len() == 0)
    &&& decoded_key(m.moderator@) is Some
}

impl ModerationRecord {
    /// Validate the fields.
    pub fn validate(&self) -> (r: Result<()>)
        ensures
            r is Ok <==> moderation_fields_ok(*self),
            r is Err && decoded_key(self.moderator@) is None && (self.sequence != 0 && trim(self.reason@).len() > 0
                && !(self.scope matches ModerationScope::Network(n) && trim(n@).len() == 0) && !(self.scope matches ModerationScope::File { key, .. }
                && key@.len() == 0)) ==> r->Err_0 is InvalidIdentity,
            r is Err && !(self.sequence != 0 && trim(self.reason@).len() > 0 && !(self.scope matches ModerationScope::Network(
                n,
            ) && trim(n@).len() == 0) && !(self.scope matches ModerationScope::File { key, .. } && key@.len() == 0))
                ==> r->Err_0 is InvalidConfig,
    {
        if self.sequence == 0 {
            return Err(SyncwebError::InvalidConfig("moderation sequence must be greater than zero".to_string()));
        }
        if blank(&self.reason) {
            return Err(SyncwebError::InvalidConfig("moderation reason cannot be empty".to_string()));
        }
        match &self.scope {
            ModerationScope::Network(n) => {
                if blank(n) {
                    return Err(SyncwebError::InvalidConfig("moderation network scope cannot be empty".to_string()));
                }
            },
            ModerationScope::File { key, .. } => {
                if key.len() == 0 {
                    return Err(SyncwebError::InvalidConfig("moderation file scope cannot be empty".to_string()));
                }
            },
            _ => {},
        }
        parse_author(self.moderator.as_str())?;
        Ok(())
    }

    /// Sign with the moderator's secret key over `unsigned`, the record
    /// encoded without its signature.
    pub fn sign(&mut self, secret: &[u8; 32], unsigned: &[u8]) -> (r: Result<()>)
        ensures
            r is Ok <==> old(self).moderator@ == hex_text(ed25519_public_of(secret@)),
            r is Err ==> r->Err_0 is InvalidIdentity && *final(self) == *old(self),
            r is Ok ==> (final(self).signature matches Some(s) && s@ == hex_text(
                ed25519_signature_of(secret@, signed_payload("syncweb/wot/moderation/v1"@, unsigned@)),
            )),
            final(self).content == old(self).content && final(self).moderator == old(self).moderator
                && final(self).action == old(self).action && final(self).scope == old(self).scope
                && final(self).sequence == old(self).sequence && final(self).created_at == old(self).created_at
                && final(self).reason == old(self).reason,
    {
        ensure_signer(self.moderator.as_str(), secret)?;
        self.signature = Some(sign_text("syncweb/wot/moderation/v1", unsigned, secret));
        Ok(())
    }

    /// Verify the fields and the moderator's signature over `unsigned`.
    pub fn verify_signature(&self, unsigned: &[u8]) -> (r: Result<()>)
        ensures
            r is Ok <==> moderation_fields_ok(*self) && text_signature_valid(
                "syncweb/wot/moderation/v1"@,
                unsigned@,
                self.moderator@,
                self.signature,
            ),
    {
        self.validate()?;
        verify_text("syncweb/wot/moderation/v1", unsigned, self.moderator.as_str(), &self.signature)
    }
}

/// Record `a` ranks at least as high as `b`: a greater sequence, or the same
/// sequence and a scope at least as specific.
pub open spec fn ranks_at_least(a: ModerationRecord, b: ModerationRecord) -> bool {
    a.sequence > b.sequence || (a.sequence == b.sequence && scope_specificity(a.scope) >= scope_specificity(b.scope))
}

/// `w` is the last applicable record of the highest rank.
pub open spec fn selected_record(rs: Seq<ModerationRecord>, c: ModerationContext, w: int) -> bool {
    &&& 0 <= w < rs.len()
    &&& scope_applies_to(rs[w].scope, c)
    &&& forall|j: int| 0 <= j < w && scope_applies_to(#[trigger] rs[j].scope, c) ==> ranks_at_least(rs[w], rs[j])
    &&& forall|j: int| w < j < rs.len() && scope_applies_to(#[trigger] rs[j].scope, c) ==> !ranks_at_least(rs[j], rs[w])
}

/// The moderation decision for a context over the records of its content:
/// the action of the most recent applicable record, the more specific scope
/// winning ties (the later record where both tie), or `Show` when none
/// applies.
pub fn moderation_decision(records: &[ModerationRecord], context: &ModerationContext) -> (a: ModerationAction)
    ensures
        (forall|j: int| 0 <= j < records@.len() ==> !scope_applies_to(#[trigger] records@[j].scope, *context)) ==> a
            == ModerationAction::Show,
        (exists|j: int| 0 <= j < records@.len() && scope_applies_to(#[trigger] records@[j].scope, *context)) ==> exists|w: int|
            #[trigger] selected_record(records@, *context, w) && a == records@[w].action,
{
    let mut best: Option<usize> = None;
    let mut i: usize = 0;
    while i < records.len()
        invariant
            i <= records@.len(),
            match best {
                None => forall|j: int| 0 <= j < i ==> !scope_applies_to(#[trigger] records@[j].scope, *context),
                Some(w) => w < i && selected_record(records@.take(i as int), *context, w as int),
            },
        decreases records.len() - i,
    {
        let r = &records[i];
        if r.scope.applies_to(context) {
            let take_it = match best {
                None => true,
                Some(w) => {
                    let b = &records[w];
                    r.sequence > b.sequence || (r.sequence == b.sequence && r.scope.specificity()
                        >= b.scope.specificity())
                },
            };
            proof {
                let pre = records@.take(i as int);
                let post = records@.take(i + 1);
                assert forall|j: int| 0 <= j < i implies post[j] == pre[j] && pre[j] == records@[j] by {}
                match best {
                    Some(w) => {
                        if take_it {
                            assert(selected_record(post, *context, i as int)) by {
                                assert forall|j: int| 0 <= j < i && scope_applies_to(#[trigger] post[j].scope, *context)
                                    implies ranks_at_least(post[i as int], post[j]) by {
                                    assert(post[j] == pre[j]);
                                    if j != w {
                                        assert(ranks_at_least(pre[w as int], pre[j]) || j > w);
                                    }
                                }
                            }
                        } else {
                            assert(selected_record(post, *context, w as int)) by {
                                assert forall|j: int| w < j < post.len() && scope_applies_to(#[trigger] post[j].scope, *context)
                                    implies !ranks_at_least(post[j], post[w as int]) by {
                                    if j < i {
                                        assert(post[j] == pre[j]);
                                    }
                                }
                            }
                        }
                    },
                    None => {
                        assert(selected_record(post, *context, i as int));
                    },
                }
            }
            if take_it {
                best = Some(i);
            }
        } else {
            proof {
                let pre = records@.take(i as int);
                let post = records@.take(i + 1);
                match best {
                    Some(w) => {
                        assert(selected_record(post, *context, w as int)) by {
                            assert forall|j: int| 0 <= j < post.len() implies post[j] == records@[j] by {}
                            assert forall|j: int| 0 <= j < pre.len() implies pre[j] == records@[j] by {}
                        }
                    },
                    None => {},
                }
            }
        }
        i += 1;
    }
    assert(records@.take(records@.len() as int) =~= records@);
    match best {
        None => ModerationAction::Show,
        Some(w) => records[w].action,
    }
}

/// Kinds of signed provenance metadata.
#[derive(Debug)]
pub enum AttestationKind {
    License,
    Provenance,
    Derivative,
    Other(String),
}

/// A signed license, provenance, or derivative attestation.
#[derive(Debug)]
pub struct Attestation {
    pub content: [u8; 32],
    pub issuer: String,
    pub kind: AttestationKind,
    pub value: String,
    pub sequence: u64,
    pub issued_at: u64,
    pub signature: Option<String>,
}

/// The attestation's fields are valid.
pub open spec fn attestation_fields_ok(a: Attestation) -> bool {
    a.sequence != 0 && trim(a.value@).len() > 0 && decoded_key(a.issuer@) is Some
}

impl Attestation {
    /// Validate the fields.
    pub fn validate(&self) -> (r: Result<()>)
        ensures
            r is Ok <==> attestation_fields_ok(*self),
            r is Err && (self.sequence == 0 || trim(self.value@).len() == 0) ==> r->Err_0 is InvalidConfig,
            r is Err && !(self.sequence == 0 || trim(self.value@).len() == 0) ==> r->Err_0 is InvalidIdentity,
    {
        if self.sequence == 0 {
            return Err(SyncwebError::InvalidConfig("attestation sequence must be greater than zero".to_string()));
        }
        if blank(&self.value) {
            return Err(SyncwebError::InvalidConfig("attestation value cannot be empty".to_string()));
        }
        parse_author(self.issuer.as_str())?;
        Ok(())
    }

    /// Sign with the issuer's secret key over `unsigned`.
    pub fn sign(&mut self, secret: &[u8; 32], unsigned: &[u8]) -> (r: Result<()>)
        ensures
            r is Ok <==> old(self).issuer@ == hex_text(ed25519_public_of(secret@)),
            r is Err ==> r->Err_0 is InvalidIdentity && *final(self) == *old(self),
            r is Ok ==> (final(self).signature matches Some(s) && s@ == hex_text(
                ed25519_signature_of(secret@, signed_payload("syncweb/wot/attestation/v1"@, unsigned@)),
            )),
            final(self).content == old(self).content && final(self).issuer == old(self).issuer
                && final(self).kind == old(self).kind && final(self).value == old(self).value
                && final(self).sequence == old(self).sequence && final(self).issued_at == old(self).issued_at,
    {
        ensure_signer(self.issuer.as_str(), secret)?;
        self.signature = Some(sign_text("syncweb/wot/attestation/v1", unsigned, secret));
        Ok(())
    }

    /// Verify the fields and the issuer's signature over `unsigned`.
    pub fn verify_signature(&self, unsigned: &[u8]) -> (r: Result<()>)
        ensures
            r is Ok <==> attestation_fields_ok(*self) && text_signature_valid(
                "syncweb/wot/attestation/v1"@,
                unsigned@,
                self.issuer@,
                self.signature,
            ),
    {
        self.validate()?;
        verify_text("syncweb/wot/attestation/v1", unsigned, self.issuer.as_str(), &self.signature)
    }
}

/// Signed metadata appended to a content hash.
#[derive(Debug)]
pub struct MetadataEntry {
    pub content: [u8; 32],
    pub key: String,
    pub value: String,
    pub author: String,
    pub sequence: u64,
    pub created_at: u64,
    pub signature: Option<String>,
}

/// The metadata entry's fields are valid: a key, a positive sequence and a
/// usable author key.
pub open spec fn metadata_fields_ok(m: MetadataEntry) -> bool {
    trim(m.key@).len() > 0 && m.sequence != 0 && decoded_key(m.author@) is Some
}

impl MetadataEntry {
    /// Unsigned metadata by the author key `author`, checked before it is
    /// handed back.
    pub fn unsigned(
        content: [u8; 32],
        key: &str,
        value: &str,
        sequence: u64,
        created_at: u64,
        author: &[u8; 32],
    ) -> (r: Result<Self>)
        ensures
            r is Ok <==> trim(key@).len() > 0 && sequence != 0 && decoded_key(hex_text(author@)) is Some,
            r matches Ok(m) ==> m.content == content && m.key@ == key@ && m.value@ == value@ && m.author@ == hex_text(
                author@,
            ) && m.sequence == sequence && m.created_at == created_at && m.signature is None,
    {
        let entry = MetadataEntry {
            content,
            key: key.to_string(),
            value: value.to_string(),
            author: author_id(author),
            sequence,
            created_at,
            signature: None,
        };
        entry.validate()?;
        Ok(entry)
    }

    /// Validate the fields.
    pub fn validate(&self) -> (r: Result<()>)
        ensures
            r is Ok <==> metadata_fields_ok(*self),
            r is Err && (trim(self.key@).len() == 0 || self.sequence == 0) ==> r->Err_0 is InvalidConfig,
            r is Err && !(trim(self.key@).len() == 0 || self.sequence == 0) ==> r->Err_0 is InvalidIdentity,
    {
        if blank(&self.key) {
            return Err(SyncwebError::InvalidConfig("Web-of-Trust metadata key cannot be empty".to_string()));
        }
        if self.sequence == 0 {
            return Err(
                SyncwebError::InvalidConfig("Web-of-Trust metadata sequence must be greater than zero".to_string()),
            );
        }
        parse_author(self.author.as_str())?;
        Ok(())
    }

    /// Sign with the author's secret key over `unsigned`.
    pub fn sign(&mut self, secret: &[u8; 32], unsigned: &[u8]) -> (r: Result<()>)
        ensures
            r is Ok <==> old(self).author@ == hex_text(ed25519_public_of(secret@)),
            r is Err ==> r->Err_0 is InvalidIdentity && *final(self) == *old(self),
            r is Ok ==> (final(self).signature matches Some(s) && s@ == hex_text(
                ed25519_signature_of(secret@, signed_payload("syncweb/wot/metadata/v1"@, unsigned@)),
            )),
            final(self).content == old(self).content && final(self).key == old(self).key && final(self).value
                == old(self).value && final(self).author == old(self).author && final(self).sequence == old(
                self,
            ).sequence && final(self).created_at == old(self).created_at,
    {
        ensure_signer(self.author.as_str(), secret)?;
        self.signature = Some(sign_text("syncweb/wot/metadata/v1", unsigned, secret));
        Ok(())
    }

    /// Verify the fields and the author's signature over `unsigned`.
    pub fn verify_signature(&self, unsigned: &[u8]) -> (r: Result<()>)
        ensures
            r is Ok <==> metadata_fields_ok(*self) && text_signature_valid(
                "syncweb/wot/metadata/v1"@,
                unsigned@,
                self.author@,
                self.signature,
            ),
    {
        self.validate()?;
        verify_text("syncweb/wot/metadata/v1", unsigned, self.author.as_str(), &self.signature)
    }
}

/// A publisher-signed self-revocation for a content hash.
#[derive(Debug)]
pub struct RevocationRecord {
    pub content: [u8; 32],
    pub publisher: String,
    pub sequence: u64,
    pub revoked_at: u64,
    pub reason: String,
    pub signature: Option<String>,
}

/// The revocation's fields are valid: a positive sequence, a reason and a
/// usable publisher key.
pub open spec fn revocation_fields_ok(r: RevocationRecord) -> bool {
    r.sequence != 0 && trim(r.reason@).len() > 0 && decoded_key(r.publisher@) is Some
}

impl RevocationRecord {
    /// An unsigned self-revocation by the key of `secret`.
    pub fn unsigned(content: [u8; 32], sequence: u64, reason: &str, revoked_at: u64, secret: &[u8; 32]) -> (r: Self)
        ensures
            r.content == content && r.sequence == sequence && r.reason@ == reason@ && r.revoked_at == revoked_at,
            r.publisher@ == hex_text(ed25519_public_of(secret@)),
            r.signature is None,
    {
        let public = ed25519_public_key(secret);
        RevocationRecord {
            content,
            publisher: author_id(&public),
            sequence,
            revoked_at,
            reason: reason.to_string(),
            signature: None,
        }
    }

    /// Validate the fields.
    pub fn validate(&self) -> (r: Result<()>)
        ensures
            r is Ok <==> revocation_fields_ok(*self),
            r is Err && (self.sequence == 0 || trim(self.reason@).len() == 0) ==> r->Err_0 is InvalidConfig,
            r is Err && !(self.sequence == 0 || trim(self.reason@).len() == 0) ==> r->Err_0 is InvalidIdentity,
    {
        if self.sequence == 0 {
            return Err(SyncwebError::InvalidConfig("revocation sequence must be greater than zero".to_string()));
        }
        if blank(&self.reason) {
            return Err(SyncwebError::InvalidConfig("revocation reason cannot be empty".to_string()));
        }
        parse_author(self.publisher.as_str())?;
        Ok(())
    }

    /// Sign with the publisher's secret key over `unsigned`.
    pub fn sign(&mut self, secret: &[u8; 32], unsigned: &[u8]) -> (r: Result<()>)
        ensures
            r is Ok <==> old(self).publisher@ == hex_text(ed25519_public_of(secret@)),
            r is Err ==> r->Err_0 is InvalidIdentity && *final(self) == *old(self),
            r is Ok ==> (final(self).signature matches Some(s) && s@ == hex_text(
                ed25519_signature_of(secret@, signed_payload("syncweb/wot/revocation/v1"@, unsigned@)),
            )),
            final(self).content == old(self).content && final(self).publisher == old(self).publisher
                && final(self).sequence == old(self).sequence && final(self).revoked_at == old(self).revoked_at
                && final(self).reason == old(self).reason,
    {
        ensure_signer(self.publisher.as_str(), secret)?;
        self.signature = Some(sign_text("syncweb/wot/revocation/v1", unsigned, secret));
        Ok(())
    }

    /// Verify the fields and the publisher's signature over `unsigned`.
    pub fn verify_signature(&self, unsigned: &[u8]) -> (r: Result<()>)
        ensures
            r is Ok <==> revocation_fields_ok(*self) && text_signature_valid(
                "syncweb/wot/revocation/v1"@,
                unsigned@,
                self.publisher@,
                self.signature,
            ),
    {
        self.validate()?;
        verify_text("syncweb/wot/revocation/v1", unsigned, self.publisher.as_str(), &self.signature)
    }
}

/// A signed signal broadcast on the shared gossip topic.
#[derive(Debug)]
pub enum SignedSignal {
    /// A content attestation.
    Attestation(Attestation),
}

impl SignedSignal {
    /// Verify the carried signal over `unsigned`, its encoding without the
    /// signature.
    pub fn verify_signature(&self, unsigned: &[u8]) -> (r: Result<()>)
        ensures
            r is Ok <==> match self {
                SignedSignal::Attestation(a) => attestation_fields_ok(*a) && text_signature_valid(
                    "syncweb/wot/attestation/v1"@,
                    unsigned@,
                    a.issuer@,
                    a.signature,
                ),
            },
    {
        match self {
            SignedSignal::Attestation(a) => a.verify_signature(unsigned),
        }
    }
}

/// The moderation records of one content hash, in arrival order.
pub open spec fn records_for(s: Seq<ModerationRecord>, content: Seq<u8>) -> Seq<ModerationRecord> {
    s.filter(of_content(content))
}

/// The test that a record is about `content`.
pub open spec fn of_content(content: Seq<u8>) -> spec_fn(ModerationRecord) -> bool {
    |r: ModerationRecord| r.content@ == content
}

/// The records some references point to.
pub open spec fn derefs(s: Seq<&ModerationRecord>) -> Seq<ModerationRecord> {
    s.map_values(|x: &ModerationRecord| *x)
}

/// `w` is the last record of the highest rank: the greatest sequence, then
/// the most specific scope.
pub open spec fn best_record(rs: Seq<ModerationRecord>, w: int) -> bool {
    &&& 0 <= w < rs.len()
    &&& forall|j: int| 0 <= j < w ==> ranks_at_least(rs[w], #[trigger] rs[j])
    &&& forall|j: int| w < j < rs.len() ==> !ranks_at_least(#[trigger] rs[j], rs[w])
}

/// The latest self-revocation stored for a content hash.
pub open spec fn revocation_of(s: Seq<RevocationRecord>, content: Seq<u8>) -> Option<RevocationRecord>
    decreases s.len(),
{
    if s.len() == 0 {
        None
    } else if s.last().content@ == content {
        Some(s.last())
    } else {
        revocation_of(s.drop_last(), content)
    }
}

/// What identifies a moderation scope, by the views of its fields.
pub open spec fn scope_key(s: ModerationScope) -> (u8, Seq<char>, Seq<u8>, Seq<u8>) {
    match s {
        ModerationScope::Global => (0, Seq::empty(), Seq::empty(), Seq::empty()),
        ModerationScope::Network(n) => (1, n@, Seq::empty(), Seq::empty()),
        ModerationScope::Folder(ns) => (2, Seq::empty(), ns@, Seq::empty()),
        ModerationScope::File { namespace_id, key } => (3, Seq::empty(), namespace_id@, key@),
    }
}

/// A stored record of the same content and scope has at least this
/// record's sequence.
pub open spec fn moderation_superseded(s: Seq<ModerationRecord>, r: ModerationRecord) -> bool {
    exists|i: int|
        0 <= i < s.len() && (#[trigger] s[i]).content@ == r.content@ && scope_key(s[i].scope) == scope_key(r.scope)
            && s[i].sequence >= r.sequence
}

/// An attestation of the same content, issuer and sequence is stored.
pub open spec fn attestation_held(s: Seq<Attestation>, a: Attestation) -> bool {
    exists|i: int|
        0 <= i < s.len() && (#[trigger] s[i]).content@ == a.content@ && s[i].issuer@ == a.issuer@ && s[i].sequence
            == a.sequence
}

/// The test that a record is a global record about `content`.
pub open spec fn global_of(content: Seq<u8>) -> spec_fn(ModerationRecord) -> bool {
    |r: ModerationRecord| r.content@ == content && r.scope is Global
}

/// The test that metadata is visible: its content is neither revoked by
/// its publisher nor hidden by its latest global moderation record.
pub open spec fn metadata_visible(revs: Seq<RevocationRecord>, mods: Seq<ModerationRecord>) -> spec_fn(
    MetadataEntry,
) -> bool {
    |e: MetadataEntry| revocation_of(revs, e.content@) is None && !globally_hidden(mods, e.content@)
}

/// `w` is the last record of the greatest sequence in `g`.
pub open spec fn latest_by_sequence(g: Seq<ModerationRecord>, w: int) -> bool {
    &&& 0 <= w < g.len()
    &&& forall|j: int| 0 <= j < w ==> g[w].sequence >= #[trigger] g[j].sequence
    &&& forall|j: int| w < j < g.len() ==> #[trigger] g[j].sequence < g[w].sequence
}

/// The latest global moderation record of the content hides it.
pub open spec fn globally_hidden(s: Seq<ModerationRecord>, content: Seq<u8>) -> bool {
    let g = s.filter(global_of(content));
    exists|w: int| #[trigger] latest_by_sequence(g, w) && (g[w].action is Hide || g[w].action is Quarantine)
}

proof fn lemma_latest_unique(g: Seq<ModerationRecord>, w: int, x: int)
    requires
        latest_by_sequence(g, w),
        latest_by_sequence(g, x),
    ensures
        w == x,
{
    if x < w {
        assert(g[w].sequence >= g[x].sequence);
        assert(g[w].sequence < g[x].sequence);
    } else if w < x {
        assert(g[x].sequence >= g[w].sequence);
        assert(g[x].sequence < g[w].sequence);
    }
}

fn scope_eq(a: &ModerationScope, b: &ModerationScope) -> (r: bool)
    ensures
        r == (scope_key(*a) == scope_key(*b)),
{
    match (a, b) {
        (ModerationScope::Global, ModerationScope::Global) => true,
        (ModerationScope::Network(x), ModerationScope::Network(y)) => str_eq(x.as_str(), y.as_str()),
        (ModerationScope::Folder(x), ModerationScope::Folder(y)) => {
            let e = crate::resilience::bytes_eq(x, y);
            e
        },
        (
            ModerationScope::File { namespace_id: n1, key: k1 },
            ModerationScope::File { namespace_id: n2, key: k2 },
        ) => crate::resilience::bytes_eq(n1, n2) && crate::resilience::bytes_eq(k1.as_slice(), k2.as_slice()),
        _ => false,
    }
}

/// The Web-of-Trust state of a node: its trust policy, the self-revocations
/// it has accepted, the moderation records and attestations it holds.
pub struct WotService {
    policy: TrustPolicy,
    revocations: Vec<RevocationRecord>,
    moderation: Vec<ModerationRecord>,
    attestations: Vec<Attestation>,
}

impl WotService {
    /// The trust policy.
    pub closed spec fn policy_spec(&self) -> TrustPolicy {
        self.policy
    }

    /// The accepted self-revocations, oldest first.
    pub closed spec fn revocation_seq(&self) -> Seq<RevocationRecord> {
        self.revocations@
    }

    /// The moderation records held, in arrival order.
    pub closed spec fn moderation_seq(&self) -> Seq<ModerationRecord> {
        self.moderation@
    }

    /// The attestations held, in arrival order.
    pub closed spec fn attestation_seq(&self) -> Seq<Attestation> {
        self.attestations@
    }

    /// A service over `policy`, holding nothing yet.
    pub fn new(policy: TrustPolicy) -> (w: Self)
        ensures
            w.policy_spec() == policy,
            w.revocation_seq().len() == 0,
            w.moderation_seq().len() == 0,
            w.attestation_seq().len() == 0,
    {
        WotService { policy, revocations: Vec::new(), moderation: Vec::new(), attestations: Vec::new() }
    }

    /// The trust policy.
    pub fn policy(&self) -> (p: &TrustPolicy)
        ensures
            *p == self.policy_spec(),
    {
        &self.policy
    }

    /// Trust an author as a local root.
    pub fn trust_author(&mut self, author: &[u8; 32])
        ensures
            final(self).policy_spec().root_set() == old(self).policy_spec().root_set().insert(hex_text(author@)),
            final(self).policy_spec().revoked_set() == old(self).policy_spec().revoked_set().remove(hex_text(author@)),
            final(self).policy_spec().delegation_seq() == old(self).policy_spec().delegation_seq(),
            final(self).revocation_seq() == old(self).revocation_seq(),
            final(self).moderation_seq() == old(self).moderation_seq(),
            final(self).attestation_seq() == old(self).attestation_seq(),
    {
        self.policy.trust_author(author);
    }

    /// Add a delegation to the policy at `now`, as `TrustPolicy::add_delegation_at` does.
    pub fn add_delegation_at(&mut self, delegation: TrustDelegation, unsigned: &[u8], now: u64) -> (r: Result<bool>)
        ensures
            r is Ok <==> delegation_verifies(delegation, unsigned@) && delegation.expires_at > now && (old(
                self,
            ).policy_spec().decision(
                delegation.delegator@,
                match delegation.scope {
                    Some(s) => Some(s@),
                    None => None,
                },
                now,
            ) is TrustedRoot || old(self).policy_spec().decision(
                delegation.delegator@,
                match delegation.scope {
                    Some(s) => Some(s@),
                    None => None,
                },
                now,
            ) is TrustedDelegation),
            r matches Ok(added) ==> added == !superseded(old(self).policy_spec().delegation_seq(), delegation),
            !(r matches Ok(true)) ==> final(self).policy_spec().delegation_seq() == old(
                self,
            ).policy_spec().delegation_seq(),
            final(self).revocation_seq() == old(self).revocation_seq(),
            final(self).moderation_seq() == old(self).moderation_seq(),
            final(self).attestation_seq() == old(self).attestation_seq(),
    {
        self.policy.add_delegation_at(delegation, unsigned, now)
    }

    /// Accept a publisher's signed self-revocation: `Ok(false)` when one of
    /// the same content with at least its sequence is held.
    pub fn revoke_self(&mut self, record: RevocationRecord, unsigned: &[u8]) -> (r: Result<bool>)
        ensures
            r is Ok <==> revocation_fields_ok(record) && text_signature_valid(
                "syncweb/wot/revocation/v1"@,
                unsigned@,
                record.publisher@,
                record.signature,
            ),
            r matches Ok(added) ==> added == !(revocation_of(old(self).revocation_seq(), record.content@) matches Some(
                e,
            ) && e.sequence >= record.sequence),
            r matches Ok(true) ==> final(self).revocation_seq() == old(self).revocation_seq().push(record),
            !(r matches Ok(true)) ==> final(self).revocation_seq() == old(self).revocation_seq(),
            final(self).policy_spec() == old(self).policy_spec(),
            final(self).moderation_seq() == old(self).moderation_seq(),
            final(self).attestation_seq() == old(self).attestation_seq(),
    {
        record.verify_signature(unsigned)?;
        let existing = self.find_revocation(&record.content);
        match existing {
            Some(i) => {
                if self.revocations[i].sequence >= record.sequence {
                    return Ok(false);
                }
            },
            None => {},
        }
        self.revocations.push(record);
        Ok(true)
    }

    fn find_revocation(&self, content: &[u8; 32]) -> (r: Option<usize>)
        ensures
            match r {
                Some(i) => i < self.revocations@.len() && revocation_of(self.revocations@, content@) == Some(
                    self.revocations@[i as int],
                ),
                None => revocation_of(self.revocations@, content@) is None,
            },
    {
        let mut j: usize = self.revocations.len();
        assert(self.revocations@.take(j as int) =~= self.revocations@);
        while j > 0
            invariant
                j <= self.revocations@.len(),
                revocation_of(self.revocations@, content@) == revocation_of(
                    self.revocations@.take(j as int),
                    content@,
                ),
            decreases j,
        {
            let ghost t = self.revocations@.take(j as int);
            assert(t.drop_last() =~= self.revocations@.take(j - 1));
            if crate::resilience::bytes_eq(&self.revocations[j - 1].content, content) {
                return Some(j - 1);
            }
            j -= 1;
        }
        None
    }

    /// Whether the content's publisher has revoked it.
    pub fn is_revoked(&self, content: &[u8; 32]) -> (b: bool)
        ensures
            b == revocation_of(self.revocation_seq(), content@) is Some,
    {
        self.find_revocation(content).is_some()
    }

    /// Hold a signed moderation record from a moderator trusted for its
    /// content at `now`: `Ok(false)` when one of the same content and scope
    /// with at least its sequence is held.
    #[verifier::loop_isolation(false)]
    pub fn apply_moderation_at(&mut self, record: ModerationRecord, unsigned: &[u8], now: u64) -> (r: Result<bool>)
        ensures
            r is Ok <==> moderation_fields_ok(record) && text_signature_valid(
                "syncweb/wot/moderation/v1"@,
                unsigned@,
                record.moderator@,
                record.signature,
            ) && old(self).policy_spec().decision(record.moderator@, Some(record.content@), now).is_trusted_spec(),
            r is Err && moderation_fields_ok(record) && text_signature_valid(
                "syncweb/wot/moderation/v1"@,
                unsigned@,
                record.moderator@,
                record.signature,
            ) ==> (r matches Err(SyncwebError::InvalidIdentity(m)) && m@ == "moderator is not trusted for this content"@),
            r matches Ok(added) ==> added == !moderation_superseded(old(self).moderation_seq(), record),
            r matches Ok(true) ==> final(self).moderation_seq() == old(self).moderation_seq().push(record),
            !(r matches Ok(true)) ==> final(self).moderation_seq() == old(self).moderation_seq(),
            final(self).policy_spec() == old(self).policy_spec(),
            final(self).revocation_seq() == old(self).revocation_seq(),
            final(self).attestation_seq() == old(self).attestation_seq(),
    {
        record.verify_signature(unsigned)?;
        if !self.policy.is_trusted_for_at(record.moderator.as_str(), Some(&record.content), now) {
            return Err(SyncwebError::InvalidIdentity("moderator is not trusted for this content".to_string()));
        }
        let mut i: usize = 0;
        while i < self.moderation.len()
            invariant
                i <= self.moderation@.len(),
                forall|j: int|
                    0 <= j < i ==> !((#[trigger] self.moderation@[j]).content@ == record.content@ && scope_key(
                        self.moderation@[j].scope,
                    ) == scope_key(record.scope) && self.moderation@[j].sequence >= record.sequence),
            decreases self.moderation.len() - i,
        {
            let e = &self.moderation[i];
            if crate::resilience::bytes_eq(&e.content, &record.content) && scope_eq(&e.scope, &record.scope)
                && e.sequence >= record.sequence {
                return Ok(false);
            }
            i += 1;
        }
        self.moderation.push(record);
        Ok(true)
    }

    /// Hold a signed moderation record from a moderator trusted for its
    /// content now, by the wall clock.
    pub fn apply_moderation(&mut self, record: ModerationRecord, unsigned: &[u8]) -> (r: Result<bool>)
        ensures
            r is Ok ==> moderation_fields_ok(record) && text_signature_valid(
                "syncweb/wot/moderation/v1"@,
                unsigned@,
                record.moderator@,
                record.signature,
            ),
            r matches Ok(added) ==> added == !moderation_superseded(old(self).moderation_seq(), record),
            r matches Ok(true) ==> final(self).moderation_seq() == old(self).moderation_seq().push(record),
            !(r matches Ok(true)) ==> final(self).moderation_seq() == old(self).moderation_seq(),
            final(self).policy_spec() == old(self).policy_spec(),
    {
        self.apply_moderation_at(record, unsigned, current_epoch_seconds())
    }

    fn collect_records(&self, content: &[u8; 32]) -> (r: Vec<&ModerationRecord>)
        ensures
            derefs(r@) == records_for(self.moderation@, content@),
    {
        let mut r: Vec<&ModerationRecord> = Vec::new();
        let mut i: usize = 0;
        while i < self.moderation.len()
            invariant
                i <= self.moderation@.len(),
                derefs(r@) == self.moderation@.take(i as int).filter(of_content(content@)),
            decreases self.moderation.len() - i,
        {
            let ghost r0 = r@;
            proof {
                reveal(Seq::filter);
                assert(self.moderation@.take(i + 1).drop_last() =~= self.moderation@.take(i as int));
                assert(self.moderation@.take(i + 1).last() == self.moderation@[i as int]);
            }
            let m = &self.moderation[i];
            if crate::resilience::bytes_eq(&m.content, content) {
                r.push(m);
                assert(derefs(r@) =~= derefs(r0).push(*m));
            } else {
                assert(r@ == r0);
            }
            i += 1;
        }
        assert(self.moderation@.take(self.moderation@.len() as int) =~= self.moderation@);
        r
    }

    /// The highest-ranked moderation record held for `content`: the greatest
    /// sequence, then the most specific scope, the later one on a tie.
    pub fn moderation(&self, content: &[u8; 32]) -> (r: Option<&ModerationRecord>)
        ensures
            match r {
                None => records_for(self.moderation_seq(), content@).len() == 0,
                Some(m) => exists|w: int|
                    #[trigger] best_record(records_for(self.moderation_seq(), content@), w) && *m == records_for(
                        self.moderation_seq(),
                        content@,
                    )[w],
            },
    {
        let rs = self.collect_records(content);
        let ghost v = derefs(rs@);
        let mut best: Option<usize> = None;
        let mut i: usize = 0;
        while i < rs.len()
            invariant
                i <= rs@.len(),
                v == derefs(rs@),
                match best {
                    None => i == 0,
                    Some(w) => w < i && best_record(v.take(i as int), w as int),
                },
            decreases rs.len() - i,
        {
            let m = rs[i];
            let take_it = match best {
                None => true,
                Some(w) => {
                    let b = rs[w];
                    m.sequence > b.sequence || (m.sequence == b.sequence && m.scope.specificity()
                        >= b.scope.specificity())
                },
            };
            proof {
                let pre = v.take(i as int);
                let post = v.take(i + 1);
                assert(v[i as int] == *m);
                assert forall|j: int| 0 <= j < i implies post[j] == pre[j] && pre[j] == v[j] by {}
                match best {
                    Some(w) => {
                        assert(v[w as int] == *rs@[w as int]);
                        if take_it {
                            assert(best_record(post, i as int)) by {
                                assert forall|j: int| 0 <= j < i implies ranks_at_least(post[i as int], #[trigger] post[j]) by {
                                    assert(post[j] == pre[j]);
                                    if j != w {
                                        assert(ranks_at_least(pre[w as int], pre[j]) || j > w);
                                    }
                                }
                            }
                        } else {
                            assert(best_record(post, w as int)) by {
                                assert forall|j: int| w < j < post.len() implies !ranks_at_least(#[trigger] post[j], post[w as int]) by {
                                    if j < i {
                                        assert(post[j] == pre[j]);
                                    }
                                }
                            }
                        }
                    },
                    None => {
                        assert(best_record(post, 0));
                    },
                }
            }
            if take_it {
                best = Some(i);
            }
            i += 1;
        }
        assert(v.take(v.len() as int) =~= v);
        assert(v.len() == rs@.len());
        assert(self.moderation_seq() == self.moderation@);
        match best {
            None => None,
            Some(w) => {
                assert(v[w as int] == *rs@[w as int]);
                Some(rs[w])
            },
        }
    }

    /// The moderation decision for a context over the records held for its
    /// content, as `moderation_decision` makes it.
    pub fn moderation_decision(&self, context: &ModerationContext) -> (a: ModerationAction)
        ensures
            ({
                let rs = records_for(self.moderation_seq(), context.content@);
                &&& (forall|j: int| 0 <= j < rs.len() ==> !scope_applies_to(#[trigger] rs[j].scope, *context)) ==> a
                    == ModerationAction::Show
                &&& (exists|j: int| 0 <= j < rs.len() && scope_applies_to(#[trigger] rs[j].scope, *context))
                    ==> exists|w: int| #[trigger] selected_record(rs, *context, w) && a == rs[w].action
            }),
    {
        let rs = self.collect_records(&context.content);
        let ghost v = derefs(rs@);
        let mut best: Option<usize> = None;
        let mut i: usize = 0;
        while i < rs.len()
            invariant
                i <= rs@.len(),
                v == derefs(rs@),
                match best {
                    None => forall|j: int| 0 <= j < i ==> !scope_applies_to(#[trigger] v[j].scope, *context),
                    Some(w) => w < i && selected_record(v.take(i as int), *context, w as int),
                },
            decreases rs.len() - i,
        {
            let r = rs[i];
            proof {
                assert(v[i as int] == *r);
            }
            if r.scope.applies_to(context) {
                let take_it = match best {
                    None => true,
                    Some(w) => {
                        let b = rs[w];
                        r.sequence > b.sequence || (r.sequence == b.sequence && r.scope.specificity()
                            >= b.scope.specificity())
                    },
                };
                proof {
                    let pre = v.take(i as int);
                    let post = v.take(i + 1);
                    assert forall|j: int| 0 <= j < i implies post[j] == pre[j] && pre[j] == v[j] by {}
                    match best {
                        Some(w) => {
                            assert(v[w as int] == *rs@[w as int]);
                            if take_it {
                                assert(selected_record(post, *context, i as int)) by {
                                    assert forall|j: int| 0 <= j < i && scope_applies_to(#[trigger] post[j].scope, *context)
                                        implies ranks_at_least(post[i as int], post[j]) by {
                                        assert(post[j] == pre[j]);
                                        if j != w {
                                            assert(ranks_at_least(pre[w as int], pre[j]) || j > w);
                                        }
                                    }
                                }
                            } else {
                                assert(selected_record(post, *context, w as int)) by {
                                    assert forall|j: int| w < j < post.len() && scope_applies_to(#[trigger] post[j].scope, *context)
                                        implies !ranks_at_least(post[j], post[w as int]) by {
                                        if j < i {
                                            assert(post[j] == pre[j]);
                                        }
                                    }
                                }
                            }
                        },
                        None => {
                            assert(selected_record(post, *context, i as int));
                        },
                    }
                }
                if take_it {
                    best = Some(i);
                }
            } else {
                proof {
                    let pre = v.take(i as int);
                    let post = v.take(i + 1);
                    match best {
                        Some(w) => {
                            assert(selected_record(post, *context, w as int)) by {
                                assert forall|j: int| 0 <= j < post.len() implies post[j] == v[j] by {}
                                assert forall|j: int| 0 <= j < pre.len() implies pre[j] == v[j] by {}
                            }
                        },
                        None => {},
                    }
                }
            }
            i += 1;
        }
        assert(v.take(v.len() as int) =~= v);
        match best {
            None => ModerationAction::Show,
            Some(w) => rs[w].action,
        }
    }

    /// The same as `moderation_decision`.
    pub fn evaluate_moderation(&self, context: &ModerationContext) -> (a: ModerationAction)
        ensures
            ({
                let rs = records_for(self.moderation_seq(), context.content@);
                &&& (forall|j: int| 0 <= j < rs.len() ==> !scope_applies_to(#[trigger] rs[j].scope, *context)) ==> a
                    == ModerationAction::Show
                &&& (exists|j: int| 0 <= j < rs.len() && scope_applies_to(#[trigger] rs[j].scope, *context))
                    ==> exists|w: int| #[trigger] selected_record(rs, *context, w) && a == rs[w].action
            }),
    {
        self.moderation_decision(context)
    }

    /// Hold a signed attestation from an issuer trusted for its content at
    /// `now`: `Ok(false)` when one of the same content, issuer and sequence
    /// is held.
    #[verifier::loop_isolation(false)]
    pub fn append_attestation_at(&mut self, attestation: Attestation, unsigned: &[u8], now: u64) -> (r: Result<bool>)
        ensures
            r is Ok <==> attestation_fields_ok(attestation) && text_signature_valid(
                "syncweb/wot/attestation/v1"@,
                unsigned@,
                attestation.issuer@,
                attestation.signature,
            ) && old(self).policy_spec().decision(attestation.issuer@, Some(attestation.content@), now).is_trusted_spec(),
            r is Err && attestation_fields_ok(attestation) && text_signature_valid(
                "syncweb/wot/attestation/v1"@,
                unsigned@,
                attestation.issuer@,
                attestation.signature,
            ) ==> (r matches Err(SyncwebError::InvalidIdentity(m)) && m@
                == "attestation issuer is not trusted for this content"@),
            r matches Ok(added) ==> added == !attestation_held(old(self).attestation_seq(), attestation),
            r matches Ok(true) ==> final(self).attestation_seq() == old(self).attestation_seq().push(attestation),
            !(r matches Ok(true)) ==> final(self).attestation_seq() == old(self).attestation_seq(),
            final(self).policy_spec() == old(self).policy_spec(),
            final(self).revocation_seq() == old(self).revocation_seq(),
            final(self).moderation_seq() == old(self).moderation_seq(),
    {
        attestation.verify_signature(unsigned)?;
        if !self.policy.is_trusted_for_at(attestation.issuer.as_str(), Some(&attestation.content), now) {
            return Err(SyncwebError::InvalidIdentity("attestation issuer is not trusted for this content".to_string()));
        }
        let mut i: usize = 0;
        while i < self.attestations.len()
            invariant
                i <= self.attestations@.len(),
                forall|j: int|
                    0 <= j < i ==> !((#[trigger] self.attestations@[j]).content@ == attestation.content@
                        && self.attestations@[j].issuer@ == attestation.issuer@ && self.attestations@[j].sequence
                        == attestation.sequence),
            decreases self.attestations.len() - i,
        {
            let e = &self.attestations[i];
            if crate::resilience::bytes_eq(&e.content, &attestation.content) && str_eq(
                e.issuer.as_str(),
                attestation.issuer.as_str(),
            ) && e.sequence == attestation.sequence {
                return Ok(false);
            }
            i += 1;
        }
        self.attestations.push(attestation);
        Ok(true)
    }

    /// Hold a signed attestation from an issuer trusted for its content now.
    pub fn append_attestation(&mut self, attestation: Attestation, unsigned: &[u8]) -> (r: Result<bool>)
        ensures
            r is Ok ==> attestation_fields_ok(attestation) && text_signature_valid(
                "syncweb/wot/attestation/v1"@,
                unsigned@,
                attestation.issuer@,
                attestation.signature,
            ),
            r matches Ok(added) ==> added == !attestation_held(old(self).attestation_seq(), attestation),
            r matches Ok(true) ==> final(self).attestation_seq() == old(self).attestation_seq().push(attestation),
            !(r matches Ok(true)) ==> final(self).attestation_seq() == old(self).attestation_seq(),
    {
        self.append_attestation_at(attestation, unsigned, current_epoch_seconds())
    }

    /// Verify an attestation's fields and signature.
    pub fn verify_attestation(&self, attestation: &Attestation, unsigned: &[u8]) -> (r: Result<()>)
        ensures
            r is Ok <==> attestation_fields_ok(*attestation) && text_signature_valid(
                "syncweb/wot/attestation/v1"@,
                unsigned@,
                attestation.issuer@,
                attestation.signature,
            ),
    {
        attestation.verify_signature(unsigned)
    }

    /// Whether metadata may be appended at `now`: signed by an author
    /// trusted for its content, on content not revoked by its publisher.
    pub fn check_metadata_at(&self, entry: &MetadataEntry, unsigned: &[u8], now: u64) -> (r: Result<()>)
        ensures
            r is Ok <==> metadata_fields_ok(*entry) && text_signature_valid(
                "syncweb/wot/metadata/v1"@,
                unsigned@,
                entry.author@,
                entry.signature,
            ) && self.policy_spec().decision(entry.author@, Some(entry.content@), now).is_trusted_spec()
                && revocation_of(self.revocation_seq(), entry.content@) is None,
            r is Err && metadata_fields_ok(*entry) && text_signature_valid(
                "syncweb/wot/metadata/v1"@,
                unsigned@,
                entry.author@,
                entry.signature,
            ) && !self.policy_spec().decision(entry.author@, Some(entry.content@), now).is_trusted_spec() ==> (r matches Err(
                SyncwebError::InvalidIdentity(m),
            ) && m@ == "metadata author is not trusted for this content"@),
            r is Err && metadata_fields_ok(*entry) && text_signature_valid(
                "syncweb/wot/metadata/v1"@,
                unsigned@,
                entry.author@,
                entry.signature,
            ) && self.policy_spec().decision(entry.author@, Some(entry.content@), now).is_trusted_spec() ==> (r matches Err(
                SyncwebError::InvalidConfig(m),
            ) && m@ == "metadata cannot be appended to self-revoked content"@),
    {
        entry.verify_signature(unsigned)?;
        if !self.policy.is_trusted_for_at(entry.author.as_str(), Some(&entry.content), now) {
            return Err(SyncwebError::InvalidIdentity("metadata author is not trusted for this content".to_string()));
        }
        if self.is_revoked(&entry.content) {
            return Err(SyncwebError::InvalidConfig("metadata cannot be appended to self-revoked content".to_string()));
        }
        Ok(())
    }

    /// Whether metadata may be appended now, by the wall clock.
    pub fn check_metadata(&self, entry: &MetadataEntry, unsigned: &[u8]) -> (r: Result<()>)
        ensures
            r is Ok ==> metadata_fields_ok(*entry) && text_signature_valid(
                "syncweb/wot/metadata/v1"@,
                unsigned@,
                entry.author@,
                entry.signature,
            ) && revocation_of(self.revocation_seq(), entry.content@) is None,
    {
        self.check_metadata_at(entry, unsigned, current_epoch_seconds())
    }
}

impl WotService {
    fn collect_global(&self, content: &[u8; 32]) -> (r: Vec<&ModerationRecord>)
        ensures
            derefs(r@) == self.moderation@.filter(global_of(content@)),
    {
        let mut r: Vec<&ModerationRecord> = Vec::new();
        let mut i: usize = 0;
        while i < self.moderation.len()
            invariant
                i <= self.moderation@.len(),
                derefs(r@) == self.moderation@.take(i as int).filter(global_of(content@)),
            decreases self.moderation.len() - i,
        {
            let ghost r0 = r@;
            proof {
                reveal(Seq::filter);
                assert(self.moderation@.take(i + 1).drop_last() =~= self.moderation@.take(i as int));
                assert(self.moderation@.take(i + 1).last() == self.moderation@[i as int]);
            }
            let m = &self.moderation[i];
            let global = match m.scope {
                ModerationScope::Global => true,
                _ => false,
            };
            if crate::resilience::bytes_eq(&m.content, content) && global {
                r.push(m);
                assert(derefs(r@) =~= derefs(r0).push(*m));
            } else {
                assert(r@ == r0);
            }
            i += 1;
        }
        assert(self.moderation@.take(self.moderation@.len() as int) =~= self.moderation@);
        r
    }

    /// Whether the latest global moderation record of `content` hides it.
    pub fn is_globally_hidden(&self, content: &[u8; 32]) -> (b: bool)
        ensures
            b == globally_hidden(self.moderation_seq(), content@),
    {
        let rs = self.collect_global(content);
        let ghost g = derefs(rs@);
        let mut best: Option<usize> = None;
        let mut i: usize = 0;
        while i < rs.len()
            invariant
                i <= rs@.len(),
                g == derefs(rs@),
                match best {
                    None => i == 0,
                    Some(w) => w < i && latest_by_sequence(g.take(i as int), w as int),
                },
            decreases rs.len() - i,
        {
            let m = rs[i];
            proof {
                assert(g[i as int] == *m);
            }
            let take_it = match best {
                None => true,
                Some(w) => {
                    proof {
                        assert(g[w as int] == *rs@[w as int]);
                    }
                    m.sequence >= rs[w].sequence
                },
            };
            proof {
                let pre = g.take(i as int);
                let post = g.take(i + 1);
                assert forall|j: int| 0 <= j < i implies post[j] == pre[j] by {}
                match best {
                    Some(w) => {
                        if take_it {
                            assert(latest_by_sequence(post, i as int));
                        } else {
                            assert(latest_by_sequence(post, w as int));
                        }
                    },
                    None => {
                        assert(latest_by_sequence(post, 0));
                    },
                }
            }
            if take_it {
                best = Some(i);
            }
            i += 1;
        }
        assert(g.take(g.len() as int) =~= g);
        assert(g.len() == rs@.len());
        assert(self.moderation_seq() == self.moderation@);
        match best {
            None => {
                assert(g.len() == 0);
                false
            },
            Some(w) => {
                let hides = rs[w].action.hides_content();
                proof {
                    assert(g[w as int] == *rs@[w as int]);
                    assert(latest_by_sequence(g, w as int));
                    if globally_hidden(self.moderation@, content@) {
                        let x = choose|x: int| #[trigger] latest_by_sequence(g, x) && (g[x].action is Hide
                            || g[x].action is Quarantine);
                        lemma_latest_unique(g, w as int, x);
                    }
                }
                hides
            },
        }
    }

    /// The entries whose content is neither revoked by its publisher nor
    /// hidden by its latest global moderation record, in order.
    pub fn visible_metadata(&self, entries: &[MetadataEntry]) -> (r: Vec<MetadataEntry>)
        ensures
            r@ == entries@.filter(metadata_visible(self.revocation_seq(), self.moderation_seq())),
    {
        let ghost pred = metadata_visible(self.revocation_seq(), self.moderation_seq());
        let mut kept: Vec<MetadataEntry> = Vec::new();
        let mut i: usize = 0;
        while i < entries.len()
            invariant
                i <= entries@.len(),
                pred == metadata_visible(self.revocation_seq(), self.moderation_seq()),
                kept@ == entries@.take(i as int).filter(pred),
            decreases entries.len() - i,
        {
            proof {
                reveal(Seq::filter);
                assert(entries@.take(i + 1).drop_last() =~= entries@.take(i as int));
                assert(entries@.take(i + 1).last() == entries@[i as int]);
            }
            let e = &entries[i];
            let visible = !self.is_revoked(&e.content) && !self.is_globally_hidden(&e.content);
            if visible {
                kept.push(e.duplicate());
            }
            i += 1;
        }
        assert(entries@.take(entries@.len() as int) =~= entries@);
        kept
    }
}

impl MetadataEntry {
    /// A copy of the entry.
    pub fn duplicate(&self) -> (r: Self)
        ensures
            r == *self,
    {
        let signature = match &self.signature {
            Some(t) => Some(t.clone()),
            None => None,
        };
        MetadataEntry {
            content: self.content,
            key: self.key.clone(),
            value: self.value.clone(),
            author: self.author.clone(),
            sequence: self.sequence,
            created_at: self.created_at,
            signature,
        }
    }
}

/// Record `a` ranks strictly above `b`: a greater sequence, or the same
/// sequence and a more specific scope.
pub open spec fn ranks_above(a: ModerationRecord, b: ModerationRecord) -> bool {
    a.sequence > b.sequence || (a.sequence == b.sequence && scope_specificity(a.scope) > scope_specificity(b.scope))
}

/// `s` with `r` inserted after every record that does not rank below it.
pub open spec fn insert_ranked(s: Seq<ModerationRecord>, r: ModerationRecord) -> Seq<ModerationRecord>
    decreases s.len(),
{
    if s.len() == 0 {
        seq![r]
    } else if ranks_above(r, s.last()) {
        insert_ranked(s.drop_last(), r).push(s.last())
    } else {
        s.push(r)
    }
}

/// The records from the highest rank down, records of equal rank in their
/// given order.
pub open spec fn ranked(s: Seq<ModerationRecord>) -> Seq<ModerationRecord>
    decreases s.len(),
{
    if s.len() == 0 {
        s
    } else {
        insert_ranked(ranked(s.drop_last()), s.last())
    }
}

proof fn lemma_insert_ranked_at(s: Seq<ModerationRecord>, r: ModerationRecord, j: int)
    requires
        0 <= j <= s.len(),
        forall|k: int| j <= k < s.len() ==> ranks_above(r, #[trigger] s[k]),
        j == 0 || !ranks_above(r, s[j - 1]),
    ensures
        insert_ranked(s, r) == s.insert(j, r),
    decreases s.len(),
{
    if s.len() == 0 {
        assert(s.insert(j, r) =~= seq![r]);
    } else if j == s.len() {
        assert(s.insert(j, r) =~= s.push(r));
    } else {
        assert(ranks_above(r, s[s.len() - 1]));
        lemma_insert_ranked_at(s.drop_last(), r, j);
        assert(s.drop_last().insert(j, r).push(s.last()) =~= s.insert(j, r));
    }
}

fn rank_records<'a>(rs: &Vec<&'a ModerationRecord>) -> (r: Vec<&'a ModerationRecord>)
    ensures
        derefs(r@) == ranked(derefs(rs@)),
{
    let ghost v = derefs(rs@);
    let mut r: Vec<&ModerationRecord> = Vec::new();
    let mut i: usize = 0;
    assert(v.take(0) =~= Seq::<ModerationRecord>::empty());
    while i < rs.len()
        invariant
            v == derefs(rs@),
            i <= rs@.len(),
            derefs(r@) == ranked(v.take(i as int)),
        decreases rs.len() - i,
    {
        let x = rs[i];
        let mut j: usize = r.len();
        while j > 0 && (x.sequence > r[j - 1].sequence || (x.sequence == r[j - 1].sequence && x.scope.specificity()
            > r[j - 1].scope.specificity()))
            invariant
                j <= r@.len(),
                forall|k: int| j <= k < r@.len() ==> ranks_above(*x, #[trigger] derefs(r@)[k]),
            decreases j,
        {
            j -= 1;
        }
        proof {
            lemma_insert_ranked_at(derefs(r@), *x, j as int);
            assert(v.take(i + 1).drop_last() =~= v.take(i as int));
            assert(v.take(i + 1).last() == *x);
        }
        let ghost before = r@;
        r.insert(j, x);
        assert(derefs(r@) =~= derefs(before).insert(j as int, *x));
        i += 1;
    }
    assert(v.take(v.len() as int) =~= v);
    r
}

impl WotService {
    /// The records held for `content`, from the highest rank down.
    pub fn moderation_records(&self, content: &[u8; 32]) -> (r: Vec<&ModerationRecord>)
        ensures
            derefs(r@) == ranked(records_for(self.moderation_seq(), content@)),
    {
        let rs = self.collect_records(content);
        rank_records(&rs)
    }

    /// The records held, for one content or for all, from the highest rank
    /// down.
    pub fn list_moderation(&self, content: Option<&[u8; 32]>) -> (r: Vec<&ModerationRecord>)
        ensures
            content matches Some(c) ==> derefs(r@) == ranked(records_for(self.moderation_seq(), c@)),
            content is None ==> derefs(r@) == ranked(self.moderation_seq()),
    {
        match content {
            Some(c) => self.moderation_records(c),
            None => {
                let mut all: Vec<&ModerationRecord> = Vec::new();
                let mut i: usize = 0;
                while i < self.moderation.len()
                    invariant
                        i <= self.moderation@.len(),
                        derefs(all@) == self.moderation@.take(i as int),
                    decreases self.moderation.len() - i,
                {
                    let ghost a0 = all@;
                    all.push(&self.moderation[i]);
                    assert(derefs(all@) =~= derefs(a0).push(self.moderation@[i as int]));
                    assert(self.moderation@.take(i + 1) =~= self.moderation@.take(i as int).push(self.moderation@[i as int]));
                    i += 1;
                }
                assert(self.moderation@.take(self.moderation@.len() as int) =~= self.moderation@);
                rank_records(&all)
            },
        }
    }
}

impl TrustDecision {
    /// A root or a delegation chain vouches for the author.
    pub open spec fn is_trusted_spec(self) -> bool {
        self is TrustedRoot || self is TrustedDelegation
    }
}

/// Scopes grow strictly more specific from the whole web to a network, to
/// a folder, to one file of a folder.
pub proof fn law_scope_specificity_increases(network: String, folder: [u8; 32], file_folder: [u8; 32], key: Vec<u8>)
    ensures
        scope_specificity(ModerationScope::Global) < scope_specificity(ModerationScope::Network(network)),
        scope_specificity(ModerationScope::Network(network)) < scope_specificity(ModerationScope::Folder(folder)),
        scope_specificity(ModerationScope::Folder(folder)) < scope_specificity(
            ModerationScope::File { namespace_id: file_folder, key },
        ),
{
}

/// The record a moderation decision follows has the greatest sequence of
/// the records that apply; among applicable records of that sequence, one
/// scoped to a file is followed over one scoped to a folder, a folder over
/// a network, and a network over the whole web.
pub proof fn law_decision_prefers_recent_then_specific(
    rs: Seq<ModerationRecord>,
    c: ModerationContext,
    w: int,
    j: int,
)
    requires
        selected_record(rs, c, w),
        0 <= j < rs.len(),
        scope_applies_to(rs[j].scope, c),
    ensures
        rs[j].sequence <= rs[w].sequence,
        rs[j].sequence == rs[w].sequence && rs[j].scope is File ==> rs[w].scope is File,
        rs[j].sequence == rs[w].sequence && rs[j].scope is Folder ==> (rs[w].scope is Folder || rs[w].scope is File),
        rs[j].sequence == rs[w].sequence && rs[j].scope is Network ==> !(rs[w].scope is Global),
{
    if j < w {
        assert(ranks_at_least(rs[w], rs[j]));
    } else if j > w {
        assert(!ranks_at_least(rs[j], rs[w]));
    }
}

} // verus!
