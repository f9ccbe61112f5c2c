//! Device identities: node keys and their Syncthing-style device ID text
//! (base32 with a Luhn check character per group).
use vstd::prelude::*;

use crate::error::{Result, SyncwebError};
use crate::text::{chars_of, string_of, upper_char};

verus! {

/// Whether 32 bytes are a valid node key (`iroh_base::PublicKey::from_bytes`
/// accepts them).
pub uninterp spec fn iroh_key_valid(bytes: Seq<u8>) -> bool;

/// RFC 4648 base32 text of bytes, without padding.
pub uninterp spec fn base32_text(bytes: Seq<u8>) -> Seq<char>;

/// The bytes of RFC 4648 base32 text without padding, when it decodes.
pub uninterp spec fn base32_bytes(text: Seq<char>) -> Option<Seq<u8>>;

/// `iroh_base::PublicKey::from_bytes` succeeds on these bytes.
#[verifier::external_body]
pub fn iroh_key_is_valid(bytes: &[u8; 32]) -> (b: bool)
    ensures
        b == iroh_key_valid(bytes@),
{
    iroh_base::PublicKey::from_bytes(bytes).is_ok()
}

/// `base32::encode` with the RFC 4648 alphabet and no padding.
///
/// The text is named; the contract also states what the crate's code
/// shows: 32 bytes give 52 characters of the alphabet, which decode back
/// to the same bytes.
#[verifier::external_body]
fn base32_encode(bytes: &[u8; 32]) -> (s: String)
    ensures
        s@ == base32_text(bytes@),
        s@.len() == 52,
        forall|i: int| 0 <= i < s@.len() ==> alphabet_index(#[trigger] s@[i] as u8) is Some && s@[i] as u32 <= 0x7f,
        base32_bytes(s@) == Some(bytes@),
{
    base32::encode(base32::Alphabet::Rfc4648 { padding: false }, bytes)
}

/// `base32::decode` with the RFC 4648 alphabet and no padding.
#[verifier::external_body]
pub(crate) fn base32_decode(text: &str) -> (r: Option<Vec<u8>>)
    ensures
        match r {
            Some(v) => base32_bytes(text@) == Some(v@),
            None => base32_bytes(text@) is None,
        },
{
    base32::decode(base32::Alphabet::Rfc4648 { padding: false }, text)
}

/// Position of a byte in `ABCDEFGHIJKLMNOPQRSTUVWXYZ234567`.
pub open spec fn alphabet_index(c: u8) -> Option<nat> {
    if 65 <= c <= 90 {
        Some((c - 65) as nat)
    } else if 50 <= c <= 55 {
        Some((c - 24) as nat)
    } else {
        None
    }
}

/// The alphabet character at a position below 32.
pub open spec fn alphabet_char(i: nat) -> u8 {
    if i < 26 {
        (65 + i) as u8
    } else {
        (24 + i) as u8
    }
}

/// The Luhn term of a character `j` places from the end: its value doubled
/// on even places, as base-32 digits summed.
pub open spec fn luhn_term(cp: nat, j: nat) -> nat {
    let addend = if j % 2 == 0 {
        2 * cp
    } else {
        cp
    };
    addend / 32 + addend % 32
}

/// The Luhn sum of `s`, whose last character is `j` places from the end of
/// the whole input; `None` when a character is outside the alphabet.
pub open spec fn luhn_sum(s: Seq<u8>) -> Option<nat>
    decreases s.len(),
{
    if s.len() == 0 {
        Some(0)
    } else {
        match (alphabet_index(s[0]), luhn_sum(s.drop_first())) {
            (Some(cp), Some(rest)) => Some(luhn_term(cp, (s.len() - 1) as nat) + rest),
            _ => None,
        }
    }
}

/// The Luhn mod-32 check character of `s`; `None` when a character is
/// outside the alphabet or the sum leaves `usize`.
pub open spec fn luhn32_spec(s: Seq<u8>) -> Option<u8> {
    match luhn_sum(s) {
        Some(sum) => if sum <= usize::MAX {
            Some(alphabet_char(((32 - sum % 32) % 32) as nat))
        } else {
            None
        },
        None => None,
    }
}

fn alphabet_position(c: u8) -> (r: Option<usize>)
    ensures
        match r {
            Some(i) => alphabet_index(c) == Some(i as nat),
            None => alphabet_index(c) is None,
        },
{
    if 65 <= c && c <= 90 {
        Some((c - 65) as usize)
    } else if 50 <= c && c <= 55 {
        Some((c - 24) as usize)
    } else {
        None
    }
}

proof fn lemma_luhn_sum_monotone(s: Seq<u8>, i: int)
    requires
        0 <= i <= s.len(),
        luhn_sum(s) is Some,
    ensures
        luhn_sum(s.subrange(i, s.len() as int)) is Some,
        luhn_sum(s.subrange(i, s.len() as int))->0 <= luhn_sum(s)->0,
    decreases i,
{
    if i == 0 {
        assert(s.subrange(0, s.len() as int) =~= s);
    } else {
        lemma_luhn_sum_monotone(s, i - 1);
        let t = s.subrange(i - 1, s.len() as int);
        assert(t.drop_first() =~= s.subrange(i, s.len() as int));
    }
}

/// The Luhn mod-32 check character of base32 text: weights 2 and 1
/// alternate from the rightmost character, each product folds to its
/// base-32 digit sum, and the check value completes the total to a multiple
/// of 32.
pub fn luhn32(input: &[u8]) -> (r: Result<u8>)
    ensures
        r is Ok <==> luhn32_spec(input@) is Some,
        r is Ok ==> r->Ok_0 == luhn32_spec(input@)->0,
        r is Err ==> r->Err_0 is InvalidIdentity,
{
    let n = input.len();
    let mut i: usize = n;
    let mut factor: usize = 2;
    let mut sum: usize = 0;
    assert(input@.subrange(n as int, n as int) =~= Seq::<u8>::empty());
    while i > 0
        invariant
            i <= n == input@.len(),
            factor == (if (n - i) % 2 == 0 {
                2usize
            } else {
                1usize
            }),
            luhn_sum(input@.subrange(i as int, n as int)) == Some(sum as nat),
        decreases i,
    {
        let c = input[i - 1];
        let ghost t = input@.subrange(i - 1, n as int);
        assert(t.drop_first() =~= input@.subrange(i as int, n as int));
        assert(t[0] == c);
        let cp = match alphabet_position(c) {
            Some(p) => p,
            None => {
                proof {
                    lemma_luhn_none(input@, i - 1);
                }
                return Err(SyncwebError::InvalidIdentity("invalid Syncthing device ID base32 character".to_string()));
            },
        };
        let addend = factor * cp;
        let term = addend / 32 + addend % 32;
        assert(term as nat == luhn_term(cp as nat, (n - i) as nat));
        if sum > usize::MAX - term {
            proof {
                if luhn_sum(input@) is Some {
                    lemma_luhn_sum_monotone(input@, i - 1);
                }
            }
            return Err(SyncwebError::InvalidIdentity("math overflow".to_string()));
        }
        sum = sum + term;
        factor = if factor == 2 {
            1
        } else {
            2
        };
        i -= 1;
    }
    assert(input@.subrange(0, n as int) =~= input@);
    let index = (32 - sum % 32) % 32;
    let ch: u8 = if index < 26 {
        (65 + index) as u8
    } else {
        (24 + index) as u8
    };
    Ok(ch)
}

proof fn lemma_luhn_none(s: Seq<u8>, i: int)
    requires
        0 <= i < s.len(),
        alphabet_index(s[i]) is None,
    ensures
        luhn_sum(s) is None,
{
    if luhn_sum(s) is Some {
        lemma_luhn_sum_monotone(s, i);
        let t = s.subrange(i, s.len() as int);
        assert(t[0] == s[i]);
    }
}

/// A device identity: a node's 32-byte public key.
#[derive(Clone, Copy, Debug)]
pub struct DeviceId {
    node_id: [u8; 32],
}

impl View for DeviceId {
    type V = Seq<u8>;

    closed spec fn view(&self) -> Seq<u8> {
        self.node_id@
    }
}

impl DeviceId {
    /// A device ID always holds a valid node key.
    #[verifier::type_invariant]
    closed spec fn holds_valid_key(self) -> bool {
        iroh_key_valid(self.node_id@)
    }
}

/// `s` without dashes and with ASCII letters upper-cased.
pub open spec fn compact_id(s: Seq<char>) -> Seq<char>
    decreases s.len(),
{
    if s.len() == 0 {
        seq![]
    } else if s.last() == '-' {
        compact_id(s.drop_last())
    } else {
        compact_id(s.drop_last()).push(upper_char(s.last()))
    }
}

/// The characters as bytes.
pub open spec fn ascii_bytes(s: Seq<char>) -> Seq<u8> {
    s.map_values(|c: char| c as u8)
}

/// Group `g` of a 56-character device ID carries a valid check character.
pub open spec fn group_ok(c: Seq<char>, g: int) -> bool {
    luhn32_spec(ascii_bytes(c.subrange(14 * g, 14 * g + 13))) == Some(c[14 * g + 13] as u8)
}

/// The payload characters of the first `g` groups.
pub open spec fn groups(c: Seq<char>, g: nat) -> Seq<char>
    decreases g,
{
    if g == 0 {
        seq![]
    } else {
        groups(c, (g - 1) as nat) + c.subrange(14 * (g - 1), 14 * (g - 1) + 13)
    }
}

/// The payload of a 56-character device ID: each group of 14 is 13 payload
/// characters and a check character, which must be their Luhn character.
pub open spec fn checked_payload(c: Seq<char>) -> Option<Seq<char>> {
    if c.len() != 56 || !(forall|i: int| 0 <= i < c.len() ==> (#[trigger] c[i]) as u32 <= 0x7f) {
        None
    } else if (forall|g: int| 0 <= g < 4 ==> #[trigger] group_ok(c, g)) {
        Some(groups(c, 4))
    } else {
        None
    }
}

/// The node key a Syncthing device ID denotes.
pub open spec fn from_syncthing_spec(s: Seq<char>) -> Option<Seq<u8>> {
    match checked_payload(compact_id(s)) {
        Some(p) => match base32_bytes(p) {
            Some(b) => if b.len() == 32 && iroh_key_valid(b) {
                Some(b)
            } else {
                None
            },
            None => None,
        },
        None => None,
    }
}

/// The 56 checked characters of a key: four groups of 13 base32 characters,
/// each followed by its Luhn character.
pub open spec fn checked_text(t: Seq<char>) -> Seq<char> {
    checked_prefix(t, 4)
}

/// The text of a device ID: the checked characters in dash-separated
/// groups of seven.
pub open spec fn dashed(c: Seq<char>) -> Seq<char> {
    dashed_prefix(c, 8)
}

fn compact_chars(v: &[char]) -> (r: Vec<char>)
    ensures
        r@ == compact_id(v@),
{
    let mut r: Vec<char> = Vec::new();
    let mut i: usize = 0;
    while i < v.len()
        invariant
            i <= v.len(),
            r@ == compact_id(v@.subrange(0, i as int)),
        decreases v.len() - i,
    {
        let ghost t = v@.subrange(0, i + 1);
        assert(t.drop_last() =~= v@.subrange(0, i as int));
        if v[i] != '-' {
            r.push(crate::text::upper_ch(v[i]));
        }
        i += 1;
    }
    assert(v@.subrange(0, v@.len() as int) =~= v@);
    r
}

fn bytes_of_ascii(v: &[char]) -> (r: Vec<u8>)
    ensures
        r@ == ascii_bytes(v@),
{
    let mut r: Vec<u8> = Vec::new();
    let mut i: usize = 0;
    while i < v.len()
        invariant
            i <= v.len(),
            r@ == ascii_bytes(v@.subrange(0, i as int)),
        decreases v.len() - i,
    {
        r.push(v[i] as u8);
        i += 1;
        assert(r@ =~= ascii_bytes(v@.subrange(0, i as int)));
    }
    assert(v@.subrange(0, v@.len() as int) =~= v@);
    r
}

impl DeviceId {
    /// A device ID is 32 bytes.
    pub proof fn lemma_len(&self)
        ensures
            self@.len() == 32,
    {
    }

    /// The device ID of a valid node key.
    pub fn from_node_id(node_id: [u8; 32]) -> (d: Self)
        requires
            iroh_key_valid(node_id@),
        ensures
            d@ == node_id@,
    {
        DeviceId { node_id }
    }

    /// The device ID of 32 bytes, which must be a valid node key.
    pub fn from_key_bytes(bytes: [u8; 32]) -> (r: Result<Self>)
        ensures
            r is Ok <==> iroh_key_valid(bytes@),
            r matches Ok(d) ==> d@ == bytes@,
            r matches Err(e) ==> e is InvalidIdentity,
    {
        if !iroh_key_is_valid(&bytes) {
            return Err(SyncwebError::InvalidIdentity("device ID is not a valid node key".to_string()));
        }
        Ok(Self::from_node_id(bytes))
    }

    /// The node key, which is valid.
    pub fn node_id(&self) -> (k: [u8; 32])
        ensures
            k@ == self@,
            iroh_key_valid(k@),
    {
        proof {
            use_type_invariant(self);
        }
        self.node_id
    }

    /// Parse a Syncthing device ID: 56 base32 characters in any case, with
    /// or without dashes, whose groups carry valid check characters.
    pub fn from_syncthing(value: &str) -> (r: Result<DeviceId>)
        ensures
            r is Ok <==> from_syncthing_spec(value@) is Some,
            r is Ok ==> r->Ok_0@ == from_syncthing_spec(value@)->0,
            r is Err ==> r->Err_0 is InvalidIdentity,
    {
        let compact = compact_chars(&chars_of(value));
        if compact.len() != 56 {
            return Err(SyncwebError::InvalidIdentity("invalid Syncthing device ID: expected 56 base32 characters".to_string()));
        }
        let mut k: usize = 0;
        while k < 56
            invariant
                k <= 56,
                compact@.len() == 56,
                compact@ == compact_id(value@),
                forall|i: int| 0 <= i < k ==> (#[trigger] compact@[i]) as u32 <= 0x7f,
            decreases 56 - k,
        {
            if compact[k] as u32 > 0x7f {
                proof {
                    assert(!(forall|i: int| 0 <= i < compact@.len() ==> (#[trigger] compact@[i]) as u32 <= 0x7f));
                    assert(checked_payload(compact@) is None);
                }
                return Err(SyncwebError::InvalidIdentity("invalid Syncthing device ID: expected 56 base32 characters".to_string()));
            }
            k += 1;
        }
        let mut payload: Vec<char> = Vec::new();
        let mut g: usize = 0;
        while g < 4
            invariant
                g <= 4,
                compact@.len() == 56,
                compact@ == compact_id(value@),
                forall|i: int| 0 <= i < 56 ==> (#[trigger] compact@[i]) as u32 <= 0x7f,
                forall|q: int| 0 <= q < g ==> #[trigger] group_ok(compact@, q),
                payload@ == groups(compact@, g as nat),
            decreases 4 - g,
        {
            let start = 14 * g;
            let chunk = crate::text::slice_chars(&compact, start, start + 13);
            let bytes = bytes_of_ascii(&chunk);
            let check = compact[start + 13];
            match luhn32(&bytes) {
                Ok(x) => {
                    if x != check as u8 {
                        proof {
                            assert(!group_ok(compact@, g as int));
                            assert(!(forall|q: int| 0 <= q < 4 ==> #[trigger] group_ok(compact@, q)));
                            assert(checked_payload(compact@) is None);
                        }
                        return Err(SyncwebError::InvalidIdentity("invalid Syncthing device ID checksum".to_string()));
                    }
                },
                Err(e) => {
                    proof {
                        assert(!group_ok(compact@, g as int));
                        assert(!(forall|q: int| 0 <= q < 4 ==> #[trigger] group_ok(compact@, q)));
                        assert(checked_payload(compact@) is None);
                    }
                    return Err(e);
                },
            }
            let ghost before = payload@;
            let mut j: usize = 0;
            while j < 13
                invariant
                    j <= 13,
                    chunk@.len() == 13,
                    payload@ == before + chunk@.subrange(0, j as int),
                decreases 13 - j,
            {
                payload.push(chunk[j]);
                j += 1;
                assert(payload@ =~= before + chunk@.subrange(0, j as int));
            }
            assert(chunk@.subrange(0, 13) =~= chunk@);
            g += 1;
        }
        let text = string_of(&payload);
        let decoded = match base32_decode(text.as_str()) {
            Some(d) => d,
            None => {
                return Err(SyncwebError::InvalidIdentity("invalid Syncthing device ID base32 encoding".to_string()));
            },
        };
        if decoded.len() != 32 {
            return Err(SyncwebError::InvalidIdentity("invalid Syncthing device ID key length".to_string()));
        }
        let mut key: [u8; 32] = [0u8; 32];
        let mut i: usize = 0;
        while i < 32
            invariant
                i <= 32,
                decoded@.len() == 32,
                forall|q: int| 0 <= q < i ==> key@[q] == decoded@[q],
            decreases 32 - i,
        {
            key[i] = decoded[i];
            i += 1;
        }
        assert(key@ =~= decoded@);
        if !iroh_key_is_valid(&key) {
            return Err(SyncwebError::InvalidIdentity("invalid Ed25519 public key in Syncthing device ID".to_string()));
        }
        Ok(DeviceId { node_id: key })
    }

    /// The Syncthing text of the device ID: the key in base32, a Luhn check
    /// character after every 13 characters, in dash-separated groups of 7.
    pub fn to_syncthing(&self) -> (s: String)
        ensures
            s@ == dashed(checked_text(base32_text(self@))),
    {
        let encoded = base32_encode(&self.node_id);
        let t = chars_of(encoded.as_str());
        let ghost tv = t@;
        let mut checked: Vec<char> = Vec::new();
        let mut k: usize = 0;
        while k < 4
            invariant
                k <= 4,
                tv == t@,
                t@.len() == 52,
                checked@ == checked_prefix(tv, k as nat),
            decreases 4 - k,
        {
            let chunk = crate::text::slice_chars(&t, 13 * k, 13 * k + 13);
            let bytes = bytes_of_ascii(&chunk);
            let check: u8 = match luhn32(&bytes) {
                Ok(x) => x,
                Err(_) => 0,
            };
            let ghost before = checked@;
            let mut j: usize = 0;
            while j < 13
                invariant
                    j <= 13,
                    chunk@.len() == 13,
                    checked@ == before + chunk@.subrange(0, j as int),
                decreases 13 - j,
            {
                checked.push(chunk[j]);
                j += 1;
                assert(checked@ =~= before + chunk@.subrange(0, j as int));
            }
            assert(chunk@.subrange(0, 13) =~= chunk@);
            checked.push(check as char);
            k += 1;
        }
        proof {
            lemma_checked_prefix_len(tv, 4);
        }
        let mut out: Vec<char> = Vec::new();
        let mut g: usize = 0;
        while g < 8
            invariant
                g <= 8,
                checked@.len() == 56,
                out@ == dashed_prefix(checked@, g as nat),
            decreases 8 - g,
        {
            if g > 0 {
                out.push('-');
            }
            let ghost before = out@;
            let mut j: usize = 0;
            while j < 7
                invariant
                    j <= 7,
                    g < 8,
                    checked@.len() == 56,
                    out@ == before + checked@.subrange(7 * g as int, 7 * g + j),
                decreases 7 - j,
            {
                out.push(checked[7 * g + j]);
                j += 1;
                assert(out@ =~= before + checked@.subrange(7 * g as int, 7 * g + j));
            }
            g += 1;
        }
        string_of(&out)
    }
}

/// The checked characters of the first `k` groups of base32 text.
pub open spec fn checked_prefix(t: Seq<char>, k: nat) -> Seq<char>
    decreases k,
{
    if k == 0 {
        seq![]
    } else {
        let g = t.subrange(13 * (k - 1), 13 * (k - 1) + 13);
        checked_prefix(t, (k - 1) as nat) + g.push(
            (match luhn32_spec(ascii_bytes(g)) {
                Some(x) => x,
                None => 0u8,
            }) as char,
        )
    }
}

proof fn lemma_checked_prefix_len(t: Seq<char>, k: nat)
    requires
        13 * k <= t.len(),
    ensures
        checked_prefix(t, k).len() == 14 * k,
    decreases k,
{
    if k > 0 {
        lemma_checked_prefix_len(t, (k - 1) as nat);
    }
}

/// The first `g` groups of seven, dash-separated.
pub open spec fn dashed_prefix(c: Seq<char>, g: nat) -> Seq<char>
    decreases g,
{
    if g == 0 {
        seq![]
    } else if g == 1 {
        c.subrange(0, 7)
    } else {
        dashed_prefix(c, (g - 1) as nat) + seq!['-'] + c.subrange(7 * (g - 1), 7 * g as int)
    }
}

} // verus!
