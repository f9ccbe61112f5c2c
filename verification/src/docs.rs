//! The kinds of documents a node provisions, and the metadata key each is
//! stamped under.
use vstd::prelude::*;

use vstd::utf8::encode_utf8;

verus! {

/// The kind of namespace being provisioned.
#[derive(Clone, Copy, Debug, PartialEq, Eq, Structural)]
pub enum ProvisionKind {
    Folder,
    Catalog,
    NetworkMembership,
}

/// The `sys/` key under which a kind's metadata is written.
pub open spec fn metadata_key_text(k: ProvisionKind) -> Seq<char> {
    match k {
        ProvisionKind::Folder => "sys/syncweb/mode"@,
        ProvisionKind::Catalog => "sys/syncweb/catalog/metadata"@,
        ProvisionKind::NetworkMembership => "sys/network/members"@,
    }
}

impl ProvisionKind {
    /// The metadata key of this kind.
    pub fn metadata_key(self) -> (k: &'static [u8])
        ensures
            k@ == encode_utf8(metadata_key_text(self)),
    {
        match self {
            ProvisionKind::Folder => "sys/syncweb/mode".as_bytes(),
            ProvisionKind::Catalog => "sys/syncweb/catalog/metadata".as_bytes(),
            ProvisionKind::NetworkMembership => "sys/network/members".as_bytes(),
        }
    }
}

} // verus!
