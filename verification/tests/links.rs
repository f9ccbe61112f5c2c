use syncweb_core::links::fetch_from_mirrors;
use syncweb_core::crypto::ed25519_public_key;
use syncweb_core::error::SyncwebError;
use syncweb_core::links::{
    validate_path_segment, ContentLink, FetchStep, LeaseEvidence, Link, LinkResolver, MirrorFallback, MutablePointer,
    NameLink, PrivateLink, ResolveOptions,
};
use syncweb_core::resilience::{ProviderLease, TicketInfo};

fn unsigned_pointer(p: &MutablePointer) -> Vec<u8> {
    format!("{:?}|{}|{}|{:?}|{:?}|{}", p.publisher, p.alias, p.sequence, p.manifest, p.version, p.providers.len())
        .into_bytes()
}

fn unsigned_lease(lease: &ProviderLease) -> Vec<u8> {
    format!(
        "{:?}|{:?}|{}|{}|{}|{}",
        lease.hash, lease.provider, lease.ticket, lease.sequence, lease.issued_at, lease.expires_at
    )
    .into_bytes()
}

fn ticket(seed: u8, hash: [u8; 32]) -> (String, TicketInfo) {
    let provider = ed25519_public_key(&[seed; 32]);
    (format!("blob-ticket-{seed}-{}", hex::encode(hash)), TicketInfo { hash, provider })
}

fn pointer(seed: u8, alias: &str, hash: [u8; 32], sequence: u64, version: &str) -> MutablePointer {
    let secret = [seed; 32];
    let mut p = MutablePointer::new(ed25519_public_key(&secret), alias, hash, sequence)
        .expect("pointer should build")
        .with_version(version);
    let unsigned = unsigned_pointer(&p);
    p.sign(&secret, &unsigned, &[]).expect("pointer should sign");
    p
}

fn publish(resolver: &mut LinkResolver, p: MutablePointer) -> Result<(), SyncwebError> {
    let unsigned = unsigned_pointer(&p);
    resolver.publish(p, &unsigned, Vec::new())
}

#[test]
fn immutable_links_round_trip() {
    let hash = [7_u8; 32];
    let link = ContentLink::new(hash);
    assert_eq!(link.uri(), format!("syncweb://content/{}", hex::encode(hash)));
    assert_eq!(ContentLink::parse(&link.uri()).expect("content link should parse"), link);
    assert_eq!(Link::parse(&link.uri()).expect("link should parse"), Link::Content(link));
}

#[test]
fn signed_names_are_monotonic_and_version_pinnable() {
    let hash_one = [1_u8; 32];
    let hash_two = [2_u8; 32];
    let mut resolver = LinkResolver::new();
    let first = pointer(1, "dataset", hash_one, 1, "1.0.0");
    let name = first.link().expect("pointer should have a link");
    publish(&mut resolver, first.duplicate()).expect("first pointer should publish");
    assert_eq!(resolver.resolve(&Link::Name(name.clone())).expect("name should resolve").manifest, hash_one);
    let pinned = resolver.resolve_version(&name, "1.0.0").expect("version should resolve");
    assert_eq!(pinned.manifest, hash_one);
    let second = pointer(1, "dataset", hash_two, 2, "2.0.0");
    publish(&mut resolver, second).expect("second pointer should publish");
    assert_eq!(resolver.resolve(&Link::Name(name.clone())).expect("name should resolve").manifest, hash_two);
    assert!(publish(&mut resolver, first).is_err());
    assert_eq!(resolver.resolve_version(&name, "1.0.0").expect("version should resolve").manifest, hash_one);
}

#[test]
fn mutable_resolution_includes_verified_provider_tickets() {
    let hash = [8_u8; 32];
    let (provider_ticket, info) = ticket(8, hash);
    let mut lease = ProviderLease::new_with_times(hash, &provider_ticket, Some(info), 1, 0, u64::MAX)
        .expect("provider lease should build");
    let lease_bytes = unsigned_lease(&lease);
    lease.sign(&[8; 32], &lease_bytes).expect("provider lease should sign");
    let evidence = vec![LeaseEvidence { ticket: Some(info), unsigned: lease_bytes }];

    let publisher_secret = [9_u8; 32];
    let mut p = MutablePointer::new_with_providers(
        ed25519_public_key(&publisher_secret),
        "dataset",
        hash,
        1,
        vec![lease],
        &evidence,
    )
    .expect("pointer should build")
    .with_version("1.0.0");
    let unsigned = unsigned_pointer(&p);
    p.sign(&publisher_secret, &unsigned, &evidence).expect("pointer should sign");

    let mut resolver = LinkResolver::new();
    let name = p.link().expect("pointer should have a link");
    resolver.publish(p, &unsigned, evidence).expect("pointer should publish");
    let resolution = resolver.resolve(&Link::Name(name)).expect("name should resolve");
    assert_eq!(resolution.manifest_hash(), hash);
    assert_eq!(resolution.providers.len(), 1);
    assert_eq!(resolution.provider_tickets(), &[provider_ticket]);
}

#[test]
fn private_links_expire_and_revoke() {
    let hash = [3_u8; 32];
    let link = PrivateLink::new(hash, "capability-token", 20).expect("private link should build");
    let mut resolver = LinkResolver::new();
    assert_eq!(
        resolver.resolve_at(&Link::Private(link.clone()), 10).expect("private link should resolve").manifest,
        hash
    );
    resolver.revoke(&link).expect("private link should revoke");
    assert!(resolver.resolve_at(&Link::Private(link.clone()), 10).is_err());
    assert!(resolver.resolve_at(&Link::Private(link), 20).is_err());
}

fn fetch_with_mirrors<T>(
    resolver: &LinkResolver,
    link: &Link,
    fetch: impl Fn(&str) -> Result<T, SyncwebError>,
) -> Result<T, SyncwebError> {
    let resolution = resolver.resolve(link)?;
    let tickets = resolution.provider_tickets();
    let (mut fallback, mut step) = MirrorFallback::start(tickets.len());
    loop {
        match step {
            FetchStep::Failed(error) => return Err(error),
            FetchStep::Try(i) => match fetch(&tickets[i]) {
                Ok(value) => return Ok(value),
                Err(error) => step = fallback.failed(&error.to_string()),
            },
        }
    }
}

#[test]
fn mirror_fallback_tries_alternates() {
    let hash = [4_u8; 32];
    let mut resolver = LinkResolver::new();
    let (first, first_info) = ticket(4, hash);
    let (second, second_info) = ticket(5, hash);
    resolver.register_mirror(&first, first_info).expect("first mirror should register");
    resolver.register_mirror(&second, second_info).expect("second mirror should register");
    let link = Link::Content(ContentLink::new(hash));
    let value = fetch_with_mirrors(&resolver, &link, |candidate| {
        if candidate == first {
            Err(SyncwebError::InvalidConfig("first mirror unavailable".to_owned()))
        } else {
            Ok("second mirror")
        }
    })
    .expect("fallback should find a mirror");
    assert_eq!(value, "second mirror");
}

#[test]
fn fallback_reports_every_failure() {
    let (mut fallback, step) = MirrorFallback::start(2);
    assert!(matches!(step, FetchStep::Try(0)));
    assert!(matches!(fallback.failed("a"), FetchStep::Try(1)));
    match fallback.failed("b") {
        FetchStep::Failed(SyncwebError::InvalidConfig(m)) => assert_eq!(m, "all mirror providers failed: a; b"),
        other => panic!("unexpected step {other:?}"),
    }
    assert!(matches!(MirrorFallback::start(0).1, FetchStep::Failed(SyncwebError::InvalidConfig(_))));
}

#[test]
fn mirrors_are_kept_once_in_registration_order() {
    let hash = [6_u8; 32];
    let mut resolver = LinkResolver::new();
    let (a, ai) = ticket(1, hash);
    let (b, bi) = ticket(2, hash);
    resolver.register_mirror(&a, ai).unwrap();
    resolver.register_mirror(&b, bi).unwrap();
    resolver.register_mirror(&a, ai).unwrap();
    assert_eq!(resolver.mirrors(&hash).unwrap(), vec![a, b]);
    assert!(resolver.mirrors(&[0; 32]).unwrap().is_empty());
}

#[test]
fn link_uris_parse_back() {
    let publisher = ed25519_public_key(&[3; 32]);
    let name = NameLink::new(publisher, "photos").unwrap();
    assert_eq!(name.uri(), format!("syncweb://name/{}/photos", hex::encode(publisher)));
    assert_eq!(NameLink::parse(&name.uri()).unwrap(), name);
    let private = PrivateLink::new([5; 32], "tok", 99).unwrap();
    assert_eq!(private.uri(), format!("syncweb://private/{}/tok?expires=99", hex::encode([5_u8; 32])));
    assert_eq!(PrivateLink::parse(&private.uri()).unwrap(), private);
    assert!(matches!(Link::parse("syncweb://other/x"), Err(SyncwebError::InvalidConfig(_))));
    assert!(matches!(
        NameLink::parse("syncweb://name/not-a-key/alias"),
        Err(SyncwebError::InvalidIdentity(_))
    ));
    assert!(NameLink::parse(&format!("syncweb://name/{}/a/b", hex::encode(publisher))).is_err());
    assert!(PrivateLink::parse(&format!("syncweb://private/{}/tok?expires=0", hex::encode([5_u8; 32]))).is_err());
}

#[test]
fn path_segments_reject_dots_delimiters_and_controls() {
    assert!(validate_path_segment("ok", "f").is_ok());
    for bad in ["", ".", "..", "a/b", "a?b", "a#b", "a%b", "a\u{7}b", "a\u{85}b"] {
        assert!(matches!(validate_path_segment(bad, "f"), Err(SyncwebError::InvalidConfig(_))), "{bad:?}");
    }
}

#[test]
fn generated_private_links_have_hex_capabilities() {
    let link = PrivateLink::generate([1; 32], 10).unwrap();
    assert_eq!(link.capability.len(), 64);
    assert!(link.capability.chars().all(|c| c.is_ascii_hexdigit()));
    assert!(PrivateLink::generate([1; 32], 0).is_err());
}

#[test]
fn resolve_options_builders() {
    let o = ResolveOptions::version("1.0").with_version("2.0");
    assert_eq!(o.version.as_deref(), Some("2.0"));
    assert_eq!(ResolveOptions::at(5).now, Some(5));
    assert_eq!(ResolveOptions::default(), ResolveOptions { version: None, now: None });
}

#[test]
fn unsigned_or_tampered_pointers_are_refused() {
    let mut resolver = LinkResolver::new();
    let p = MutablePointer::new(ed25519_public_key(&[1; 32]), "x", [1; 32], 1).unwrap();
    let unsigned = unsigned_pointer(&p);
    assert!(resolver.publish(p, &unsigned, Vec::new()).is_err());
    let mut q = MutablePointer::new(ed25519_public_key(&[1; 32]), "x", [1; 32], 1).unwrap();
    assert!(matches!(q.sign(&[2; 32], b"x", &[]), Err(SyncwebError::InvalidIdentity(_))));
    assert!(MutablePointer::new(ed25519_public_key(&[1; 32]), "x", [1; 32], 0).is_err());
}

#[test]
fn uris_that_are_no_links_do_not_resolve() {
    let resolver = LinkResolver::new();
    assert!(matches!(resolver.resolve_uri("https://example.com/x"), Err(SyncwebError::InvalidConfig(_))));
    assert!(resolver.resolve_uri("syncweb://content/zz").is_err());
}

#[test]
fn mirrors_are_tried_until_one_fetch_succeeds() {
    let tickets = vec!["a".to_string(), "b".to_string(), "c".to_string()];
    let fetch = |t: &String| -> Result<String, SyncwebError> {
        if t == "b" { Ok(format!("got {t}")) } else { Err(SyncwebError::InvalidTicket(t.clone())) }
    };
    assert_eq!(fetch_from_mirrors(&tickets, &fetch).unwrap(), "got b");
    let none: Vec<String> = Vec::new();
    assert!(matches!(fetch_from_mirrors(&none, &fetch), Err(SyncwebError::InvalidConfig(m)) if m == "link has no provider tickets"));
    let bad = vec!["x".to_string(), "y".to_string()];
    match fetch_from_mirrors(&bad, &fetch) {
        Err(SyncwebError::InvalidConfig(m)) => {
            assert_eq!(m, "all mirror providers failed: invalid ticket: x; invalid ticket: y")
        },
        other => panic!("unexpected {other:?}"),
    }
}
