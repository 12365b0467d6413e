use subrosa::cert::{Certificate, Certification};
use subrosa::sign::{PgpApp, TrustLevel};
use subrosa::store::MutStore;
use subrosa::wot::{CertNetworkTrait, StoreNetwork};
use subrosa::InternalErr;

fn fpr(n: u8) -> String {
    let mut s = String::new();
    for _ in 0..19 {
        s.push_str("0A");
    }
    s.push_str(&format!("{:02X}", n));
    s
}

fn plain_cert(f: &str, uid: &str) -> Certificate {
    Certificate {
        fingerprint: f.to_owned(),
        keyid: f.chars().skip(24).collect(),
        key_material: vec![1, 2, 3],
        user_ids: vec![uid.to_owned()],
        subkeys: vec![],
        certifications: vec![],
        secret: None,
    }
}

#[test]
fn update_is_idempotent() {
    let mut store = MutStore::new();
    let a = fpr(1);
    let mut c = plain_cert(&a, "a@example.com");
    c.certifications.push(Certification {
        issuer: fpr(2),
        target: a.clone(),
        amount: 120,
        depth: 1,
    });
    store.update(c.clone());
    let ids_once = store.certs[0].user_ids.len();
    let certs_once = store.certs[0].certifications.len();
    store.update(c);
    assert_eq!(store.certs.len(), 1);
    assert_eq!(store.certs[0].user_ids.len(), ids_once);
    assert_eq!(store.certs[0].certifications.len(), certs_once);
}

#[test]
fn update_merges_new_identity() {
    let mut store = MutStore::new();
    let a = fpr(1);
    store.update(plain_cert(&a, "a@example.com"));
    store.update(plain_cert(&a, "work@example.com"));
    assert_eq!(store.certs.len(), 1);
    assert_eq!(store.certs[0].user_ids.len(), 2);
}

#[test]
fn materialize_roundtrip_and_stub() {
    let mut app = PgpApp::new();
    let a = fpr(1);
    app.register_generated(plain_cert(&a, "a@example.com"), vec![9, 9, 9], true)
        .unwrap();
    let usable = app.materialize(&a).unwrap();
    assert!(usable.secret.is_some());

    // A pure stub: public half only.
    let b = fpr(2);
    app.store.update(plain_cert(&b, "b@example.com"));
    match app.materialize(&b) {
        Err(InternalErr::NotFound(_)) => {}
        other => panic!("expected NotFound, got {:?}", other),
    }
    // A missing fingerprint is NotFound too.
    match app.materialize(&fpr(3)) {
        Err(InternalErr::NotFound(_)) => {}
        other => panic!("expected NotFound, got {:?}", other),
    }
}

#[test]
fn role_is_exclusive() {
    let mut app = PgpApp::new();
    let a = fpr(1);
    let b = fpr(2);
    app.register_generated(plain_cert(&a, "a@example.com"), vec![1], true)
        .unwrap();
    app.register_generated(plain_cert(&b, "b@example.com"), vec![2], false)
        .unwrap();
    let role = "x".to_owned();
    app.vault.assign_role(&a, &role).unwrap();
    app.vault.assign_role(&b, &role).unwrap();
    let holders: Vec<String> = app
        .vault
        .rows
        .iter()
        .filter(|r| r.role.as_deref() == Some("x"))
        .map(|r| r.cert.fingerprint.clone())
        .collect();
    assert_eq!(holders, vec![b]);
}

#[test]
fn verify_wot() {
    let mut app = PgpApp::new();
    let a = fpr(1);
    let b = fpr(2);
    app.register_generated(plain_cert(&a, "test1@example.com"), vec![1], true)
        .unwrap();
    app.register_generated(plain_cert(&b, "test2@example.com"), vec![2], true)
        .unwrap();
    app.sign_with_trust_level(&a, &b, 1, TrustLevel::Partial).unwrap();

    let network = StoreNetwork::from_store(&app.store, vec![a.clone(), b.clone()]);
    let path = network.authenticate(&b, 120).unwrap();
    assert_ne!(path.trust, 0);
}

#[test]
fn verify_wot_single_root() {
    let mut app = PgpApp::new();
    let a = fpr(1);
    let b = fpr(2);
    app.register_generated(plain_cert(&a, "test1@example.com"), vec![1], true)
        .unwrap();
    app.register_generated(plain_cert(&b, "test2@example.com"), vec![2], true)
        .unwrap();
    app.sign_with_trust_level(&a, &b, 120, TrustLevel::Partial).unwrap();

    let network = StoreNetwork::from_store(&app.store, vec![a.clone()]);
    let path = network.authenticate(&b, 120).unwrap();
    assert_ne!(path.trust, 0);
}

#[test]
fn certify_full_then_authenticate_partial() {
    // Generate one online and one offline identity, certify with full
    // trust and depth 1, then authenticate at the partial threshold.
    let mut app = PgpApp::new();
    let a = fpr(1);
    let b = fpr(2);
    app.register_generated(plain_cert(&a, "a@example.com"), vec![1], true)
        .unwrap();
    app.register_generated(plain_cert(&b, "b@example.com"), vec![2], false)
        .unwrap();
    app.sign_with_trust_level(&a, &b, 1, TrustLevel::Full).unwrap();

    let network = StoreNetwork::from_store(&app.store, vec![a.clone()]);
    let graph = network.authenticate(&b, 60).unwrap();
    assert!(graph.trust >= 60);
    assert_eq!(graph.vertices.len(), 2);
    assert_eq!(graph.edges.len(), 1);
}

#[test]
fn unconnected_identities_have_no_trust() {
    let mut app = PgpApp::new();
    let a = fpr(1);
    let b = fpr(2);
    app.register_generated(plain_cert(&a, "a@example.com"), vec![1], true)
        .unwrap();
    app.register_generated(plain_cert(&b, "b@example.com"), vec![2], true)
        .unwrap();
    let network = StoreNetwork::from_store(&app.store, vec![a.clone()]);
    let graph = network.authenticate(&b, 60).unwrap();
    assert_eq!(graph.trust, 0);
    assert!(graph.edges.is_empty());
}

#[test]
fn dump_all_empty_store() {
    let store = MutStore::new();
    let network = StoreNetwork::from_store_unrooted(&store);
    let graph = network.dump_all().unwrap();
    assert_eq!(graph.trust, 0);
    assert!(graph.vertices.is_empty());
    assert!(graph.edges.is_empty());
}

#[test]
fn dump_all_renders_certifications() {
    let mut app = PgpApp::new();
    let a = fpr(1);
    let b = fpr(2);
    app.register_generated(plain_cert(&a, "a@example.com"), vec![1], true)
        .unwrap();
    app.register_generated(plain_cert(&b, "b@example.com"), vec![2], true)
        .unwrap();
    app.sign_with_trust_level(&a, &b, 1, TrustLevel::Full).unwrap();
    let network = StoreNetwork::from_store_unrooted(&app.store);
    let graph = network.dump_all().unwrap();
    assert_eq!(graph.trust, 0);
    assert_eq!(graph.edges.len(), 1);
    assert_eq!(graph.edges[0].src_id, "a@example.com");
    assert_eq!(graph.edges[0].dst_id, "b@example.com");
    assert_eq!(graph.vertices.len(), 2);
}

#[test]
fn sig_available_after_sign() {
    let mut app = PgpApp::new();
    let a = fpr(1);
    let b = fpr(2);
    app.register_generated(plain_cert(&a, "test1@example.com"), vec![1], true)
        .unwrap();
    app.register_generated(plain_cert(&b, "test2@example.com"), vec![2], true)
        .unwrap();

    assert_eq!(app.store.certifications_of(&b).len(), 0);
    app.sign_with_trust_level(&a, &b, 1, TrustLevel::Full).unwrap();
    let sigs = app.store.certifications_of(&b);
    assert_eq!(sigs.len(), 1);
    assert_eq!(sigs[0].issuer, a);
    assert_eq!(sigs[0].amount, 120);
}

#[test]
fn sign_missing_signer_is_not_found() {
    let mut app = PgpApp::new();
    let b = fpr(2);
    app.register_generated(plain_cert(&b, "b@example.com"), vec![2], true)
        .unwrap();
    match app.sign_with_trust_level(&fpr(1), &b, 1, TrustLevel::Full) {
        Err(InternalErr::NotFound(_)) => {}
        other => panic!("expected NotFound, got {:?}", other),
    }
}

#[test]
fn trust_levels_map_to_amounts() {
    assert_eq!(TrustLevel::Ultimate.get_trust(), 240);
    assert_eq!(TrustLevel::Full.get_trust(), 120);
    assert_eq!(TrustLevel::Partial.get_trust(), 60);
    assert_eq!(TrustLevel::Custom(7).get_trust(), 7);
}

#[test]
fn upload_online() {
    // Only certifications by online identities may leave the machine.
    let mut app = PgpApp::new();
    let online = fpr(1);
    let offline = fpr(2);
    app.register_generated(plain_cert(&online, "online@example.com"), vec![1], true)
        .unwrap();
    app.register_generated(plain_cert(&offline, "offline@example.com"), vec![2], false)
        .unwrap();
    app.sign_with_trust_level(&online, &offline, 1, TrustLevel::Full)
        .unwrap();
    app.sign_with_trust_level(&offline, &online, 1, TrustLevel::Full)
        .unwrap();

    let cert = app.store.lookup_by_cert_fpr(&online).unwrap();
    assert!(cert
        .certifications
        .iter()
        .any(|c| c.issuer == offline));

    let stripped = app.filter_cert_online_sigs(cert);
    assert!(!stripped
        .certifications
        .iter()
        .any(|c| c.issuer == offline));
}

#[test]
fn lookup_by_userid_finds_exact_labels() {
    let mut store = MutStore::new();
    store.update(plain_cert(&fpr(1), "a@example.com"));
    store.update(plain_cert(&fpr(2), "b@example.com"));
    let hits = store.lookup_by_userid(&"b@example.com".to_owned());
    assert_eq!(hits.len(), 1);
    assert_eq!(hits[0].fingerprint, fpr(2));
    assert!(store.lookup_by_userid(&"missing@example.com".to_owned()).is_empty());
}

#[test]
fn strip_cert_is_stub() {
    // A generated key is never a stub for its owner; a stripped copy
    // imported elsewhere is.
    let mut app1 = PgpApp::new();
    let mut app2 = PgpApp::new();
    let a = fpr(1);
    let b = fpr(2);
    app1.register_generated(plain_cert(&a, "test@example.com"), vec![1], true)
        .unwrap();
    app1.register_generated(plain_cert(&b, "other@example.com"), vec![2], true)
        .unwrap();
    app1.sign_with_trust_level(&b, &a, 1, TrustLevel::Full).unwrap();

    let cert = app1.store.lookup_by_cert_fpr(&a).unwrap();
    let strip = subrosa::api::strip_cert(cert.clone());
    assert_ne!(strip.certifications.len(), cert.certifications.len());

    app2.store.update(strip);
    assert!(!app1.is_stub(&a).unwrap());
    assert!(app2.is_stub(&a).unwrap());
}

#[test]
fn shared_store_serves_readers_and_writers() {
    let shared = subrosa::sharedstore::SharedStore::new(MutStore::new());
    shared.update(plain_cert(&fpr(1), "a@example.com"));
    shared.update(plain_cert(&fpr(2), "b@example.com"));
    assert!(shared.lookup_by_cert_fpr(&fpr(1)).is_ok());
    assert_eq!(shared.snapshot().len(), 2);
    shared.delete_fingerprint(&fpr(1)).unwrap();
    assert!(shared.lookup_by_cert_fpr(&fpr(1)).is_err());
    let network = shared.network(vec![fpr(2)]);
    let graph = network.dump_all().unwrap();
    assert_eq!(graph.trust, 0);
}

#[test]
fn delete_and_role_errors() {
    let mut app = PgpApp::new();
    let a = fpr(1);
    match app.vault.delete(&a) {
        Err(InternalErr::NotFound(_)) => {}
        other => panic!("expected NotFound, got {:?}", other),
    }
    match app.vault.assign_role(&a, &"x".to_owned()) {
        Err(InternalErr::NotFound(_)) => {}
        other => panic!("expected NotFound, got {:?}", other),
    }
    app.register_generated(plain_cert(&a, "a@example.com"), vec![1], true)
        .unwrap();
    app.vault.delete(&a).unwrap();
    assert!(app.vault.rows.is_empty());
}
