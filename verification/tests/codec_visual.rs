use subrosa::cert::{Certificate, Certification};
use subrosa::handle::UserHandle;
use subrosa::sign::PgpApp;
use subrosa::store::{MutStore, PgpServiceStore};
use subrosa::visual::{bytes_to_n_fair, data_to_gismu_2, data_to_phone, lujvo_combined};
use subrosa::InternalErr;

fn fpr(n: u8) -> String {
    let mut s = String::new();
    for _ in 0..19 {
        s.push_str("0A");
    }
    s.push_str(&format!("{:02X}", n));
    s
}

fn plain_cert(f: &str, uid: &str) -> Certificate {
    Certificate {
        fingerprint: f.to_owned(),
        keyid: f.chars().skip(24).collect(),
        key_material: vec![],
        user_ids: vec![uid.to_owned()],
        subkeys: vec![],
        certifications: vec![],
        secret: None,
    }
}

#[test]
fn test_export() {
    let mut app = PgpApp::new();
    app.register_generated(plain_cert(&fpr(1), "test@example.com"), vec![1], true)
        .unwrap();
    app.register_generated(plain_cert(&fpr(2), "test2@example.com"), vec![2], true)
        .unwrap();
    let service = PgpServiceStore::new(app.store);
    let bytes = service.export_bytes().unwrap();
    let mut fresh = PgpServiceStore::new(MutStore::new());
    fresh.import_bytes(&bytes).unwrap();
    assert_eq!(fresh.store.certs.len(), 2);
}

#[test]
fn export_import_preserves_fingerprints_and_ids() {
    let mut app = PgpApp::new();
    let a = fpr(1);
    let b = fpr(2);
    let mut cert_a = plain_cert(&a, "alice@example.com");
    cert_a.user_ids.push("Alice".to_owned());
    cert_a.certifications.push(Certification {
        issuer: b.clone(),
        target: a.clone(),
        amount: 60,
        depth: 0,
    });
    app.store.update(cert_a);
    app.store.update(plain_cert(&b, "bob@example.com"));

    let service = PgpServiceStore::new(app.store);
    let bytes = service.export_bytes().unwrap();

    let mut fresh = PgpServiceStore::new(MutStore::new());
    fresh.import_bytes(&bytes).unwrap();

    assert_eq!(fresh.store.certs.len(), 2);
    assert_eq!(fresh.store.certs[0].fingerprint, a);
    assert_eq!(
        fresh.store.certs[0].user_ids,
        vec!["alice@example.com".to_owned(), "Alice".to_owned()]
    );
    assert_eq!(fresh.store.certs[0].certifications.len(), 1);
    assert_eq!(fresh.store.certs[0].certifications[0].issuer, b);
    assert_eq!(fresh.store.certs[0].certifications[0].amount, 60);
    assert_eq!(fresh.store.certs[1].fingerprint, b);
}

#[test]
fn import_rejects_malformed_bytes() {
    let mut fresh = PgpServiceStore::new(MutStore::new());
    match fresh.import_bytes(&vec![1, 2, 3]) {
        Err(InternalErr::ParseError) => {}
        other => panic!("expected ParseError, got {:?}", other),
    }
}

#[test]
fn hex_name_roundtrip() {
    let h = UserHandle::from_hex("9FCF6558AC4927F1E7A43D80317375B449854036").unwrap();
    assert!(matches!(h, UserHandle::Fingerprint(_)));
    assert_eq!(h.name(), "9FCF6558AC4927F1E7A43D80317375B449854036");
    assert_eq!(h.as_bytes()[0], 0x9F);
    h.try_fingerprint().unwrap();

    let short = UserHandle::from_hex("0011223344556677").unwrap();
    assert!(matches!(short, UserHandle::KeyId(_)));
    match short.try_fingerprint() {
        Err(InternalErr::FingerprintRequired) => {}
        other => panic!("expected FingerprintRequired, got {:?}", other),
    }

    match UserHandle::from_hex("XYZ1") {
        Err(InternalErr::ParseError) => {}
        other => panic!("expected ParseError, got {:?}", other),
    }
    match UserHandle::from_hex("ABC") {
        Err(InternalErr::ParseError) => {}
        other => panic!("expected ParseError, got {:?}", other),
    }
}

#[test]
fn fair_sampling_masks_leading_bit() {
    let data = vec![0x80, 0x01];
    // The leading byte is masked to its low seven bits: 0x80 counts as 0.
    assert_eq!(bytes_to_n_fair(&data, 0, 2).unwrap(), 1);
    let data2 = vec![0x7F, 0xFF];
    assert_eq!(bytes_to_n_fair(&data2, 0, 2).unwrap(), 0x7FFF);
    match bytes_to_n_fair(&data2, 0, 3) {
        Err(InternalErr::Generic(_)) => {}
        other => panic!("expected Generic, got {:?}", other),
    }
}

#[test]
fn phone_rendering_is_exact() {
    assert_eq!(data_to_phone(&vec![0, 0, 0, 0]).unwrap(), "+1 800-000-0000");
    // 0x7FFFFFFF % 9999999999 = 2147483647.
    assert_eq!(
        data_to_phone(&vec![0xFF, 0xFF, 0xFF, 0xFF]).unwrap(),
        "+3 814-748-3647"
    );
    match data_to_phone(&vec![1, 2, 3]) {
        Err(InternalErr::Generic(_)) => {}
        other => panic!("expected Generic, got {:?}", other),
    }
}

fn word_table() -> Vec<String> {
    // A table larger than one byte can address, so that each selection
    // consumes two bytes; the low entries are real word roots.
    let roots = ["banli", "canja", "jeftu", "krixa", "pensi", "nanca", "kitru", "ladru"];
    let mut table = Vec::new();
    for i in 0..300usize {
        if i < roots.len() {
            table.push(roots[i].to_owned());
        } else {
            table.push(format!("w{}", i));
        }
    }
    table
}

#[test]
fn word_pairing_follows_selection() {
    let table = word_table();
    // Selections: [0,1] -> 1, [0,2] -> 2, [0,3] -> 3 (odd tail).
    let data = vec![0, 1, 0, 2, 0, 3];
    let pairs = data_to_gismu_2(&data, &table).unwrap();
    assert_eq!(pairs.len(), 2);
    assert_eq!(pairs[0].0, "canja");
    assert_eq!(pairs[0].1.as_deref(), Some("jeftu"));
    assert_eq!(pairs[1].0, "krixa");
    assert!(pairs[1].1.is_none());
}

#[test]
fn compound_words_come_from_the_word_builder() {
    let table = word_table();
    // One full pair: "canja" + "jeftu".
    let data = vec![0, 1, 0, 2];
    let words = lujvo_combined(&data, &table).unwrap();
    assert_eq!(words.len(), 1);
    // The compound differs from both inputs and welds their rafsi.
    assert_eq!(words[0], "cajyjeftu");
}

#[test]
fn composite_lujvo_joins_words_and_phone() {
    let table = word_table();
    let mut bytes = vec![0u8; 20];
    bytes[1] = 1;
    bytes[3] = 2;
    bytes[5] = 3;
    bytes[7] = 4;
    bytes[9] = 1;
    bytes[11] = 2;
    bytes[13] = 3;
    bytes[15] = 4;
    let h = UserHandle::Fingerprint(bytes);
    let short = h.composite_lujvo(true, &table).unwrap();
    assert!(!short.contains('('));
    let long = h.composite_lujvo(false, &table).unwrap();
    assert!(long.contains("(+"));
    assert!(long.starts_with(&short));
}

#[test]
fn separate_requires_twenty_bytes() {
    let table = word_table();
    let h = UserHandle::KeyId(vec![1, 2, 3, 4]);
    match h.separate(&table, &table) {
        Err(InternalErr::Generic(_)) => {}
        other => panic!("expected Generic, got {:?}", other),
    }
    let h20 = UserHandle::Fingerprint(vec![0u8; 20]);
    let key = h20.separate(&table, &table).unwrap();
    assert_eq!(key.gismu.len(), 4);
    assert_eq!(key.emoji.len(), 4);
    assert_eq!(key.phone, "+1 800-000-0000");
}
