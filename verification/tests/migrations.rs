use rusqlite_migration::{Migrations, M};
use subrosa::api::Config;

#[test]
fn check_migrations() {
    Migrations::new(vec![M::up(
        "CREATE TABLE IF NOT EXISTS certs (
            fingerprint TEXT PRIMARY KEY,
            keyid TEXT NOT NULL,
            data BLOB NOT NULL,
            has_private INTEGER NOT NULL,
            role TEXT,
            online INTEGER NOT NULL
        )",
    )])
    .validate()
    .unwrap()
}

#[test]
fn write() {
    // Writing a message onto the wire and reading it back.
    let m = subrosa::proto::SubrosaMessage::Post(vec![1, 2, 3]);
    let bytes = m.encode_to_vec().unwrap();
    let back = subrosa::proto::SubrosaMessage::parse(&bytes).unwrap();
    match back {
        subrosa::proto::SubrosaMessage::Post(p) => assert_eq!(p, vec![1, 2, 3]),
        other => panic!("expected a post message, got {:?}", other),
    }
}

#[test]
fn config_starts_empty() {
    let c = Config::new();
    assert!(c.keystore_path.is_none());
    assert!(c.db_path.is_none());
}
